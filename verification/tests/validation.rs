use flat_head::validate::{conversion_passes, validate_epoch_root, ConversionPolicy,
    MasterAccumulator, ValidationError};

fn root(fill: u8) -> [u8; 32] {
    [fill; 32]
}

#[test]
fn matching_root_validates_the_epoch() {
    let macc = MasterAccumulator::new(vec![root(0xaa), root(0xbb)]);
    assert_eq!(validate_epoch_root(0, &root(0xaa), &macc), Ok(0));
    assert_eq!(validate_epoch_root(1, &root(0xbb), &macc), Ok(1));
}

#[test]
fn differing_root_is_a_mismatch() {
    let macc = MasterAccumulator::new(vec![root(0xaa)]);
    let mut corrupted = root(0xaa);
    corrupted[31] ^= 1;
    assert_eq!(
        validate_epoch_root(0, &corrupted, &macc),
        Err(ValidationError::AccumulatorMismatch)
    );
}

#[test]
fn epoch_without_trusted_root_is_unknown() {
    let macc = MasterAccumulator::new(vec![root(0xaa)]);
    assert_eq!(validate_epoch_root(1, &root(0xaa), &macc), Err(ValidationError::UnknownEpoch));
    assert_eq!(validate_epoch_root(7, &root(0xaa), &macc), Err(ValidationError::UnknownEpoch));
}

#[test]
fn validation_is_deterministic() {
    let macc = MasterAccumulator::new(vec![root(0x11), root(0x22)]);
    let first = validate_epoch_root(1, &root(0x22), &macc);
    let second = validate_epoch_root(1, &root(0x22), &macc);
    assert_eq!(first, second);
    let third = validate_epoch_root(1, &root(0x33), &macc);
    let fourth = validate_epoch_root(1, &root(0x33), &macc);
    assert_eq!(third, fourth);
    assert_ne!(first, third);
}

#[test]
fn accumulator_lookup() {
    let macc = MasterAccumulator::new(vec![root(1), root(2)]);
    assert_eq!(macc.epoch_count(), 2);
    assert_eq!(macc.epoch_root(0), Some(root(1)));
    assert_eq!(macc.epoch_root(1), Some(root(2)));
    assert_eq!(macc.epoch_root(2), None);
}

#[test]
fn strict_policy_rejects_any_conversion_failure() {
    assert!(conversion_passes(ConversionPolicy::Strict, 8192, 0));
    assert!(!conversion_passes(ConversionPolicy::Strict, 8191, 1));
    assert!(!conversion_passes(ConversionPolicy::Strict, 0, 8192));
}

#[test]
fn lenient_policy_needs_only_one_record() {
    assert!(conversion_passes(ConversionPolicy::Lenient, 1, 8191));
    assert!(!conversion_passes(ConversionPolicy::Lenient, 0, 8192));
}

#[test]
fn default_policy_is_strict() {
    assert_eq!(ConversionPolicy::default(), ConversionPolicy::Strict);
}
