use flat_head::assemble::{assemble_epoch, AssembleError, FetchedChunk};
use flat_head::pipeline::{plan_epochs, EpochStatus, ValidationReport};
use flat_head::store::ReadError;
use flat_head::validate::{validate_epoch_root, MasterAccumulator, ValidationError};

#[test]
fn plan_is_the_inclusive_range() {
    assert_eq!(plan_epochs(3, Some(6)), vec![3, 4, 5, 6]);
    assert_eq!(plan_epochs(0, Some(0)), vec![0]);
}

#[test]
fn plan_without_end_takes_the_next_epoch_too() {
    assert_eq!(plan_epochs(5, None), vec![5, 6]);
}

#[test]
fn inverted_plan_schedules_nothing() {
    assert_eq!(plan_epochs(6, Some(3)), Vec::<u64>::new());
}

#[test]
fn report_collects_and_sorts_validated_epochs() {
    let mut report = ValidationReport::new();
    report.record(4, EpochStatus::Validated);
    report.record(2, EpochStatus::Mismatched);
    report.record(0, EpochStatus::Validated);
    report.record(3, EpochStatus::UnknownEpoch);
    report.record(1, EpochStatus::Validated);
    assert_eq!(report.validated(), vec![4, 0, 1]);
    assert_eq!(report.sorted_validated(), vec![0, 1, 4]);
}

// One failing epoch leaves every sibling's outcome untouched and is
// itself reported, not dropped.
#[test]
fn one_failure_is_isolated() {
    let mut clean = ValidationReport::new();
    clean.record(0, EpochStatus::Validated);
    clean.record(1, EpochStatus::Validated);
    clean.record(2, EpochStatus::Validated);

    let mut disturbed = ValidationReport::new();
    disturbed.record(0, EpochStatus::Validated);
    disturbed.record(1, EpochStatus::FetchFailed(ReadError::NotFound("chunk".to_string())));
    disturbed.record(2, EpochStatus::Validated);

    assert_eq!(clean.sorted_validated(), vec![0, 1, 2]);
    assert_eq!(disturbed.sorted_validated(), vec![0, 2]);
    assert_eq!(disturbed.entries.len(), 3);
    assert!(matches!(disturbed.entries[1].status, EpochStatus::FetchFailed(_)));
}

// In-memory pipeline runs: every epoch's worker is driven to its
// terminal state by hand, standing in for fetch, decode and hashing.

fn chunks_for_epoch(epoch: u64) -> Vec<FetchedChunk<u64>> {
    let start = epoch * 8192;
    let first = (start / 100) * 100;
    let last = ((start + 8192 + 99) / 100) * 100;
    let mut chunks = Vec::new();
    let mut s = first;
    while s < last {
        let mut blocks = Vec::new();
        let mut b = s;
        while b < s + 100 {
            blocks.push(b);
            b += 1;
        }
        chunks.push(FetchedChunk { start_block: s, blocks });
        s += 100;
    }
    chunks
}

fn root(fill: u8) -> [u8; 32] {
    [fill; 32]
}

// The root the external accumulator library would compute over an
// epoch's header records in these runs.
fn computed_root_of(blocks: &[u64]) -> [u8; 32] {
    let mut r = [0u8; 32];
    for b in blocks {
        r[(b % 32) as usize] ^= (b % 251) as u8;
        r[0] = r[0].wrapping_add(1);
    }
    r
}

#[test]
fn run_validates_a_clean_epoch() {
    // The store holds the chunks of blocks 0..8192 and the trusted
    // accumulator commits to exactly their root.
    let blocks = assemble_epoch(0, chunks_for_epoch(0)).unwrap();
    let trusted = computed_root_of(&blocks);
    let macc = MasterAccumulator::new(vec![trusted]);

    let mut report = ValidationReport::new();
    for epoch in plan_epochs(0, Some(0)) {
        let assembled = assemble_epoch(epoch, chunks_for_epoch(epoch)).unwrap();
        let computed = computed_root_of(&assembled);
        match validate_epoch_root(epoch, &computed, &macc) {
            Ok(e) => report.record(e, EpochStatus::Validated),
            Err(ValidationError::UnknownEpoch) => report.record(epoch, EpochStatus::UnknownEpoch),
            Err(ValidationError::AccumulatorMismatch) => {
                report.record(epoch, EpochStatus::Mismatched)
            }
        }
    }
    assert_eq!(report.sorted_validated(), vec![0]);
}

#[test]
fn run_reports_a_corrupted_epoch() {
    // One byte of one chunk is corrupted: the computed root differs and
    // the epoch is reported mismatched, never validated.
    let clean = assemble_epoch(0, chunks_for_epoch(0)).unwrap();
    let macc = MasterAccumulator::new(vec![computed_root_of(&clean)]);

    let mut corrupted_chunks = chunks_for_epoch(0);
    corrupted_chunks[7].blocks[13] ^= 1;

    let mut report = ValidationReport::new();
    for epoch in plan_epochs(0, Some(0)) {
        let assembled = assemble_epoch(epoch, corrupted_chunks.clone()).unwrap();
        let computed = computed_root_of(&assembled);
        match validate_epoch_root(epoch, &computed, &macc) {
            Ok(e) => report.record(e, EpochStatus::Validated),
            Err(ValidationError::UnknownEpoch) => report.record(epoch, EpochStatus::UnknownEpoch),
            Err(ValidationError::AccumulatorMismatch) => {
                report.record(epoch, EpochStatus::Mismatched)
            }
        }
    }
    assert_eq!(report.sorted_validated(), Vec::<u64>::new());
    assert!(matches!(report.entries[0].status, EpochStatus::Mismatched));
}

#[test]
fn run_skips_only_the_epoch_with_the_missing_chunk() {
    // Epochs 0..=2; epoch 1's backing chunks are missing from the
    // store: epochs 0 and 2 validate, epoch 1 is reported, not dropped.
    let roots: Vec<[u8; 32]> = (0u64..3)
        .map(|e| computed_root_of(&assemble_epoch(e, chunks_for_epoch(e)).unwrap()))
        .collect();
    let macc = MasterAccumulator::new(roots);

    let mut report = ValidationReport::new();
    for epoch in plan_epochs(0, Some(2)) {
        let fetched: Result<Vec<FetchedChunk<u64>>, ReadError> = if epoch == 1 {
            Err(ReadError::NotFound(format!("{:010}.dbin", 8100)))
        } else {
            Ok(chunks_for_epoch(epoch))
        };
        match fetched {
            Err(e) => report.record(epoch, EpochStatus::FetchFailed(e)),
            Ok(chunks) => match assemble_epoch(epoch, chunks) {
                Err(AssembleError::WrongChunks) => {
                    report.record(epoch, EpochStatus::AssembleFailed(AssembleError::WrongChunks))
                }
                Err(AssembleError::ShortChunks) => {
                    report.record(epoch, EpochStatus::AssembleFailed(AssembleError::ShortChunks))
                }
                Ok(assembled) => {
                    let computed = computed_root_of(&assembled);
                    match validate_epoch_root(epoch, &computed, &macc) {
                        Ok(e) => report.record(e, EpochStatus::Validated),
                        Err(ValidationError::UnknownEpoch) => {
                            report.record(epoch, EpochStatus::UnknownEpoch)
                        }
                        Err(ValidationError::AccumulatorMismatch) => {
                            report.record(epoch, EpochStatus::Mismatched)
                        }
                    }
                }
            },
        }
    }
    assert_eq!(report.sorted_validated(), vec![0, 2]);
    assert_eq!(report.entries.len(), 3);
    assert!(matches!(
        report.entries[1].status,
        EpochStatus::FetchFailed(ReadError::NotFound(_))
    ));
}
