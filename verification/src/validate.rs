//! Epoch validation: the root computed over an epoch's header records is
//! compared byte for byte against the trusted master accumulator's entry
//! for that epoch.  Equality is the only ground for reporting an epoch
//! validated; a missing entry or a differing root is that epoch's
//! failure and nobody else's.

use vstd::prelude::*;

verus! {

/// The pre-distributed list of trusted epoch roots, indexed by epoch.
#[derive(Clone, Debug)]
pub struct MasterAccumulator {
    /// The trusted root of each historical epoch, in epoch order.
    pub historical_epochs: Vec<[u8; 32]>,
}

/// Why an epoch failed validation.
#[derive(Clone, Copy, Debug, PartialEq, Eq, Structural)]
pub enum ValidationError {
    /// The trusted accumulator commits to no root for this epoch.
    UnknownEpoch,
    /// The computed root differs from the trusted root: corrupted data
    /// or a wrong offset, never retried.
    AccumulatorMismatch,
}

impl MasterAccumulator {
    /// An accumulator trusting exactly the given roots.
    pub fn new(roots: Vec<[u8; 32]>) -> (r: MasterAccumulator)
        ensures
            r.historical_epochs@ == roots@,
    {
        MasterAccumulator { historical_epochs: roots }
    }

    /// How many epochs have a trusted root.
    pub fn epoch_count(&self) -> (r: usize)
        ensures
            r == self.historical_epochs@.len(),
    {
        self.historical_epochs.len()
    }

    /// The trusted root of one epoch, if the accumulator commits to it.
    pub fn epoch_root(&self, epoch: u64) -> (r: Option<[u8; 32]>)
        ensures
            r is Some <==> epoch < self.historical_epochs@.len(),
            r matches Some(root) ==> root == self.historical_epochs@[epoch as int],
    {
        if epoch < self.historical_epochs.len() as u64 {
            Some(self.historical_epochs[epoch as usize])
        } else {
            None
        }
    }
}

/// Whether the computed root is the trusted root of the epoch.
pub open spec fn epoch_root_matches(
    trusted: Seq<[u8; 32]>,
    epoch: nat,
    computed: Seq<u8>,
) -> bool {
    epoch < trusted.len() && trusted[epoch as int]@ == computed
}

/// The one outcome validation can have on these inputs: the epoch index
/// on a byte-for-byte root match, `UnknownEpoch` where the accumulator
/// commits to no root, `AccumulatorMismatch` where the roots differ.
pub open spec fn validation_outcome(
    trusted: Seq<[u8; 32]>,
    epoch: nat,
    computed: Seq<u8>,
) -> Result<u64, ValidationError> {
    if epoch >= trusted.len() {
        Err(ValidationError::UnknownEpoch)
    } else if trusted[epoch as int]@ == computed {
        Ok(epoch as u64)
    } else {
        Err(ValidationError::AccumulatorMismatch)
    }
}

/// Byte-for-byte equality of two 32-byte roots.
fn roots_equal(a: &[u8; 32], b: &[u8; 32]) -> (r: bool)
    ensures
        r == (a@ == b@),
{
    let mut i: usize = 0;
    while i < 32
        invariant
            i <= 32,
            forall|j: int| 0 <= j < i ==> a@[j] == b@[j],
        decreases 32 - i,
    {
        if a[i] != b[i] {
            proof {
                assert(a@[i as int] != b@[i as int]);
            }
            return false;
        }
        i = i + 1;
    }
    proof {
        assert(a@ =~= b@);
    }
    true
}

/// Validate one epoch's computed accumulator root against the trusted
/// accumulator.  The outcome is exactly `validation_outcome` over the
/// inputs: equal roots validate the epoch, and nothing else does.
pub fn validate_epoch_root(epoch: u64, computed_root: &[u8; 32], macc: &MasterAccumulator) -> (r:
    Result<u64, ValidationError>)
    ensures
        r == validation_outcome(macc.historical_epochs@, epoch as nat, computed_root@),
        r is Ok <==> epoch_root_matches(macc.historical_epochs@, epoch as nat, computed_root@),
{
    match macc.epoch_root(epoch) {
        None => Err(ValidationError::UnknownEpoch),
        Some(trusted) => {
            if roots_equal(&trusted, computed_root) {
                Ok(epoch)
            } else {
                Err(ValidationError::AccumulatorMismatch)
            }
        },
    }
}

/// Validation is deterministic: any two results that the validation
/// contract admits for the same trusted roots, epoch and computed root
/// are the same result — rerunning a comparison can never flip an
/// accept into a reject.
pub proof fn lemma_validation_deterministic(
    trusted: Seq<[u8; 32]>,
    epoch: nat,
    computed: Seq<u8>,
    r1: Result<u64, ValidationError>,
    r2: Result<u64, ValidationError>,
)
    requires
        r1 == validation_outcome(trusted, epoch, computed),
        r2 == validation_outcome(trusted, epoch, computed),
    ensures
        r1 == r2,
{
}

/// What to do when some blocks of an epoch fail header-record
/// conversion.
#[derive(Clone, Copy, Debug, PartialEq, Eq, Structural)]
pub enum ConversionPolicy {
    /// Any conversion failure fails the epoch: a root over an
    /// incomplete record set is never computed.
    Strict,
    /// Failures are reported but the epoch proceeds on the remaining
    /// records, unless none remain.
    Lenient,
}

impl Default for ConversionPolicy {
    /// The default policy is strict.
    fn default() -> (r: ConversionPolicy)
        ensures
            r == ConversionPolicy::Strict,
    {
        ConversionPolicy::Strict
    }
}

/// Whether an epoch may proceed to accumulation after `converted` of
/// its blocks became header records and `failed` did not.
pub fn conversion_passes(policy: ConversionPolicy, converted: usize, failed: usize) -> (r: bool)
    ensures
        r == (match policy {
            ConversionPolicy::Strict => failed == 0,
            ConversionPolicy::Lenient => converted > 0,
        }),
{
    match policy {
        ConversionPolicy::Strict => failed == 0,
        ConversionPolicy::Lenient => converted > 0,
    }
}

} // verus!
