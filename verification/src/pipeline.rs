//! Pipeline orchestration, the decidable part: which epochs a range
//! request schedules, and how per-epoch outcomes — completing in any
//! order — aggregate into a report that names every scheduled epoch
//! exactly once and never lets one epoch's failure touch another's
//! entry.  The concurrent execution itself (tasks, channels) lives with
//! the caller; every decision it takes is a function here.

use vstd::prelude::*;
use crate::assemble::AssembleError;
use crate::store::ReadError;

verus! {

/// How many epoch workers may run at once.  Admitting a new epoch only
/// while fewer than this are in flight caps memory and outbound
/// connections for large ranges; the result channel gets the same
/// capacity.
pub const MAX_EPOCHS_IN_FLIGHT: usize = 5;

/// The terminal state of one epoch's validation.
#[derive(Clone, Debug)]
pub enum EpochStatus {
    /// The computed root matched the trusted root.
    Validated,
    /// The computed root differed from the trusted root.
    Mismatched,
    /// The trusted accumulator commits to no root for this epoch.
    UnknownEpoch,
    /// A chunk fetch or decode failed; the epoch was never assembled.
    FetchFailed(ReadError),
    /// The fetched chunks did not assemble into the epoch's range.
    AssembleFailed(AssembleError),
    /// Header-record conversion failed under the conversion policy.
    ConversionFailed,
}

/// One epoch's reported outcome.
#[derive(Clone, Debug)]
pub struct EpochResult {
    pub epoch: u64,
    pub status: EpochStatus,
}

/// The epochs scheduled by a range request: every index from
/// `start_epoch` through the inclusive end, which defaults to
/// `start_epoch + 1` when absent; an inverted range schedules nothing.
pub open spec fn planned_last(start_epoch: u64, end_epoch: Option<u64>) -> int {
    match end_epoch {
        Some(e) => e as int,
        None => start_epoch + 1,
    }
}

/// Whether the pipeline may admit one more epoch worker while
/// `in_flight` of them have not reported yet.
pub fn can_admit_epoch(in_flight: usize) -> (r: bool)
    ensures
        r == (in_flight < MAX_EPOCHS_IN_FLIGHT),
{
    in_flight < MAX_EPOCHS_IN_FLIGHT
}

/// The epoch indices a range request schedules, in ascending order.
pub fn plan_epochs(start_epoch: u64, end_epoch: Option<u64>) -> (r: Vec<u64>)
    requires
        end_epoch is None ==> start_epoch < u64::MAX,
    ensures
        planned_last(start_epoch, end_epoch) < start_epoch ==> r@.len() == 0,
        planned_last(start_epoch, end_epoch) >= start_epoch ==> r@.len() == planned_last(
            start_epoch,
            end_epoch,
        ) - start_epoch + 1,
        forall|i: int| 0 <= i < r@.len() ==> r@[i] == start_epoch + i,
{
    let last: u64 = match end_epoch {
        Some(e) => e,
        None => start_epoch + 1,
    };
    let mut epochs: Vec<u64> = Vec::new();
    if last < start_epoch {
        return epochs;
    }
    let mut e: u64 = start_epoch;
    loop
        invariant_except_break
            start_epoch <= e <= last,
            last == planned_last(start_epoch, end_epoch),
            epochs@.len() == e - start_epoch,
            forall|i: int| 0 <= i < epochs@.len() ==> epochs@[i] == start_epoch + i,
        ensures
            epochs@.len() == last - start_epoch + 1,
            last == planned_last(start_epoch, end_epoch),
            forall|i: int| 0 <= i < epochs@.len() ==> epochs@[i] == start_epoch + i,
        decreases last - e,
    {
        epochs.push(e);
        if e == last {
            break;
        }
        e = e + 1;
    }
    epochs
}

/// The epochs with a `Validated` entry, in report order.
pub open spec fn validated_of(entries: Seq<EpochResult>) -> Seq<u64>
    decreases entries.len(),
{
    if entries.len() == 0 {
        Seq::empty()
    } else {
        validated_of(entries.drop_last()) + (if entries.last().status is Validated {
            seq![entries.last().epoch]
        } else {
            Seq::<u64>::empty()
        })
    }
}

/// The epoch each entry reports on, in report order.
pub open spec fn epochs_of(entries: Seq<EpochResult>) -> Seq<u64> {
    Seq::new(entries.len(), |i: int| entries[i].epoch)
}

/// No two entries report on the same epoch.
pub open spec fn epochs_distinct(entries: Seq<EpochResult>) -> bool {
    forall|i: int, j: int| 0 <= i < j < entries.len() ==> entries[i].epoch != entries[j].epoch
}

/// Ascending order.
pub open spec fn sorted_ascending(s: Seq<u64>) -> bool {
    forall|p: int, q: int| 0 <= p < q < s.len() ==> s[p] <= s[q]
}

/// An epoch is in the validated list exactly when some entry reports it
/// validated.
pub proof fn lemma_validated_membership(entries: Seq<EpochResult>)
    ensures
        forall|e: u64|
            #[trigger] validated_of(entries).contains(e) <==> exists|i: int|
                0 <= i < entries.len() && (#[trigger] entries[i]).epoch == e
                    && entries[i].status is Validated,
    decreases entries.len(),
{
    if entries.len() > 0 {
        lemma_validated_membership(entries.drop_last());
        let pre = entries.drop_last();
        assert forall|e: u64| #[trigger] validated_of(entries).contains(e) implies exists|i: int|
            0 <= i < entries.len() && (#[trigger] entries[i]).epoch == e
                && entries[i].status is Validated by {
            if validated_of(pre).contains(e) {
                let i = choose|i: int|
                    0 <= i < pre.len() && (#[trigger] pre[i]).epoch == e
                        && pre[i].status is Validated;
                assert(entries[i].epoch == e && entries[i].status is Validated);
            } else {
                assert(entries.last().status is Validated && entries.last().epoch == e);
                assert(entries[entries.len() - 1].epoch == e);
            }
        };
        assert forall|e: u64|
            exists|i: int|
                0 <= i < entries.len() && (#[trigger] entries[i]).epoch == e
                    && entries[i].status is Validated implies #[trigger] validated_of(
            entries,
        ).contains(e) by {
            let i = choose|i: int|
                0 <= i < entries.len() && (#[trigger] entries[i]).epoch == e
                    && entries[i].status is Validated;
            if i < entries.len() - 1 {
                assert(pre[i].epoch == e && pre[i].status is Validated);
                assert(validated_of(pre).contains(e));
                let w = choose|w: int| 0 <= w < validated_of(pre).len() && validated_of(pre)[w] == e;
                assert(validated_of(entries)[w] == e);
            } else {
                assert(validated_of(entries).last() == e);
            }
        };
    }
}

/// Failure isolation: two runs whose reports differ in at most the
/// status of one epoch's entry agree on every other epoch — the same
/// epochs are reported, and any epoch but the disturbed one is in the
/// validated list of the one report exactly when it is in the other's.
/// A non-validated entry for the disturbed epoch keeps it out of the
/// validated list entirely when each epoch is reported once.
pub proof fn lemma_failure_isolation(
    entries1: Seq<EpochResult>,
    entries2: Seq<EpochResult>,
    j: int,
)
    requires
        0 <= j < entries1.len(),
        entries2.len() == entries1.len(),
        forall|i: int| 0 <= i < entries1.len() && i != j ==> entries1[i] == entries2[i],
        entries1[j].epoch == entries2[j].epoch,
    ensures
        epochs_of(entries1) == epochs_of(entries2),
        forall|e: u64|
            e != entries1[j].epoch ==> (validated_of(entries1).contains(e) <==> validated_of(
                entries2,
            ).contains(e)),
        !(entries2[j].status is Validated) && epochs_distinct(entries2) ==> !validated_of(
            entries2,
        ).contains(entries2[j].epoch),
{
    assert(epochs_of(entries1) =~= epochs_of(entries2));
    lemma_validated_membership(entries1);
    lemma_validated_membership(entries2);
    assert forall|e: u64| e != entries1[j].epoch implies (validated_of(entries1).contains(e)
        <==> validated_of(entries2).contains(e)) by {
        if validated_of(entries1).contains(e) {
            let i = choose|i: int|
                0 <= i < entries1.len() && (#[trigger] entries1[i]).epoch == e
                    && entries1[i].status is Validated;
            assert(i != j);
            assert(entries2[i].epoch == e && entries2[i].status is Validated);
        }
        if validated_of(entries2).contains(e) {
            let i = choose|i: int|
                0 <= i < entries2.len() && (#[trigger] entries2[i]).epoch == e
                    && entries2[i].status is Validated;
            assert(i != j);
            assert(entries1[i].epoch == e && entries1[i].status is Validated);
        }
    };
    if !(entries2[j].status is Validated) && epochs_distinct(entries2) {
        if validated_of(entries2).contains(entries2[j].epoch) {
            let i = choose|i: int|
                0 <= i < entries2.len() && (#[trigger] entries2[i]).epoch == entries2[j].epoch
                    && entries2[i].status is Validated;
            assert(i == j);
        }
    }
}

/// The aggregated outcome of one pipeline run: every scheduled epoch's
/// terminal state, recorded exactly once, in whatever order the
/// concurrent workers completed.
pub struct ValidationReport {
    pub entries: Vec<EpochResult>,
}

impl ValidationReport {
    /// An empty report.
    pub fn new() -> (r: ValidationReport)
        ensures
            r.entries@.len() == 0,
    {
        ValidationReport { entries: Vec::new() }
    }

    /// Record one epoch's terminal state.
    pub fn record(&mut self, epoch: u64, status: EpochStatus)
        ensures
            final(self).entries@ == old(self).entries@.push(EpochResult { epoch, status }),
    {
        self.entries.push(EpochResult { epoch, status });
    }

    /// The validated epochs, in the order their workers reported.
    pub fn validated(&self) -> (r: Vec<u64>)
        ensures
            r@ == validated_of(self.entries@),
    {
        let mut out: Vec<u64> = Vec::new();
        let mut i: usize = 0;
        while i < self.entries.len()
            invariant
                i <= self.entries@.len(),
                out@ == validated_of(self.entries@.subrange(0, i as int)),
            decreases self.entries@.len() - i,
        {
            let ghost pre = self.entries@.subrange(0, i as int);
            let ghost cur = self.entries@.subrange(0, i + 1);
            proof {
                assert(cur.drop_last() =~= pre);
                assert(cur.last() == self.entries@[i as int]);
            }
            match self.entries[i].status {
                EpochStatus::Validated => {
                    out.push(self.entries[i].epoch);
                    proof {
                        assert(out@ =~= validated_of(cur));
                    }
                },
                _ => {
                    proof {
                        assert(out@ =~= validated_of(cur));
                    }
                },
            }
            i = i + 1;
        }
        proof {
            assert(self.entries@.subrange(0, self.entries@.len() as int) =~= self.entries@);
        }
        out
    }

    /// The validated epochs in ascending epoch order, as the final
    /// report presents them.
    pub fn sorted_validated(&self) -> (r: Vec<u64>)
        ensures
            sorted_ascending(r@),
            r@.to_multiset() == validated_of(self.entries@).to_multiset(),
    {
        let unsorted = self.validated();
        let ghost target = unsorted@;
        let mut out: Vec<u64> = Vec::new();
        let mut i: usize = 0;
        proof {
            vstd::seq_lib::lemma_multiset_commutative(Seq::<u64>::empty(), target);
            assert(target.subrange(0, 0) =~= Seq::<u64>::empty());
        }
        while i < unsorted.len()
            invariant
                i <= target.len(),
                unsorted@ == target,
                sorted_ascending(out@),
                out@.to_multiset() == target.subrange(0, i as int).to_multiset(),
            decreases target.len() - i,
        {
            let x = unsorted[i];
            insert_sorted(&mut out, x);
            proof {
                let pre = target.subrange(0, i as int);
                let cur = target.subrange(0, i + 1);
                assert(cur =~= pre.push(x));
                broadcast use vstd::seq_lib::group_to_multiset_ensures;

                assert(out@.to_multiset() =~= cur.to_multiset());
            }
            i = i + 1;
        }
        proof {
            assert(target.subrange(0, target.len() as int) =~= target);
        }
        out
    }
}

/// Insert `x` into an ascending vector, keeping it ascending.
fn insert_sorted(v: &mut Vec<u64>, x: u64)
    requires
        sorted_ascending(old(v)@),
    ensures
        sorted_ascending(final(v)@),
        final(v)@.to_multiset() == old(v)@.to_multiset().insert(x),
        final(v)@.len() == old(v)@.len() + 1,
{
    let ghost s = v@;
    let mut idx: usize = 0;
    while idx < v.len() && v[idx] <= x
        invariant
            idx <= v@.len(),
            v@ == s,
            forall|p: int| 0 <= p < idx ==> s[p] <= x,
        decreases v@.len() - idx,
    {
        idx = idx + 1;
    }
    proof {
        assert(idx < s.len() ==> s[idx as int] > x);
    }
    v.insert(idx, x);
    proof {
        assert(v@ =~= s.subrange(0, idx as int).push(x) + s.subrange(idx as int, s.len() as int));
        assert(s =~= s.subrange(0, idx as int) + s.subrange(idx as int, s.len() as int));
        vstd::seq_lib::lemma_multiset_commutative(
            s.subrange(0, idx as int).push(x),
            s.subrange(idx as int, s.len() as int),
        );
        vstd::seq_lib::lemma_multiset_commutative(
            s.subrange(0, idx as int),
            s.subrange(idx as int, s.len() as int),
        );
        broadcast use vstd::seq_lib::group_to_multiset_ensures;

        assert(v@.to_multiset() =~= s.to_multiset().insert(x));
        assert forall|p: int, q: int| 0 <= p < q < v@.len() implies v@[p] <= v@[q] by {
            assert(forall|t: int| 0 <= t < idx ==> v@[t] == s[t]);
            assert(v@[idx as int] == x);
            assert(forall|t: int| idx < t < v@.len() ==> v@[t] == s[t - 1]);
            assert(forall|t: int| idx <= t < s.len() ==> s[t] >= x);
        };
    }
}

} // verus!
