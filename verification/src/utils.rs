//! Helper for the fetch commands: the chunk file names to retrieve
//! between a starting and an ending epoch.

use vstd::prelude::*;
use crate::chunks::{aligned_start, chunk_count, chunk_files_for_range, chunk_name_model};
use crate::MAX_EPOCH_SIZE;

verus! {

/// Largest ending epoch whose covering chunk names still fit ten
/// digits.
pub const MAX_FILENAME_EPOCH: u64 = 1220703;

/// The chunk file names to fetch between `start` and `end` epoch: one
/// name per 100-block boundary of the aligned range covering blocks
/// `[start * 8192, end * 8192)`, ascending, compressed names when
/// `compressed` says so.
///
/// The caller must order the epochs (`start < end`) and say whether
/// the store is compressed.
pub fn gen_dbin_filenames(start: u64, end: u64, compressed: Option<bool>) -> (r: Vec<String>)
    requires
        start < end,
        end <= MAX_FILENAME_EPOCH,
        compressed is Some,
    ensures
        r@.len() == chunk_count(
            (start * MAX_EPOCH_SIZE) as nat,
            (end * MAX_EPOCH_SIZE) as nat,
        ),
        forall|i: int|
            0 <= i < r@.len() ==> r@[i]@ == chunk_name_model(
                (aligned_start((start * MAX_EPOCH_SIZE) as nat) + 100 * i) as nat,
                compressed.unwrap(),
            ),
{
    let zst = match compressed {
        Some(b) => b,
        None => true,
    };
    proof {
        assert(start * 8192 < end * 8192 && end * 8192 <= 1220703 * 8192) by (nonlinear_arith)
            requires
                start < end,
                end <= 1220703,
        ;
    }
    let start_block: u64 = start * MAX_EPOCH_SIZE;
    let end_block: u64 = end * MAX_EPOCH_SIZE;
    match chunk_files_for_range(start_block, end_block, zst) {
        Ok(plan) => plan.names,
        Err(_) => {
            proof {
                assert(false);
            }
            Vec::new()
        },
    }
}

} // verus!
