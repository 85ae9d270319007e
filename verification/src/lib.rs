//! Validation of flat-file block archives against a trusted accumulator.
//!
//! Historical blocks are archived as fixed-size chunk files of 100 blocks
//! each.  For a requested range of epochs (windows of 8192 consecutive
//! blocks) this library locates the covering chunk files, reassembles the
//! exact block range, applies the terminal-epoch truncation rule, and
//! compares the epoch's computed accumulator root against the trusted
//! master accumulator.  Fetching bytes, decoding them into blocks and
//! hashing header records are the work of outside components; everything
//! that decides, addresses, slices and compares is here, with contracts.

use vstd::prelude::*;

pub mod assemble;
pub mod chunks;
pub mod digits;
pub mod pipeline;
pub mod store;
pub mod validate;
pub mod urls;
pub mod utils;

verus! {

/// Number of blocks in a full epoch.
pub const MAX_EPOCH_SIZE: u64 = 8192;

/// Index of the last epoch that carries any pre-merge blocks; its block
/// count is truncated at the merge boundary.
pub const FINAL_EPOCH: u64 = 1896;

/// The first post-merge block number: the final epoch keeps only the
/// blocks below this boundary.
pub const MERGE_BLOCK: u64 = 15537394;

/// Number of blocks covered by one chunk file.
pub const BLOCKS_PER_CHUNK: u64 = 100;

} // verus!
