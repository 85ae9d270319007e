//! Chunk addressing: pure arithmetic mapping a block range to the ordered
//! list of 100-block chunk file names that cover it, together with the
//! offsets that trim the concatenated chunk contents down to exactly the
//! requested range.

use vstd::prelude::*;
use vstd::string::StringExecFns;
use crate::digits::{padded_decimal, padded_u64};
use crate::BLOCKS_PER_CHUNK;

verus! {

/// Block numbers below this bound fit the ten-digit chunk file name.
pub const MAX_NAMED_BLOCK: u64 = 10000000000;

/// The name of the chunk file whose first block is `block_number`:
/// the block number zero-padded to ten digits, the `.dbin` extension,
/// and a `.zst` suffix when the store holds compressed chunks.
pub open spec fn chunk_name_model(block_number: nat, compressed: bool) -> Seq<char> {
    padded_decimal(block_number, 10) + ".dbin"@ + (if compressed {
        ".zst"@
    } else {
        Seq::<char>::empty()
    })
}

/// Greatest multiple of 100 at or below `block`.
pub open spec fn aligned_start(block: nat) -> nat {
    (block / 100) * 100
}

/// Least multiple of 100 at or above `block`.
pub open spec fn aligned_end(block: nat) -> nat {
    ((block + 99) / 100) * 100
}

/// How many chunk files cover `[start_block, end_block)`.
pub open spec fn chunk_count(start_block: nat, end_block: nat) -> nat {
    if aligned_start(start_block) <= aligned_end(end_block) {
        ((aligned_end(end_block) - aligned_start(start_block)) / 100) as nat
    } else {
        0
    }
}

/// The chunk files covering a block range, with the trim offsets into
/// their concatenated contents.
pub struct ChunkPlan {
    /// Chunk file names, ascending by starting block.
    pub names: Vec<String>,
    /// Offset of the range's first block within the concatenated chunks.
    pub trim_start: u64,
    /// Offset one past the range's last block within the concatenated chunks.
    pub trim_end: u64,
}

/// An inverted block range was requested: `start_block > end_block`.
#[derive(Clone, Copy, Debug, PartialEq, Eq, Structural)]
pub struct InvalidRange;

/// The aligned bounds around a non-inverted range, written as explicit
/// multiples of 100.
pub proof fn lemma_aligned_bounds(start_block: nat, end_block: nat)
    requires
        start_block <= end_block,
    ensures
        aligned_start(start_block) == 100 * (start_block / 100),
        aligned_end(end_block) == 100 * ((end_block + 99) / 100),
        aligned_start(start_block) <= start_block,
        end_block <= aligned_end(end_block),
        aligned_end(end_block) <= end_block + 99,
        aligned_end(end_block) - aligned_start(start_block) == 100 * chunk_count(
            start_block,
            end_block,
        ),
{
    let sa = (start_block / 100) as int;
    let eb = ((end_block + 99) / 100) as int;
    vstd::arithmetic::div_mod::lemma_fundamental_div_mod(start_block as int, 100);
    vstd::arithmetic::div_mod::lemma_fundamental_div_mod((end_block + 99) as int, 100);
    assert(aligned_start(start_block) <= start_block);
    assert(end_block <= aligned_end(end_block));
    assert(aligned_start(start_block) <= aligned_end(end_block));
    assert(100 * eb - 100 * sa == 100 * (eb - sa));
    vstd::arithmetic::div_mod::lemma_div_multiples_vanish(eb - sa, 100);
    assert(chunk_count(start_block, end_block) == eb - sa);
}

/// Format the name of the chunk file whose first block is `block_number`.
pub fn chunk_file_name(block_number: u64, compressed: bool) -> (s: String)
    requires
        block_number < MAX_NAMED_BLOCK,
    ensures
        s@ == chunk_name_model(block_number as nat, compressed),
{
    let mut s = padded_u64(block_number);
    s.append(".dbin");
    if compressed {
        s.append(".zst");
    }
    s
}

/// The ordered chunk files covering `[start_block, end_block)` and the
/// offsets that slice their concatenation down to exactly that range.
///
/// A range with `start_block == end_block` selects no blocks (its trim
/// offsets coincide); an inverted range is an invariant violation and
/// is rejected rather than silently emptied.
pub fn chunk_files_for_range(start_block: u64, end_block: u64, compressed: bool) -> (r: Result<
    ChunkPlan,
    InvalidRange,
>)
    requires
        end_block < MAX_NAMED_BLOCK,
    ensures
        r is Ok <==> start_block <= end_block,
        r matches Ok(plan) ==> {
            &&& plan.names@.len() == chunk_count(start_block as nat, end_block as nat)
            &&& (forall|i: int|
                0 <= i < plan.names@.len() ==> plan.names@[i]@ == chunk_name_model(
                    (aligned_start(start_block as nat) + 100 * i) as nat,
                    compressed,
                ))
            &&& plan.trim_start == start_block as nat - aligned_start(start_block as nat)
            &&& plan.trim_end == end_block as nat - aligned_start(start_block as nat)
        },
{
    if start_block > end_block {
        return Err(InvalidRange);
    }
    let first: u64 = (start_block / BLOCKS_PER_CHUNK) * BLOCKS_PER_CHUNK;
    let last: u64 = ((end_block + (BLOCKS_PER_CHUNK - 1)) / BLOCKS_PER_CHUNK) * BLOCKS_PER_CHUNK;
    proof {
        lemma_aligned_bounds(start_block as nat, end_block as nat);
        assert(first == aligned_start(start_block as nat));
        assert(last == aligned_end(end_block as nat));
    }
    let count: u64 = (last - first) / BLOCKS_PER_CHUNK;
    proof {
        vstd::arithmetic::div_mod::lemma_div_multiples_vanish(
            chunk_count(start_block as nat, end_block as nat) as int,
            100,
        );
        assert(count == chunk_count(start_block as nat, end_block as nat));
    }
    let mut names: Vec<String> = Vec::new();
    let mut k: u64 = 0;
    while k < count
        invariant
            k <= count,
            first == aligned_start(start_block as nat),
            first + 100 * count == aligned_end(end_block as nat),
            aligned_end(end_block as nat) <= end_block + 99,
            end_block < MAX_NAMED_BLOCK,
            names@.len() == k,
            forall|i: int|
                0 <= i < k ==> names@[i]@ == chunk_name_model(
                    (first + 100 * i) as nat,
                    compressed,
                ),
        decreases count - k,
    {
        proof {
            assert(first + 100 * k + 100 <= first + 100 * count) by (nonlinear_arith)
                requires
                    k < count,
            ;
        }
        let block: u64 = first + 100 * k;
        names.push(chunk_file_name(block, compressed));
        k = k + 1;
    }
    Ok(ChunkPlan { names, trim_start: start_block - first, trim_end: end_block - first })
}

/// Whether block `b` lies in the `j`-th chunk of a chunk list whose
/// first chunk starts at block `first`.
pub open spec fn chunk_covers(first: nat, j: int, b: nat) -> bool {
    first + 100 * j <= b < first + 100 * j + 100
}

/// Every block of `[aligned_start, aligned_end)` lies in exactly one of
/// the returned chunks: block `b` lies in chunk `(b - aligned_start) / 100`,
/// whose blocks are `[aligned_start + 100 k, aligned_start + 100 k + 100)`.
pub proof fn lemma_chunks_cover_range(start_block: nat, end_block: nat, b: nat)
    requires
        start_block <= end_block,
        aligned_start(start_block) <= b < aligned_end(end_block),
    ensures
        ({
            let k = ((b - aligned_start(start_block)) / 100) as int;
            &&& 0 <= k < chunk_count(start_block, end_block)
            &&& chunk_covers(aligned_start(start_block), k, b)
            &&& forall|j: int|
                0 <= j < chunk_count(start_block, end_block) && j != k ==> !#[trigger] chunk_covers(
                    aligned_start(start_block),
                    j,
                    b,
                )
        }),
{
    lemma_aligned_bounds(start_block, end_block);
    let first = aligned_start(start_block);
    let n = chunk_count(start_block, end_block) as int;
    let off = (b - first) as int;
    let k = off / 100;
    vstd::arithmetic::div_mod::lemma_fundamental_div_mod(off, 100);
    assert(100 * k <= off < 100 * k + 100);
    assert(off < 100 * n);
    assert(0 <= k) by {
        vstd::arithmetic::div_mod::lemma_div_pos_is_pos(off, 100);
    };
    assert(k < n) by (nonlinear_arith)
        requires
            100 * k <= off < 100 * n,
    ;
    assert forall|j: int|
        0 <= j < chunk_count(start_block, end_block) && j != k implies !#[trigger] chunk_covers(
        first,
        j,
        b,
    ) by {
        if chunk_covers(first, j, b) {
            assert(100 * j <= off < 100 * j + 100);
            assert(j == off / 100) by (nonlinear_arith)
                requires
                    100 * j <= off < 100 * j + 100,
            ;
        }
    };
}

/// Trimming a sequence whose first element stands for block
/// `aligned_start` by the returned offsets yields exactly the blocks
/// `[start_block, end_block)`: length `end_block - start_block`, and the
/// element at position `i` stands for block `start_block + i`.
pub proof fn lemma_trim_selects_range<B>(blocks: Seq<B>, start_block: nat, end_block: nat)
    requires
        start_block <= end_block,
        blocks.len() == aligned_end(end_block) - aligned_start(start_block),
    ensures
        ({
            let trim_start = (start_block - aligned_start(start_block)) as int;
            let trim_end = (end_block - aligned_start(start_block)) as int;
            &&& 0 <= trim_start <= trim_end <= blocks.len()
            &&& blocks.subrange(trim_start, trim_end).len() == end_block - start_block
            &&& forall|i: int|
                0 <= i < end_block - start_block ==> blocks.subrange(trim_start, trim_end)[i]
                    == blocks[start_block - aligned_start(start_block) + i]
        }),
{
    lemma_aligned_bounds(start_block, end_block);
}

} // verus!
