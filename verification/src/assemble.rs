//! Epoch assembly: the fetched chunks of one epoch — however their
//! fetches completed — are reordered by starting block, concatenated,
//! trimmed to the epoch's exact block range, and truncated by the
//! terminal-epoch rule.  Blocks themselves are opaque here; only the
//! chunk arithmetic and ordering are this module's business.

use vstd::prelude::*;
use crate::chunks::{aligned_start, chunk_count};
use crate::{FINAL_EPOCH, MAX_EPOCH_SIZE, MERGE_BLOCK};

verus! {

/// Largest epoch index whose blocks still carry ten-digit chunk names.
pub const MAX_ADDRESSABLE_EPOCH: u64 = 1220702;

/// The decoded contents of one fetched chunk file: the block number its
/// name carries, and the blocks it decodes to.
#[derive(Clone, Debug)]
pub struct FetchedChunk<B> {
    /// First block number the chunk file is named after.
    pub start_block: u64,
    /// The decoded blocks, in stored order.
    pub blocks: Vec<B>,
}

/// Why an epoch could not be assembled from its fetched chunks.
#[derive(Clone, Copy, Debug, PartialEq, Eq, Structural)]
pub enum AssembleError {
    /// The chunks do not cover the epoch exactly once each: one is
    /// missing, duplicated, or not a chunk of this epoch.
    WrongChunks,
    /// The chunks cover the epoch but hold too few blocks to reach the
    /// end of its range.
    ShortChunks,
}

/// First block of the epoch.
pub open spec fn epoch_start_model(epoch: nat) -> nat {
    epoch * (MAX_EPOCH_SIZE as nat)
}

/// One past the last block the epoch's chunks are addressed for.
pub open spec fn epoch_end_model(epoch: nat) -> nat {
    epoch_start_model(epoch) + (MAX_EPOCH_SIZE as nat)
}

/// How many blocks the epoch validly holds: a full 8192 below the final
/// epoch, and only the blocks before the merge boundary from the final
/// epoch on.
pub open spec fn epoch_capacity(epoch: nat) -> nat {
    if epoch < FINAL_EPOCH {
        MAX_EPOCH_SIZE as nat
    } else if epoch_start_model(epoch) < MERGE_BLOCK {
        (MERGE_BLOCK - epoch_start_model(epoch)) as nat
    } else {
        0
    }
}

/// How many blocks assembly keeps: the epoch's capacity, never more
/// than the 8192 blocks its chunks are trimmed to.
pub open spec fn kept_len(epoch: nat) -> nat {
    if epoch_capacity(epoch) < MAX_EPOCH_SIZE as nat {
        epoch_capacity(epoch)
    } else {
        MAX_EPOCH_SIZE as nat
    }
}

/// How many chunk files cover the epoch.
pub open spec fn epoch_chunk_count(epoch: nat) -> nat {
    chunk_count(epoch_start_model(epoch), epoch_end_model(epoch))
}

/// The starting block of the `k`-th chunk covering the epoch.
pub open spec fn expected_start(epoch: nat, k: int) -> int {
    aligned_start(epoch_start_model(epoch)) + 100 * k
}

/// Offset of the epoch's first block within its concatenated chunks.
pub open spec fn epoch_trim_start(epoch: nat) -> nat {
    (epoch_start_model(epoch) - aligned_start(epoch_start_model(epoch))) as nat
}

/// Offset one past the epoch's last addressed block within its
/// concatenated chunks.
pub open spec fn epoch_trim_end(epoch: nat) -> nat {
    epoch_trim_start(epoch) + (MAX_EPOCH_SIZE as nat)
}

/// Whether some fetched chunk carries the starting block `key`.
pub open spec fn has_chunk<B>(chunks: Seq<FetchedChunk<B>>, key: int) -> bool {
    exists|i: int| 0 <= i < chunks.len() && chunks[i].start_block as int == key
}

/// The blocks of the fetched chunk carrying starting block `key`; when
/// several carry it, any one of them (assembly rejects that case).
pub open spec fn chunk_blocks_at<B>(chunks: Seq<FetchedChunk<B>>, key: int) -> Seq<B> {
    if has_chunk(chunks, key) {
        let i = choose|i: int| 0 <= i < chunks.len() && chunks[i].start_block as int == key;
        chunks[i].blocks@
    } else {
        Seq::empty()
    }
}

/// The concatenation of the blocks of the first `j` expected chunks, in
/// ascending order of starting block.
pub open spec fn gathered_prefix<B>(chunks: Seq<FetchedChunk<B>>, epoch: nat, j: nat) -> Seq<B>
    decreases j,
{
    if j == 0 {
        Seq::empty()
    } else {
        gathered_prefix(chunks, epoch, (j - 1) as nat) + chunk_blocks_at(
            chunks,
            expected_start(epoch, j - 1),
        )
    }
}

/// All blocks of the epoch's chunks, reassembled in ascending chunk
/// order regardless of the order the fetches completed in.
pub open spec fn gathered<B>(chunks: Seq<FetchedChunk<B>>, epoch: nat) -> Seq<B> {
    gathered_prefix(chunks, epoch, epoch_chunk_count(epoch))
}

/// Whether a fetched chunk belongs to the epoch: its starting block is
/// one of the epoch's chunk boundaries.
pub open spec fn chunk_key_ok<B>(epoch: nat, c: FetchedChunk<B>) -> bool {
    let first = aligned_start(epoch_start_model(epoch)) as int;
    &&& first <= c.start_block as int
    &&& (c.start_block as int) < first + 100 * epoch_chunk_count(epoch)
    &&& (c.start_block as int - first) % 100 == 0
}

/// No two fetched chunks carry the same starting block.
pub open spec fn distinct_starts<B>(chunks: Seq<FetchedChunk<B>>) -> bool {
    forall|i: int, j: int|
        0 <= i < j < chunks.len() ==> chunks[i].start_block != chunks[j].start_block
}

/// The fetched chunks cover the epoch exactly: each belongs to the
/// epoch, none is duplicated, and every covering chunk is there.
pub open spec fn chunks_complete<B>(chunks: Seq<FetchedChunk<B>>, epoch: nat) -> bool {
    &&& forall|i: int| 0 <= i < chunks.len() ==> chunk_key_ok(epoch, #[trigger] chunks[i])
    &&& distinct_starts(chunks)
    &&& forall|k: int|
        0 <= k < epoch_chunk_count(epoch) ==> has_chunk(chunks, #[trigger] expected_start(epoch, k))
}

/// Whether the fetched chunks assemble into the epoch's blocks: they
/// cover the epoch exactly and reach past its trim range.
pub open spec fn can_assemble<B>(chunks: Seq<FetchedChunk<B>>, epoch: nat) -> bool {
    &&& chunks_complete(chunks, epoch)
    &&& gathered(chunks, epoch).len() >= epoch_trim_end(epoch)
}

/// The epoch's assembled blocks: the reassembled chunks, trimmed to the
/// epoch's range and truncated to its capacity.
pub open spec fn assembled_model<B>(chunks: Seq<FetchedChunk<B>>, epoch: nat) -> Seq<B> {
    gathered(chunks, epoch).subrange(
        epoch_trim_start(epoch) as int,
        epoch_trim_start(epoch) + kept_len(epoch) as int,
    )
}

/// With every covering chunk holding its full 100 blocks, reassembly
/// lays the chunks out contiguously: position `p` of the reassembled
/// sequence holds block `p % 100` of the chunk at ascending index
/// `p / 100` — together with the trim offsets, position `i` of the
/// trimmed sequence stands for block `start_block + i`.
pub proof fn lemma_gathered_positions<B>(chunks: Seq<FetchedChunk<B>>, epoch: nat, j: nat)
    requires
        forall|k: int|
            0 <= k < j ==> chunk_blocks_at(chunks, #[trigger] expected_start(epoch, k)).len()
                == 100,
    ensures
        gathered_prefix(chunks, epoch, j).len() == 100 * j,
        forall|p: int|
            0 <= p < 100 * j ==> gathered_prefix(chunks, epoch, j)[p] == chunk_blocks_at(
                chunks,
                expected_start(epoch, p / 100),
            )[p % 100],
    decreases j,
{
    if j > 0 {
        lemma_gathered_positions(chunks, epoch, (j - 1) as nat);
        let left = gathered_prefix(chunks, epoch, (j - 1) as nat);
        let blk = chunk_blocks_at(chunks, expected_start(epoch, j - 1));
        assert(blk.len() == 100);
        assert forall|p: int|
            0 <= p < 100 * j implies gathered_prefix(chunks, epoch, j)[p] == chunk_blocks_at(
            chunks,
            expected_start(epoch, p / 100),
        )[p % 100] by {
            if p < 100 * (j - 1) {
                assert(gathered_prefix(chunks, epoch, j)[p] == left[p]);
            } else {
                assert(gathered_prefix(chunks, epoch, j)[p] == blk[p - 100 * (j - 1)]);
                assert(p / 100 == j - 1 && p % 100 == p - 100 * (j - 1)) by {
                    vstd::arithmetic::div_mod::lemma_fundamental_div_mod(p, 100);
                    assert(p == 100 * (j - 1) + (p - 100 * (j - 1)));
                    vstd::arithmetic::div_mod::lemma_fundamental_div_mod_converse(
                        p,
                        100,
                        j - 1,
                        p - 100 * (j - 1),
                    );
                };
            }
        };
    }
}

/// Terminal epoch truncation: every epoch below the final one keeps a
/// full 8192 blocks; the final epoch keeps only the 5362 blocks that
/// precede the merge boundary; no later epoch keeps any block.
pub proof fn lemma_terminal_epoch_truncation(epoch: nat)
    ensures
        epoch < FINAL_EPOCH ==> kept_len(epoch) == MAX_EPOCH_SIZE,
        epoch == FINAL_EPOCH ==> kept_len(epoch) == MERGE_BLOCK - FINAL_EPOCH * MAX_EPOCH_SIZE,
        epoch > FINAL_EPOCH ==> kept_len(epoch) == 0,
{
    if epoch == FINAL_EPOCH {
        assert(epoch_start_model(epoch) == 1896 * 8192);
    }
    if epoch > FINAL_EPOCH {
        assert(epoch_start_model(epoch) >= 1897 * 8192) by (nonlinear_arith)
            requires
                epoch >= 1897,
                epoch_start_model(epoch) == epoch * 8192,
        ;
    }
}

/// A value whose multiset count is at least two sits at two indices.
proof fn lemma_count_two_indices<B>(s: Seq<FetchedChunk<B>>, x: FetchedChunk<B>)
    requires
        s.to_multiset().count(x) >= 2,
    ensures
        exists|i: int, j: int| 0 <= i < j < s.len() && s[i] == x && s[j] == x,
{
    broadcast use vstd::seq_lib::group_to_multiset_ensures;
    broadcast use vstd::multiset::group_multiset_axioms;

    assert(s.contains(x));
    let i = choose|i: int| 0 <= i < s.len() && s[i] == x;
    let removed = s.remove(i);
    assert(removed.to_multiset() =~= s.to_multiset().remove(x));
    assert(removed.to_multiset().count(x) >= 1);
    assert(removed.contains(x));
    let p = choose|p: int| 0 <= p < removed.len() && removed[p] == x;
    if p < i {
        assert(s[p] == x && s[i] == x && p < i);
    } else {
        assert(s[p + 1] == x && s[i] == x && i < p + 1);
    }
}

/// Covering the epoch exactly is a property of the multiset of fetched
/// chunks alone: any reordering of the same fetches covers it too.
pub proof fn lemma_complete_transfer<B>(
    c1: Seq<FetchedChunk<B>>,
    c2: Seq<FetchedChunk<B>>,
    epoch: nat,
)
    requires
        c1.to_multiset() == c2.to_multiset(),
        chunks_complete(c1, epoch),
    ensures
        chunks_complete(c2, epoch),
{
    broadcast use vstd::seq_lib::group_to_multiset_ensures;
    broadcast use vstd::multiset::group_multiset_axioms;

    assert forall|i: int| 0 <= i < c2.len() implies chunk_key_ok(epoch, #[trigger] c2[i]) by {
        let x = c2[i];
        assert(c2.contains(x));
        assert(c2.to_multiset().count(x) > 0);
        assert(c1.to_multiset().count(x) > 0);
        assert(c1.contains(x));
        let j = choose|j: int| 0 <= j < c1.len() && c1[j] == x;
        assert(chunk_key_ok(epoch, c1[j]));
    };
    assert forall|i: int, j: int|
        0 <= i < j < c2.len() implies c2[i].start_block != c2[j].start_block by {
        if c2[i].start_block == c2[j].start_block {
            let x = c2[i];
            let y = c2[j];
            if x == y {
                let removed = c2.remove(j);
                assert(removed.to_multiset() =~= c2.to_multiset().remove(y));
                assert(removed[i] == x);
                assert(removed.contains(x));
                assert(removed.to_multiset().count(x) >= 1);
                assert(c2.to_multiset().count(x) >= 2);
                assert(c1.to_multiset().count(x) >= 2);
                lemma_count_two_indices(c1, x);
                let (p, q) = choose|p: int, q: int|
                    0 <= p < q < c1.len() && c1[p] == x && c1[q] == x;
                assert(c1[p].start_block != c1[q].start_block);
                assert(false);
            } else {
                assert(c2.contains(x));
                assert(c2.contains(y));
                assert(c2.to_multiset().count(x) > 0);
                assert(c2.to_multiset().count(y) > 0);
                assert(c1.to_multiset().count(x) > 0);
                assert(c1.to_multiset().count(y) > 0);
                assert(c1.contains(x));
                assert(c1.contains(y));
                let p = choose|p: int| 0 <= p < c1.len() && c1[p] == x;
                let q = choose|q: int| 0 <= q < c1.len() && c1[q] == y;
                assert(p != q);
                if p < q {
                    assert(c1[p].start_block != c1[q].start_block);
                } else {
                    assert(c1[q].start_block != c1[p].start_block);
                }
                assert(false);
            }
        }
    };
    assert forall|k: int|
        0 <= k < epoch_chunk_count(epoch) implies has_chunk(
        c2,
        #[trigger] expected_start(epoch, k),
    ) by {
        assert(has_chunk(c1, expected_start(epoch, k)));
        let i = choose|i: int|
            0 <= i < c1.len() && c1[i].start_block as int == expected_start(epoch, k);
        let x = c1[i];
        assert(c1.contains(x));
        assert(c1.to_multiset().count(x) > 0);
        assert(c2.to_multiset().count(x) > 0);
        assert(c2.contains(x));
        let j = choose|j: int| 0 <= j < c2.len() && c2[j] == x;
        assert(c2[j].start_block as int == expected_start(epoch, k));
    };
}

/// When neither fetch set duplicates a chunk, the chunk found for a
/// starting block is the same whichever order the fetches stand in.
proof fn lemma_blocks_at_transfer<B>(
    c1: Seq<FetchedChunk<B>>,
    c2: Seq<FetchedChunk<B>>,
    key: int,
)
    requires
        c1.to_multiset() == c2.to_multiset(),
        distinct_starts(c1),
        distinct_starts(c2),
    ensures
        chunk_blocks_at(c1, key) == chunk_blocks_at(c2, key),
{
    broadcast use vstd::seq_lib::group_to_multiset_ensures;
    broadcast use vstd::multiset::group_multiset_axioms;

    if has_chunk(c1, key) {
        let i1 = choose|i: int| 0 <= i < c1.len() && c1[i].start_block as int == key;
        let x = c1[i1];
        assert(c1.contains(x));
        assert(c1.to_multiset().count(x) > 0);
        assert(c2.to_multiset().count(x) > 0);
        assert(c2.contains(x));
        let j = choose|j: int| 0 <= j < c2.len() && c2[j] == x;
        assert(has_chunk(c2, key));
        let i2 = choose|i: int| 0 <= i < c2.len() && c2[i].start_block as int == key;
        if i2 != j {
            if i2 < j {
                assert(c2[i2].start_block != c2[j].start_block);
            } else {
                assert(c2[j].start_block != c2[i2].start_block);
            }
            assert(false);
        }
        assert(chunk_blocks_at(c2, key) == x.blocks@);
        assert(chunk_blocks_at(c1, key) == x.blocks@) by {
            let i0 = choose|i: int| 0 <= i < c1.len() && c1[i].start_block as int == key;
            if i0 != i1 {
                if i0 < i1 {
                    assert(c1[i0].start_block != c1[i1].start_block);
                } else {
                    assert(c1[i1].start_block != c1[i0].start_block);
                }
                assert(false);
            }
        };
    } else {
        if has_chunk(c2, key) {
            let i2 = choose|i: int| 0 <= i < c2.len() && c2[i].start_block as int == key;
            let x = c2[i2];
            assert(c2.contains(x));
            assert(c2.to_multiset().count(x) > 0);
            assert(c1.to_multiset().count(x) > 0);
            assert(c1.contains(x));
            let j = choose|j: int| 0 <= j < c1.len() && c1[j] == x;
            assert(c1[j].start_block as int == key);
            assert(false);
        }
    }
}

/// The reassembled blocks of a prefix of the expected chunks do not
/// depend on the order the fetches stand in.
proof fn lemma_gathered_prefix_transfer<B>(
    c1: Seq<FetchedChunk<B>>,
    c2: Seq<FetchedChunk<B>>,
    epoch: nat,
    j: nat,
)
    requires
        c1.to_multiset() == c2.to_multiset(),
        distinct_starts(c1),
        distinct_starts(c2),
    ensures
        gathered_prefix(c1, epoch, j) == gathered_prefix(c2, epoch, j),
    decreases j,
{
    if j > 0 {
        lemma_gathered_prefix_transfer(c1, c2, epoch, (j - 1) as nat);
        lemma_blocks_at_transfer(c1, c2, expected_start(epoch, j - 1));
    }
}

/// Order independence of fetch completion: two fetch sets holding the
/// same chunks — however ordered — assemble identically: either both
/// fail the same way, or both yield the very same block sequence.
pub proof fn lemma_assemble_order_independent<B>(
    c1: Seq<FetchedChunk<B>>,
    c2: Seq<FetchedChunk<B>>,
    epoch: nat,
)
    requires
        c1.to_multiset() == c2.to_multiset(),
    ensures
        chunks_complete(c1, epoch) == chunks_complete(c2, epoch),
        can_assemble(c1, epoch) == can_assemble(c2, epoch),
        can_assemble(c1, epoch) ==> assembled_model(c1, epoch) == assembled_model(c2, epoch),
{
    if chunks_complete(c1, epoch) {
        lemma_complete_transfer(c1, c2, epoch);
    }
    if chunks_complete(c2, epoch) {
        lemma_complete_transfer(c2, c1, epoch);
    }
    if chunks_complete(c1, epoch) && chunks_complete(c2, epoch) {
        lemma_gathered_prefix_transfer(c1, c2, epoch, epoch_chunk_count(epoch));
    }
}

/// The epoch's block range `[start, end)`.
pub fn epoch_block_range(epoch: u64) -> (r: (u64, u64))
    requires
        epoch <= MAX_ADDRESSABLE_EPOCH,
    ensures
        r.0 == epoch_start_model(epoch as nat),
        r.1 == epoch_end_model(epoch as nat),
        r.1 <= 9999998976,
{
    proof {
        assert(epoch * 8192 + 8192 <= 1220702 * 8192 + 8192) by (nonlinear_arith)
            requires
                epoch <= 1220702,
        ;
    }
    let start = epoch * MAX_EPOCH_SIZE;
    let end = start + MAX_EPOCH_SIZE;
    (start, end)
}

/// How many blocks the epoch validly holds.
pub fn epoch_capacity_of(epoch: u64) -> (r: u64)
    requires
        epoch <= MAX_ADDRESSABLE_EPOCH,
    ensures
        r == epoch_capacity(epoch as nat),
        r <= MAX_EPOCH_SIZE,
{
    let (start, _end) = epoch_block_range(epoch);
    if epoch < FINAL_EPOCH {
        MAX_EPOCH_SIZE
    } else if start < MERGE_BLOCK {
        proof {
            assert(epoch * 8192 >= 1896 * 8192) by (nonlinear_arith)
                requires
                    epoch >= 1896,
            ;
        }
        MERGE_BLOCK - start
    } else {
        0
    }
}

/// Assemble one epoch from its fetched chunks.
///
/// The chunks may arrive in any order — fetch completion order never
/// leaks into block order.  They must cover the epoch exactly once
/// each and hold enough blocks to reach the end of its range; the
/// result is the epoch's blocks in ascending block order, truncated to
/// the epoch's capacity by the terminal-epoch rule.
pub fn assemble_epoch<B>(epoch: u64, chunks: Vec<FetchedChunk<B>>) -> (r: Result<
    Vec<B>,
    AssembleError,
>)
    requires
        epoch <= MAX_ADDRESSABLE_EPOCH,
    ensures
        r is Ok <==> can_assemble(chunks@, epoch as nat),
        r == Err::<Vec<B>, AssembleError>(AssembleError::WrongChunks) <==> !chunks_complete(
            chunks@,
            epoch as nat,
        ),
        r == Err::<Vec<B>, AssembleError>(AssembleError::ShortChunks) <==> chunks_complete(
            chunks@,
            epoch as nat,
        ) && gathered(chunks@, epoch as nat).len() < epoch_trim_end(epoch as nat),
        r matches Ok(v) ==> v@ == assembled_model(chunks@, epoch as nat),
        r matches Ok(v) ==> v@.len() == kept_len(epoch as nat),
{
    let ghost orig = chunks@;
    let ghost ge = epoch as nat;
    let (start_block, end_block) = epoch_block_range(epoch);
    let first: u64 = (start_block / crate::BLOCKS_PER_CHUNK) * crate::BLOCKS_PER_CHUNK;
    let last: u64 = ((end_block + (crate::BLOCKS_PER_CHUNK - 1)) / crate::BLOCKS_PER_CHUNK)
        * crate::BLOCKS_PER_CHUNK;
    proof {
        crate::chunks::lemma_aligned_bounds(start_block as nat, end_block as nat);
        assert(first == aligned_start(epoch_start_model(ge)));
        assert(last - first == 100 * epoch_chunk_count(ge));
    }
    let count: u64 = (last - first) / crate::BLOCKS_PER_CHUNK;
    proof {
        vstd::arithmetic::div_mod::lemma_div_multiples_vanish(epoch_chunk_count(ge) as int, 100);
        assert(count == epoch_chunk_count(ge));
    }
    let n: usize = count as usize;

    let mut slots: Vec<Option<Vec<B>>> = Vec::new();
    let mut t: usize = 0;
    while t < n
        invariant
            t <= n,
            slots@.len() == t,
            forall|q: int| 0 <= q < t ==> slots@[q] is None,
        decreases n - t,
    {
        slots.push(None);
        t = t + 1;
    }

    let mut rest = chunks;
    proof {
        assert(orig.subrange(0, orig.len() as int) =~= orig);
    }
    while rest.len() > 0
        invariant
            epoch <= MAX_ADDRESSABLE_EPOCH,
            ge == epoch as nat,
            orig == chunks@,
            first == aligned_start(epoch_start_model(ge)),
            count == epoch_chunk_count(ge),
            n == count,
            slots@.len() == n,
            rest@.len() <= orig.len(),
            rest@ == orig.subrange(0, rest@.len() as int),
            forall|i: int|
                rest@.len() <= i < orig.len() ==> chunk_key_ok(ge, #[trigger] orig[i]),
            forall|i: int, j: int|
                rest@.len() <= i < j < orig.len() ==> orig[i].start_block != orig[j].start_block,
            forall|k: int|
                0 <= k < n ==> ((slots@[k] is Some) <==> exists|i: int|
                    rest@.len() <= i < orig.len() && orig[i].start_block as int
                        == expected_start(ge, k)),
            forall|k: int, i: int|
                0 <= k < n && rest@.len() <= i < orig.len() && orig[i].start_block as int
                    == expected_start(ge, k) ==> slots@[k] == Some(orig[i].blocks),
        decreases rest@.len(),
    {
        let ghost pos = rest@.len() - 1;
        let c = rest.pop().unwrap();
        proof {
            assert(c == orig[pos]);
            assert(rest@ =~= orig.subrange(0, pos));
        }
        if c.start_block < first {
            proof {
                assert(!chunk_key_ok(ge, orig[pos]));
                assert(!chunks_complete(orig, ge));
            }
            return Err(AssembleError::WrongChunks);
        }
        let off: u64 = c.start_block - first;
        if off % 100 != 0 {
            proof {
                assert(!chunk_key_ok(ge, orig[pos]));
                assert(!chunks_complete(orig, ge));
            }
            return Err(AssembleError::WrongChunks);
        }
        let k64: u64 = off / 100;
        proof {
            vstd::arithmetic::div_mod::lemma_fundamental_div_mod(off as int, 100);
            assert(c.start_block as int == first + 100 * (k64 as int));
        }
        if k64 >= count {
            proof {
                assert((c.start_block as int) >= first + 100 * (count as int)) by (nonlinear_arith)
                    requires
                        c.start_block as int == first + 100 * (k64 as int),
                        k64 >= count,
                ;
                assert(!chunk_key_ok(ge, orig[pos]));
                assert(!chunks_complete(orig, ge));
            }
            return Err(AssembleError::WrongChunks);
        }
        let k = k64 as usize;
        proof {
            assert(100 * (k64 as int) < 100 * (count as int)) by (nonlinear_arith)
                requires
                    k64 < count,
            ;
            assert(chunk_key_ok(ge, orig[pos]));
            assert(c.start_block as int == expected_start(ge, k as int));
        }
        let ghost slots_before = slots@;
        let prev = slots.remove(k);
        if prev.is_some() {
            proof {
                let i = choose|i: int|
                    rest@.len() + 1 <= i < orig.len() && orig[i].start_block as int
                        == expected_start(ge, k as int);
                assert(orig[i].start_block == orig[pos].start_block);
                assert(!distinct_starts(orig));
                assert(!chunks_complete(orig, ge));
            }
            return Err(AssembleError::WrongChunks);
        }
        slots.insert(k, Some(c.blocks));
        proof {
            assert(slots@ =~= slots_before.update(k as int, Some(orig[pos].blocks)));
        }
    }

    proof {
        assert(rest@.len() == 0);
        assert(forall|i: int| 0 <= i < orig.len() ==> chunk_key_ok(ge, #[trigger] orig[i]));
        assert(distinct_starts(orig));
    }

    let ghost full_slots = slots@;
    let mut out: Vec<B> = Vec::new();
    let mut k: usize = 0;
    while k < n
        invariant
            ge == epoch as nat,
            orig == chunks@,
            count == epoch_chunk_count(ge),
            n == count,
            k <= n,
            full_slots.len() == n,
            slots@ == full_slots.subrange(k as int, n as int),
            out@ == gathered_prefix(orig, ge, k as nat),
            forall|q: int|
                0 <= q < n ==> ((full_slots[q] is Some) <==> has_chunk(
                    orig,
                    #[trigger] expected_start(ge, q),
                )),
            forall|q: int, i: int|
                0 <= q < n && 0 <= i < orig.len() && orig[i].start_block as int == expected_start(
                    ge,
                    q,
                ) ==> full_slots[q] == Some(orig[i].blocks),
            forall|i: int| 0 <= i < orig.len() ==> chunk_key_ok(ge, #[trigger] orig[i]),
            distinct_starts(orig),
            forall|q: int| 0 <= q < k ==> full_slots[q] is Some,
        decreases n - k,
    {
        proof {
            assert(slots@[0] == full_slots[k as int]);
        }
        let s = slots.remove(0);
        proof {
            assert(slots@ =~= full_slots.subrange(k + 1, n as int));
        }
        match s {
            None => {
                proof {
                    assert(!has_chunk(orig, expected_start(ge, k as int)));
                    assert(!chunks_complete(orig, ge));
                }
                return Err(AssembleError::WrongChunks);
            },
            Some(mut b) => {
                proof {
                    let key = expected_start(ge, k as int);
                    assert(has_chunk(orig, key));
                    let i = choose|i: int|
                        0 <= i < orig.len() && orig[i].start_block as int == key;
                    assert(full_slots[k as int] == Some(orig[i].blocks));
                    assert(b@ == chunk_blocks_at(orig, key));
                }
                out.append(&mut b);
                proof {
                    assert(out@ =~= gathered_prefix(orig, ge, (k + 1) as nat));
                }
            },
        }
        k = k + 1;
    }

    proof {
        assert(chunks_complete(orig, ge));
        assert(out@ == gathered(orig, ge));
    }

    let trim_start: u64 = start_block - first;
    let trim_end: u64 = trim_start + MAX_EPOCH_SIZE;
    proof {
        vstd::arithmetic::div_mod::lemma_fundamental_div_mod(start_block as int, 100);
        assert(trim_start < 100);
        assert(trim_start == epoch_trim_start(ge));
        assert(trim_end == epoch_trim_end(ge));
    }
    if (out.len() as u64) < trim_end {
        return Err(AssembleError::ShortChunks);
    }
    let ghost whole = out@;
    out.truncate(trim_end as usize);
    let mut t2: u64 = 0;
    while t2 < trim_start
        invariant
            t2 <= trim_start,
            trim_start < 100,
            trim_end == trim_start + MAX_EPOCH_SIZE,
            whole.len() >= trim_end,
            out@ == whole.subrange(t2 as int, trim_end as int),
        decreases trim_start - t2,
    {
        out.remove(0);
        proof {
            assert(out@ =~= whole.subrange(t2 + 1, trim_end as int));
        }
        t2 = t2 + 1;
    }
    proof {
        assert(out@ == whole.subrange(epoch_trim_start(ge) as int, epoch_trim_end(ge) as int));
    }
    let cap = epoch_capacity_of(epoch);
    let kept: u64 = if cap < MAX_EPOCH_SIZE {
        cap
    } else {
        MAX_EPOCH_SIZE
    };
    out.truncate(kept as usize);
    proof {
        assert(kept == kept_len(ge));
        assert(out@ =~= whole.subrange(
            epoch_trim_start(ge) as int,
            epoch_trim_start(ge) + kept_len(ge) as int,
        ));
        assert(out@ == assembled_model(orig, ge));
    }
    Ok(out)
}

} // verus!
