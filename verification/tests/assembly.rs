use flat_head::assemble::{assemble_epoch, epoch_block_range, epoch_capacity_of, AssembleError,
    FetchedChunk};
use flat_head::{FINAL_EPOCH, MAX_EPOCH_SIZE};

// Chunks of 100 consecutive block numbers covering one epoch, in
// ascending order; each "block" is its block number.
fn chunks_for_epoch(epoch: u64) -> Vec<FetchedChunk<u64>> {
    let (start, end) = epoch_block_range(epoch);
    let first = (start / 100) * 100;
    let last = ((end + 99) / 100) * 100;
    let mut chunks = Vec::new();
    let mut s = first;
    while s < last {
        let mut blocks = Vec::new();
        let mut b = s;
        while b < s + 100 {
            blocks.push(b);
            b += 1;
        }
        chunks.push(FetchedChunk { start_block: s, blocks });
        s += 100;
    }
    chunks
}

#[test]
fn epoch_zero_assembles_exactly() {
    let blocks = assemble_epoch(0, chunks_for_epoch(0)).unwrap();
    assert_eq!(blocks.len(), 8192);
    assert_eq!(blocks[0], 0);
    assert_eq!(blocks[8191], 8191);
}

#[test]
fn unaligned_epoch_trims_to_its_range() {
    let blocks = assemble_epoch(1, chunks_for_epoch(1)).unwrap();
    assert_eq!(blocks.len(), 8192);
    assert_eq!(blocks[0], 8192);
    assert_eq!(blocks[8191], 16383);
}

#[test]
fn epoch_before_final_keeps_8192_blocks() {
    let epoch = FINAL_EPOCH - 1;
    let blocks = assemble_epoch(epoch, chunks_for_epoch(epoch)).unwrap();
    assert_eq!(blocks.len(), MAX_EPOCH_SIZE as usize);
    assert_eq!(blocks[0], epoch * MAX_EPOCH_SIZE);
}

#[test]
fn final_epoch_truncates_at_merge_boundary() {
    let blocks = assemble_epoch(FINAL_EPOCH, chunks_for_epoch(FINAL_EPOCH)).unwrap();
    // 15537394 - 1896 * 8192 = 5362 pre-merge blocks remain.
    assert_eq!(blocks.len(), 5362);
    assert_eq!(blocks[0], FINAL_EPOCH * MAX_EPOCH_SIZE);
    assert_eq!(blocks[5361], 15537393);
    assert_eq!(epoch_capacity_of(FINAL_EPOCH), 5362);
    assert_eq!(epoch_capacity_of(FINAL_EPOCH - 1), 8192);
}

#[test]
fn completion_order_never_changes_the_blocks() {
    let in_order = assemble_epoch(2, chunks_for_epoch(2)).unwrap();
    let mut shuffled = chunks_for_epoch(2);
    shuffled.reverse();
    let mid = shuffled.remove(40);
    shuffled.push(mid);
    let out_of_order = assemble_epoch(2, shuffled).unwrap();
    assert_eq!(in_order, out_of_order);
}

#[test]
fn missing_chunk_fails_assembly() {
    let mut chunks = chunks_for_epoch(0);
    chunks.remove(10);
    assert!(matches!(assemble_epoch(0, chunks), Err(AssembleError::WrongChunks)));
}

#[test]
fn duplicated_chunk_fails_assembly() {
    let mut chunks = chunks_for_epoch(0);
    let dup = FetchedChunk { start_block: chunks[3].start_block, blocks: chunks[3].blocks.clone() };
    chunks.remove(70);
    chunks.push(dup);
    assert!(matches!(assemble_epoch(0, chunks), Err(AssembleError::WrongChunks)));
}

#[test]
fn foreign_chunk_fails_assembly() {
    let mut chunks = chunks_for_epoch(0);
    let stray = chunks.pop().unwrap();
    chunks.push(FetchedChunk { start_block: 999900, blocks: stray.blocks });
    assert!(matches!(assemble_epoch(0, chunks), Err(AssembleError::WrongChunks)));
}

#[test]
fn short_chunks_fail_assembly() {
    let mut chunks = chunks_for_epoch(0);
    let last = chunks.len() - 1;
    chunks[last].blocks.truncate(10);
    assert!(matches!(assemble_epoch(0, chunks), Err(AssembleError::ShortChunks)));
}

#[test]
fn surplus_blocks_are_cut_to_the_range() {
    // A final chunk holding more blocks than its 100 does not leak past
    // the epoch's range.
    let mut chunks = chunks_for_epoch(0);
    let last = chunks.len() - 1;
    let mut extra = chunks[last].blocks.clone();
    extra.push(99999);
    chunks[last].blocks = extra;
    let blocks = assemble_epoch(0, chunks).unwrap();
    assert_eq!(blocks.len(), 8192);
    assert_eq!(blocks[8191], 8191);
}
