use flat_head::chunks::{chunk_file_name, chunk_files_for_range};
use flat_head::digits::{padded_u64, plain_u16};
use flat_head::utils::gen_dbin_filenames;

#[test]
fn padded_block_numbers() {
    assert_eq!(padded_u64(0), "0000000000");
    assert_eq!(padded_u64(100), "0000000100");
    assert_eq!(padded_u64(15537394), "0015537394");
    assert_eq!(padded_u64(9999999999), "9999999999");
}

#[test]
fn plain_port_numbers() {
    assert_eq!(plain_u16(0), "0");
    assert_eq!(plain_u16(7), "7");
    assert_eq!(plain_u16(80), "80");
    assert_eq!(plain_u16(65535), "65535");
}

#[test]
fn chunk_names_plain_and_compressed() {
    assert_eq!(chunk_file_name(0, false), "0000000000.dbin");
    assert_eq!(chunk_file_name(0, true), "0000000000.dbin.zst");
    assert_eq!(chunk_file_name(8100, false), "0000008100.dbin");
    assert_eq!(chunk_file_name(15537300, true), "0015537300.dbin.zst");
}

#[test]
fn range_covering_one_epoch() {
    let plan = chunk_files_for_range(0, 8192, false).unwrap();
    assert_eq!(plan.names.len(), 82);
    assert_eq!(plan.names[0], "0000000000.dbin");
    assert_eq!(plan.names[81], "0000008100.dbin");
    assert_eq!(plan.trim_start, 0);
    assert_eq!(plan.trim_end, 8192);
}

#[test]
fn range_with_unaligned_start() {
    let plan = chunk_files_for_range(8192, 16384, false).unwrap();
    assert_eq!(plan.names.len(), 83);
    assert_eq!(plan.names[0], "0000008100.dbin");
    assert_eq!(plan.names[82], "0000016300.dbin");
    assert_eq!(plan.trim_start, 92);
    assert_eq!(plan.trim_end, 8284);
}

#[test]
fn empty_range_yields_no_chunks() {
    let plan = chunk_files_for_range(250, 250, false).unwrap();
    assert_eq!(plan.names.len(), 1);
    assert_eq!(plan.trim_start, 50);
    assert_eq!(plan.trim_end, 50);
    let aligned = chunk_files_for_range(300, 300, false).unwrap();
    assert_eq!(aligned.names.len(), 0);
    assert_eq!(aligned.trim_start, 0);
    assert_eq!(aligned.trim_end, 0);
}

#[test]
fn inverted_range_is_rejected() {
    assert!(chunk_files_for_range(200, 100, false).is_err());
}

#[test]
fn covered_blocks_match_trimmed_range() {
    // The chunks of [150, 420) cover [100, 500); trimming selects
    // exactly 270 blocks starting at offset 50.
    let plan = chunk_files_for_range(150, 420, true).unwrap();
    assert_eq!(plan.names.len(), 4);
    assert_eq!(plan.names[0], "0000000100.dbin.zst");
    assert_eq!(plan.names[3], "0000000400.dbin.zst");
    assert_eq!(plan.trim_start, 50);
    assert_eq!(plan.trim_end, 320);
    assert_eq!(plan.trim_end - plan.trim_start, 270);
}

#[test]
fn dbin_filenames_cover_the_first_epoch() {
    // Blocks [0, 8192) are covered by the 82 aligned chunks 0..8200.
    let names = gen_dbin_filenames(0, 1, Some(false));
    assert_eq!(names.len(), 82);
    assert_eq!(names[0], "0000000000.dbin");
    assert_eq!(names[81], "0000008100.dbin");
}

#[test]
fn dbin_filenames_align_an_unaligned_start() {
    // Blocks [8192, 16384) are covered by the 83 aligned chunks
    // 8100..16400; every name is a multiple of 100.
    let names = gen_dbin_filenames(1, 2, Some(true));
    assert_eq!(names.len(), 83);
    assert_eq!(names[0], "0000008100.dbin.zst");
    assert_eq!(names[1], "0000008200.dbin.zst");
    assert_eq!(names[82], "0000016300.dbin.zst");
}
