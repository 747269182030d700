use modernfs_core::layout::{calculate_layout, parse_size, FsLayout};
use modernfs_core::FsError;

#[test]
fn sizes_with_and_without_suffix() {
    assert_eq!(parse_size("4096"), Ok(4096));
    assert_eq!(parse_size("0"), Ok(0));
    assert_eq!(parse_size("64K"), Ok(65536));
    assert_eq!(parse_size("64k"), Ok(65536));
    assert_eq!(parse_size("128M"), Ok(134217728));
    assert_eq!(parse_size("128m"), Ok(134217728));
    assert_eq!(parse_size("1G"), Ok(1073741824));
    assert_eq!(parse_size("2g"), Ok(2147483648));
    assert_eq!(parse_size("+32M"), Ok(33554432));
    assert_eq!(parse_size("007"), Ok(7));
    assert_eq!(parse_size("0000000000000000000000000000000001K"), Ok(1024));
}

#[test]
fn sizes_up_to_the_limit() {
    assert_eq!(parse_size("18446744073709551615"), Ok(u64::MAX));
    assert_eq!(parse_size("18446744073709551616"), Err(FsError::InvalidArgument));
    assert_eq!(parse_size("17179869183G"), Ok(17179869183 * 1073741824));
    assert_eq!(parse_size("17179869184G"), Err(FsError::InvalidArgument));
    assert_eq!(parse_size("99999999999999999999999999"), Err(FsError::InvalidArgument));
}

#[test]
fn text_that_is_no_size() {
    for text in ["", "M", "+", "+M", "-1", "12 M", " 12", "1.5G", "12MB", "0x10", "1_000", "++1"] {
        assert_eq!(parse_size(text), Err(FsError::InvalidArgument));
    }
    assert_eq!(parse_size("12\u{212A}"), Err(FsError::InvalidArgument));
    assert_eq!(parse_size("KM"), Err(FsError::InvalidArgument));
}

#[test]
fn layout_of_the_default_image() {
    let layout = calculate_layout(128 * 1024 * 1024, 32 * 1024 * 1024, 4096).unwrap();
    assert_eq!(
        layout,
        FsLayout {
            total_blocks: 32768,
            block_size: 4096,
            journal_start: 1,
            journal_blocks: 8192,
            inode_bitmap_start: 8193,
            inode_bitmap_blocks: 1,
            data_bitmap_start: 8194,
            data_bitmap_blocks: 1,
            inode_table_start: 8195,
            inode_table_blocks: 512,
            data_start: 8707,
            data_blocks: 24061,
            total_inodes: 16384,
        }
    );
}

#[test]
fn layout_regions_follow_one_another() {
    for (total, journal) in [(64u64 << 20, 1u64 << 20), (1 << 30, 256 << 20), (3 << 30, 0)] {
        let l = calculate_layout(total, journal, 4096).unwrap();
        assert_eq!(l.inode_bitmap_start, l.journal_start + l.journal_blocks);
        assert_eq!(l.data_bitmap_start, l.inode_bitmap_start + l.inode_bitmap_blocks);
        assert_eq!(l.inode_table_start, l.data_bitmap_start + l.data_bitmap_blocks);
        assert_eq!(l.data_start, l.inode_table_start + l.inode_table_blocks);
        assert_eq!(l.data_start + l.data_blocks, l.total_blocks);
        assert_eq!(l.total_inodes, l.total_blocks / 2);
    }
}

#[test]
fn layout_cuts_sizes_down_to_whole_blocks() {
    let l = calculate_layout(64 * 1024 * 1024 + 4095, 8 * 4096 + 1, 4096).unwrap();
    assert_eq!(l.total_blocks, 16384);
    assert_eq!(l.journal_blocks, 8);
}

#[test]
fn layouts_that_cannot_be() {
    assert_eq!(calculate_layout(1 << 30, 1 << 20, 0), Err(FsError::InvalidArgument));
    assert_eq!(calculate_layout(4096 * 5, 0, 4096), Err(FsError::InvalidArgument));
    assert_eq!(calculate_layout(1 << 20, 1 << 20, 4096), Err(FsError::InvalidArgument));
    assert_eq!(calculate_layout(u64::MAX, 0, 4096), Err(FsError::InvalidArgument));
    assert_eq!(calculate_layout(1 << 30, u64::MAX, 4096), Err(FsError::InvalidArgument));
    assert_eq!(calculate_layout(0, 0, 4096), Err(FsError::InvalidArgument));
    let smallest = calculate_layout(4096 * 13, 0, 4096).unwrap();
    assert_eq!(smallest.total_blocks, 13);
    assert_eq!(smallest.data_blocks, 9);
}
