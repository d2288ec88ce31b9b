use vmm::delta::{
    apply_delta, assemble_prologue, judge_bitmap, judge_size, judge_trailer, read_header,
    write_delta, DeltaBlocks, DeltaError, DeltaHeader, DELTA_MAGIC,
};
use vmm::disk_bitmap::{DirtyBitmapError, DiskBitmap, DEFAULT_BLOCK_SIZE};
use vmm::io_error::IoError;

fn create_test_overlay(size: u64, dirty_offsets: &[(u64, &[u8])]) -> (Vec<u8>, DiskBitmap) {
    let mut file = vec![0u8; size as usize];
    let mut bitmap = DiskBitmap::new(size, DEFAULT_BLOCK_SIZE).unwrap();
    for (offset, data) in dirty_offsets {
        let start = *offset as usize;
        file[start..start + data.len()].copy_from_slice(data);
        bitmap.set(*offset, data.len() as u32);
    }
    (file, bitmap)
}

fn one_block_delta() -> Vec<u8> {
    let (overlay, bitmap) = create_test_overlay(4096, &[(0, &vec![0xFF_u8; 4096])]);
    write_delta(&overlay, &bitmap).unwrap().0
}

#[test]
fn test_write_and_apply_delta() {
    let disk_size: u64 = 4 * 4096; // 4 blocks

    // Create overlay with 2 dirty blocks.
    let block0_data = vec![0xAA_u8; 4096];
    let block2_data = vec![0xBB_u8; 4096];
    let (overlay, bitmap) =
        create_test_overlay(disk_size, &[(0, &block0_data), (8192, &block2_data)]);

    // Write delta.
    let (delta, write_stats) = write_delta(&overlay, &bitmap).unwrap();
    assert_eq!(write_stats.dirty_blocks, 2);
    assert_eq!(write_stats.bytes_written, 2 * 4096);

    // Create a fresh overlay and apply the delta.
    let mut fresh_overlay = vec![0u8; disk_size as usize];
    let (restored_bitmap, apply_stats) = apply_delta(&mut fresh_overlay, &delta).unwrap();
    assert_eq!(apply_stats.dirty_blocks, 2);
    assert_eq!(apply_stats.bytes_written, 2 * 4096);

    // Verify bitmap matches.
    assert_eq!(restored_bitmap.dirty_count(), 2);
    assert!(restored_bitmap.is_set(0));
    assert!(!restored_bitmap.is_set(1));
    assert!(restored_bitmap.is_set(2));
    assert!(!restored_bitmap.is_set(3));

    // Verify data matches.
    assert_eq!(&fresh_overlay[0..4096], &block0_data[..]);
    assert_eq!(&fresh_overlay[8192..8192 + 4096], &block2_data[..]);
}

#[test]
fn test_empty_delta() {
    let disk_size: u64 = 4 * 4096;
    let (overlay, bitmap) = create_test_overlay(disk_size, &[]);

    let (delta, stats) = write_delta(&overlay, &bitmap).unwrap();
    assert_eq!(stats.dirty_blocks, 0);
    assert_eq!(stats.bytes_written, 0);

    let mut fresh = vec![0u8; disk_size as usize];
    let (restored_bitmap, _) = apply_delta(&mut fresh, &delta).unwrap();
    assert_eq!(restored_bitmap.dirty_count(), 0);
}

#[test]
fn test_full_dirty_delta() {
    let disk_size: u64 = 2 * 4096;
    let data0 = vec![0xCC_u8; 4096];
    let data1 = vec![0xDD_u8; 4096];
    let (overlay, bitmap) = create_test_overlay(disk_size, &[(0, &data0), (4096, &data1)]);

    let (delta, stats) = write_delta(&overlay, &bitmap).unwrap();
    assert_eq!(stats.dirty_blocks, 2);

    let mut fresh = vec![0u8; disk_size as usize];
    let (restored_bitmap, _) = apply_delta(&mut fresh, &delta).unwrap();
    assert_eq!(restored_bitmap.dirty_count(), 2);
}

#[test]
fn test_corrupted_magic() {
    let mut delta = one_block_delta();
    delta[..8].copy_from_slice(&0u64.to_le_bytes());

    let mut fresh = vec![0u8; 4096];
    let err = apply_delta(&mut fresh, &delta).unwrap_err();
    assert!(matches!(err, DeltaError::InvalidMagic { .. }));
}

#[test]
fn test_corrupted_bitmap_crc() {
    let mut delta = one_block_delta();
    // The bitmap follows the header (32 bytes) and its length (4 bytes).
    delta[36] = 0xFF;

    let mut fresh = vec![0u8; 4096];
    let err = apply_delta(&mut fresh, &delta).unwrap_err();
    assert!(matches!(err, DeltaError::BitmapCrcMismatch { .. }));
}

#[test]
fn test_corrupted_data_crc() {
    let mut delta = one_block_delta();
    // The data checksum is in the last 8 bytes, the block just before it.
    let at = delta.len() - 100;
    delta[at] = 0x00;

    let mut fresh = vec![0u8; 4096];
    let err = apply_delta(&mut fresh, &delta).unwrap_err();
    assert!(matches!(err, DeltaError::DataCrcMismatch { .. }));
}

#[test]
fn delta_file_layout_is_exact() {
    let (overlay, bitmap) = create_test_overlay(4 * 4096, &[(4096, &vec![7u8; 4096])]);
    let (delta, _) = write_delta(&overlay, &bitmap).unwrap();
    let mut expected = Vec::new();
    expected.extend_from_slice(&0x4F56_4C59_4445_4C54_u64.to_le_bytes());
    expected.extend_from_slice(&1u32.to_le_bytes());
    expected.extend_from_slice(&4096u32.to_le_bytes());
    expected.extend_from_slice(&4u64.to_le_bytes());
    expected.extend_from_slice(&1u64.to_le_bytes());
    expected.extend_from_slice(&1u32.to_le_bytes());
    expected.push(0b0000_0010);
    expected.extend_from_slice(&crc64::crc64(0, &[0b0000_0010]).to_le_bytes());
    expected.extend_from_slice(&vec![7u8; 4096]);
    expected.extend_from_slice(&crc64::crc64(0, &vec![7u8; 4096]).to_le_bytes());
    assert_eq!(delta, expected);
    assert_eq!(&delta[..8], b"TLEDYLVO");
}

#[test]
fn delta_checksum_spans_all_blocks() {
    let (overlay, bitmap) =
        create_test_overlay(3 * 4096, &[(0, &vec![1u8; 4096]), (8192, &vec![2u8; 4096])]);
    let (delta, _) = write_delta(&overlay, &bitmap).unwrap();
    let mut data = vec![1u8; 4096];
    data.extend_from_slice(&vec![2u8; 4096]);
    let stored = delta[delta.len() - 8..].to_vec();
    assert_eq!(stored, crc64::crc64(0, &data).to_le_bytes().to_vec());
}

#[test]
fn delta_checksum_is_not_its_seed() {
    // A checksum that came back as its seed would be zero.
    let delta = one_block_delta();
    assert_ne!(&delta[delta.len() - 8..], &[0u8; 8]);
    assert_ne!(&delta[37..45], &[0u8; 8]);
}

#[test]
fn applying_leaves_clean_blocks_alone() {
    let (overlay, bitmap) = create_test_overlay(4 * 4096, &[(4096, &vec![7u8; 4096])]);
    let (delta, _) = write_delta(&overlay, &bitmap).unwrap();
    let mut image = vec![9u8; 4 * 4096];
    apply_delta(&mut image, &delta).unwrap();
    assert!(image[..4096].iter().all(|b| *b == 9));
    assert!(image[4096..8192].iter().all(|b| *b == 7));
    assert!(image[8192..].iter().all(|b| *b == 9));
}

#[test]
fn an_image_of_another_size_is_refused_and_kept() {
    let (overlay, bitmap) = create_test_overlay(4 * 4096, &[(8192, &vec![7u8; 4096])]);
    let (delta, _) = write_delta(&overlay, &bitmap).unwrap();
    for size in [0usize, 4096, 3 * 4096, 4 * 4096 - 1, 4 * 4096 + 1, 5 * 4096] {
        let mut image = vec![9u8; size];
        assert_eq!(
            apply_delta(&mut image, &delta).unwrap_err(),
            DeltaError::SizeMismatch { expected: 4 * 4096, actual: size as u64 }
        );
        assert_eq!(image, vec![9u8; size]);
    }
}

#[test]
fn a_disk_past_the_64_bit_offsets_is_refused_by_its_size() {
    // The dirty blocks are within the disk, so that the header is good.
    let mut prefix = Vec::new();
    prefix.extend_from_slice(&DELTA_MAGIC.to_le_bytes());
    prefix.extend_from_slice(&1u32.to_le_bytes());
    prefix.extend_from_slice(&4096u32.to_le_bytes());
    prefix.extend_from_slice(&(1u64 << 60).to_le_bytes());
    prefix.extend_from_slice(&0u64.to_le_bytes());
    prefix.extend_from_slice(&0u32.to_le_bytes());
    let header = read_header(&prefix).unwrap();
    assert_eq!(header.total_blocks, 1 << 60);
    assert_eq!(
        judge_size(&header, 4096),
        Err(DeltaError::SizeMismatch { expected: u64::MAX, actual: 4096 })
    );
    assert_eq!(
        judge_size(&header, u64::MAX),
        Err(DeltaError::SizeMismatch { expected: u64::MAX, actual: u64::MAX })
    );
}

#[test]
fn a_size_is_held_against_the_header() {
    let header =
        DeltaHeader { block_size: 512, total_blocks: 3, dirty_count: 0, bitmap_len: 1 };
    assert_eq!(judge_size(&header, 1536), Ok(()));
    assert_eq!(
        judge_size(&header, 1535),
        Err(DeltaError::SizeMismatch { expected: 1536, actual: 1535 })
    );
}

#[test]
fn unknown_version_is_refused() {
    let mut delta = one_block_delta();
    delta[8] = 2;
    let mut fresh = vec![0u8; 4096];
    assert_eq!(
        apply_delta(&mut fresh, &delta).unwrap_err(),
        DeltaError::UnsupportedVersion(2)
    );
}

#[test]
fn more_dirty_blocks_than_blocks_are_refused() {
    let mut delta = one_block_delta();
    delta[24] = 2;
    let mut fresh = vec![0u8; 4096];
    assert_eq!(
        apply_delta(&mut fresh, &delta).unwrap_err(),
        DeltaError::TooLarge { dirty_count: 2, block_size: 4096 }
    );
}

#[test]
fn dirty_count_must_match_the_bitmap() {
    let mut delta = one_block_delta();
    delta[24] = 0;
    let mut fresh = vec![0u8; 4096];
    assert_eq!(
        apply_delta(&mut fresh, &delta).unwrap_err(),
        DeltaError::DirtyCountMismatch { header: 0, bitmap: 1 }
    );
    // Nothing was written.
    assert!(fresh.iter().all(|b| *b == 0));
}

#[test]
fn bad_block_size_is_refused() {
    let mut delta = one_block_delta();
    delta[12..16].copy_from_slice(&100u32.to_le_bytes());
    let mut fresh = vec![0u8; 4096];
    assert_eq!(
        apply_delta(&mut fresh, &delta).unwrap_err(),
        DeltaError::Bitmap(DirtyBitmapError::InvalidBlockSize(100))
    );
}

#[test]
fn truncated_files_end_early() {
    let delta = one_block_delta();
    for n in [0, 7, 8, 11, 12, 31, 32, 35, 36, 44, 45, 4000, delta.len() - 1] {
        let mut fresh = vec![0u8; 4096];
        assert_eq!(
            apply_delta(&mut fresh, &delta[..n]).unwrap_err(),
            DeltaError::Io(IoError::UnexpectedEof),
            "cut at {n}"
        );
    }
}

#[test]
fn overlay_that_is_too_short_is_refused() {
    let (overlay, bitmap) = create_test_overlay(2 * 4096, &[(4096, &vec![7u8; 4096])]);
    assert_eq!(
        write_delta(&overlay[..5000], &bitmap).unwrap_err(),
        DeltaError::Io(IoError::UnexpectedEof)
    );
}

#[test]
fn header_is_read_from_the_first_bytes() {
    let delta = one_block_delta();
    assert_eq!(
        read_header(&delta[..36]).unwrap(),
        DeltaHeader { block_size: 4096, total_blocks: 1, dirty_count: 1, bitmap_len: 1 }
    );
    assert_eq!(
        read_header(&[1, 0, 0, 0, 0, 0, 0, 0]).unwrap_err(),
        DeltaError::InvalidMagic { expected: DELTA_MAGIC, actual: 1 }
    );
}

#[test]
fn io_error_converts() {
    assert_eq!(DeltaError::from(IoError::Os(5)), DeltaError::Io(IoError::Os(5)));
}

#[test]
fn blocks_are_walked_in_order() {
    let (_, bitmap) = create_test_overlay(
        4 * 4096,
        &[(12288, &vec![1u8; 4096]), (4096, &vec![2u8; 4096])],
    );
    let mut walk = DeltaBlocks::new(&bitmap);
    assert_eq!(walk.next_offset(), Some(4096));
    walk.push_block(&vec![2u8; 4096]);
    assert_eq!(walk.next_offset(), Some(12288));
    walk.push_block(&vec![1u8; 4096]);
    assert_eq!(walk.next_offset(), None);
    let (trailer, stats) = walk.finish(42);
    assert_eq!(stats.dirty_blocks, 2);
    assert_eq!(stats.bytes_written, 8192);
    assert_eq!(stats.duration_us, 42);
    assert_eq!(walk.check(&trailer, 7).unwrap().duration_us, 7);
    assert!(matches!(
        walk.check(&[0; 8], 0),
        Err(DeltaError::DataCrcMismatch { expected: 0, .. })
    ));
}

#[test]
fn checksums_are_judged_as_given() {
    let header = DeltaHeader { block_size: 512, total_blocks: 3, dirty_count: 2, bitmap_len: 1 };
    assert_eq!(judge_bitmap(&header, &[0b101], 9, 9).unwrap().iter_dirty(), vec![0, 2]);
    assert_eq!(
        judge_bitmap(&header, &[0b101], 9, 8).unwrap_err(),
        DeltaError::BitmapCrcMismatch { expected: 9, computed: 8 }
    );
    assert_eq!(
        judge_bitmap(&header, &[0b100], 9, 9).unwrap_err(),
        DeltaError::DirtyCountMismatch { header: 2, bitmap: 1 }
    );
    assert_eq!(judge_trailer(&7u64.to_le_bytes(), 7), Ok(()));
    assert_eq!(
        judge_trailer(&7u64.to_le_bytes(), 6),
        Err(DeltaError::DataCrcMismatch { expected: 7, computed: 6 })
    );
    assert_eq!(judge_trailer(&[0; 7], 0), Err(DeltaError::Io(IoError::UnexpectedEof)));

    let bitmap = DiskBitmap::new(512, 512).unwrap();
    let prologue = assemble_prologue(&bitmap, &bitmap.serialize(), 0x0102);
    assert_eq!(prologue.len(), 45);
    assert_eq!(&prologue[37..], &[2, 1, 0, 0, 0, 0, 0, 0]);
}
