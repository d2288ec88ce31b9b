use vmm::disk_bitmap::{DirtyBitmapError, DiskBitmap, DEFAULT_BLOCK_SIZE};
use vmm::io_error::{IoError, EINVAL};
use vmm::overlay_io::{
    check_sizes, discard_range, plan_read, plan_write, BlockRange, GuestAddress,
    GuestMemoryError, KeptRange, OverlayFileEngine, OverlayIoError, ReadRun, WritePlan,
};

const FILE_LEN: u64 = 16384; // 4 blocks of 4KB
const MEM_LEN: usize = 16384;

fn create_mem() -> Vec<u8> {
    vec![0u8; MEM_LEN]
}

fn create_engine(base_data: &[u8]) -> OverlayFileEngine {
    OverlayFileEngine::from_files(
        base_data.to_vec(),
        vec![0u8; base_data.len()],
        base_data.len() as u64,
        DEFAULT_BLOCK_SIZE,
        None,
    )
    .unwrap()
}

fn write_mem(data: &[u8]) -> Vec<u8> {
    let mut mem = create_mem();
    mem[..data.len()].copy_from_slice(data);
    mem
}

#[test]
fn test_read_from_base_only() {
    let base_data: Vec<u8> = (0..FILE_LEN).map(|i| (i % 251) as u8).collect();
    let engine = create_engine(&base_data);
    let mut mem = create_mem();

    // Read first 512 bytes: should come from base.
    engine.read(0, &mut mem, GuestAddress(0), 512).unwrap();
    assert_eq!(&mem[..512], &base_data[..512]);
}

#[test]
fn test_write_then_read_from_overlay() {
    let base_data = vec![0xAA_u8; FILE_LEN as usize];
    let mut engine = create_engine(&base_data);

    // Write different data to overlay.
    let write_data = vec![0xBB_u8; 512];
    let mem = write_mem(&write_data);
    engine.write(0, &mem, GuestAddress(0), 512).unwrap();

    // Read back: should get overlay data, not base.
    let mut mem = create_mem();
    engine.read(0, &mut mem, GuestAddress(0), 512).unwrap();
    assert_eq!(&mem[..512], &write_data[..]);
}

#[test]
fn test_base_not_modified_after_write() {
    let base_data = vec![0xAA_u8; FILE_LEN as usize];
    let mut engine = create_engine(&base_data);

    // Write to overlay.
    let mem = write_mem(&vec![0xBB_u8; 4096]);
    engine.write(0, &mem, GuestAddress(0), 4096).unwrap();

    // Read from base directly: should still be original data.
    let mut mem = create_mem();
    engine.read_from_base(0, &mut mem, GuestAddress(0), 512).unwrap();
    assert_eq!(&mem[..512], &vec![0xAA_u8; 512][..]);
}

#[test]
fn test_mixed_read() {
    let base_data = vec![0xAA_u8; FILE_LEN as usize];
    let mut engine = create_engine(&base_data);

    // Write to block 0 only (first 4KB).
    let mem = write_mem(&vec![0xBB_u8; 4096]);
    engine.write(0, &mem, GuestAddress(0), 4096).unwrap();

    // Read 8KB spanning block 0 (dirty) and block 1 (clean).
    let mut mem = create_mem();
    engine.read(0, &mut mem, GuestAddress(0), 8192).unwrap();

    // First 4KB should be overlay data (0xBB).
    assert_eq!(&mem[..4096], &vec![0xBB_u8; 4096][..]);
    // Second 4KB should be base data (0xAA).
    assert_eq!(&mem[4096..8192], &vec![0xAA_u8; 4096][..]);
}

#[test]
fn test_write_updates_bitmap() {
    let base_data = vec![0u8; FILE_LEN as usize];
    let mut engine = create_engine(&base_data);

    assert_eq!(engine.bitmap().dirty_count(), 0);

    let mem = create_mem();
    engine.write(0, &mem, GuestAddress(0), 512).unwrap();
    assert_eq!(engine.bitmap().dirty_count(), 1);

    // Write to a different block.
    engine.write(4096, &mem, GuestAddress(0), 512).unwrap();
    assert_eq!(engine.bitmap().dirty_count(), 2);
}

#[test]
fn test_flush() {
    let base_data = vec![0u8; FILE_LEN as usize];
    let mut engine = create_engine(&base_data);
    // Flush should succeed even with no writes.
    engine.flush().unwrap();
}

#[test]
fn test_read_at_offset() {
    let base_data: Vec<u8> = (0..FILE_LEN).map(|i| (i % 251) as u8).collect();
    let engine = create_engine(&base_data);
    let mut mem = create_mem();

    let offset = 4096u64;
    let count = 512u32;
    engine.read(offset, &mut mem, GuestAddress(0), count).unwrap();
    assert_eq!(
        &mem[..count as usize],
        &base_data[offset as usize..(offset as usize + count as usize)]
    );
}

#[test]
fn test_write_at_offset_then_read() {
    let base_data = vec![0xAA_u8; FILE_LEN as usize];
    let mut engine = create_engine(&base_data);

    // Write at offset 4096 (block 1).
    let write_data = vec![0xCC_u8; 512];
    let mem = write_mem(&write_data);
    engine.write(4096, &mem, GuestAddress(0), 512).unwrap();

    // Read back from same offset.
    let mut mem = create_mem();
    engine.read(4096, &mut mem, GuestAddress(0), 512).unwrap();
    assert_eq!(&mem[..512], &write_data[..]);

    // Block 0 should still be base data.
    let mut mem = create_mem();
    engine.read(0, &mut mem, GuestAddress(0), 512).unwrap();
    assert_eq!(&mem[..512], &vec![0xAA_u8; 512][..]);
}

#[test]
fn test_overwrite_same_block() {
    let base_data = vec![0xAA_u8; FILE_LEN as usize];
    let mut engine = create_engine(&base_data);

    // First write.
    let data1 = vec![0xBB_u8; 512];
    let mem = write_mem(&data1);
    engine.write(0, &mem, GuestAddress(0), 512).unwrap();

    // Overwrite same location.
    let data2 = vec![0xCC_u8; 512];
    let mem = write_mem(&data2);
    engine.write(0, &mem, GuestAddress(0), 512).unwrap();

    // Should get the second write.
    let mut mem = create_mem();
    engine.read(0, &mut mem, GuestAddress(0), 512).unwrap();
    assert_eq!(&mem[..512], &data2[..]);

    // Bitmap should still show 1 dirty block.
    assert_eq!(engine.bitmap().dirty_count(), 1);
}

#[test]
fn a_mixed_read_is_split_where_the_source_changes() {
    let mut bitmap = DiskBitmap::new(FILE_LEN, 4096).unwrap();
    bitmap.set(4096, 8192);
    assert_eq!(
        plan_read(&bitmap, 100, 16000),
        vec![
            ReadRun { dirty: false, offset: 100, len: 3996 },
            ReadRun { dirty: true, offset: 4096, len: 8192 },
            ReadRun { dirty: false, offset: 12288, len: 3812 },
        ]
    );
    assert_eq!(
        plan_read(&bitmap, 5000, 100),
        vec![ReadRun { dirty: true, offset: 5000, len: 100 }]
    );
    assert_eq!(
        plan_read(&bitmap, 5000, 0),
        vec![ReadRun { dirty: false, offset: 5000, len: 0 }]
    );
}

#[test]
fn a_discard_shows_the_base_again() {
    let mut engine = create_engine(&vec![0xAA_u8; FILE_LEN as usize]);
    let mem = vec![0xBB_u8; MEM_LEN];
    engine.write(0, &mem, GuestAddress(0), FILE_LEN as u32).unwrap();
    assert_eq!(engine.bitmap().dirty_count(), 4);

    engine.discard(4096, 4097).unwrap();
    assert_eq!(engine.bitmap().iter_dirty(), vec![0, 3]);
    assert!(engine.overlay_file()[4096..8193].iter().all(|b| *b == 0));
    assert_eq!(engine.overlay_file()[8193], 0xBB);

    let mut mem = create_mem();
    engine.read(0, &mut mem, GuestAddress(0), FILE_LEN as u32).unwrap();
    assert!(mem[..4096].iter().all(|b| *b == 0xBB));
    assert!(mem[4096..12288].iter().all(|b| *b == 0xAA));
    assert!(mem[12288..].iter().all(|b| *b == 0xBB));

    engine.discard(0, 0).unwrap();
    assert_eq!(engine.bitmap().dirty_count(), 2);
    engine.discard(0, u64::MAX).unwrap();
    assert_eq!(engine.bitmap().dirty_count(), 0);
}

#[test]
fn discards_are_held_to_the_disk() {
    let bitmap = DiskBitmap::new(FILE_LEN, 4096).unwrap();
    assert_eq!(discard_range(&bitmap, 0, 0), None);
    assert_eq!(discard_range(&bitmap, 100, 1), Some(BlockRange { start: 0, end: 0 }));
    assert_eq!(discard_range(&bitmap, 4096, u64::MAX), Some(BlockRange { start: 1, end: 3 }));
    assert_eq!(discard_range(&bitmap, FILE_LEN, 4096), None);
}

#[test]
fn a_partial_write_to_a_clean_block_keeps_the_rest_of_the_base() {
    let mut engine = create_engine(&vec![0xAA_u8; FILE_LEN as usize]);
    let mem = vec![0xBB_u8; MEM_LEN];
    engine.write(0, &mem, GuestAddress(0), 512).unwrap();
    let mut mem = create_mem();
    engine.read(0, &mut mem, GuestAddress(0), 8192).unwrap();
    assert!(mem[..512].iter().all(|b| *b == 0xBB));
    assert!(mem[512..8192].iter().all(|b| *b == 0xAA));
    assert_eq!(engine.bitmap().iter_dirty(), vec![0]);
}

#[test]
fn a_write_over_block_boundaries_changes_no_other_byte() {
    let base: Vec<u8> = (0..FILE_LEN).map(|i| (i % 251) as u8).collect();
    let mut engine = create_engine(&base);
    let mem = vec![0xBB_u8; MEM_LEN];
    engine.write(4000, &mem, GuestAddress(0), 5000).unwrap();
    assert_eq!(engine.bitmap().iter_dirty(), vec![0, 1, 2]);
    // A second write to a block that is dirty keeps what the first one wrote.
    let other = vec![0xCC_u8; MEM_LEN];
    engine.write(8900, &other, GuestAddress(0), 10).unwrap();

    let mut want = base.clone();
    want[4000..9000].fill(0xBB);
    want[8900..8910].fill(0xCC);
    let mut mem = create_mem();
    engine.read(0, &mut mem, GuestAddress(0), FILE_LEN as u32).unwrap();
    assert_eq!(mem, want);
}

#[test]
fn a_write_keeps_what_the_base_holds_of_its_last_block() {
    // The base ends in the middle of the second block.
    let mut engine = create_engine(&vec![0xAA_u8; 5120]);
    let mem = vec![0xBB_u8; MEM_LEN];
    engine.write(4096, &mem, GuestAddress(0), 512).unwrap();
    assert_eq!(engine.overlay_file().len(), 5120);
    let mut mem = create_mem();
    engine.read(0, &mut mem, GuestAddress(0), 5120).unwrap();
    assert!(mem[..4096].iter().all(|b| *b == 0xAA));
    assert!(mem[4096..4608].iter().all(|b| *b == 0xBB));
    assert!(mem[4608..5120].iter().all(|b| *b == 0xAA));
}

#[test]
fn a_write_is_planned_by_its_clean_blocks() {
    let range = |offset, len| KeptRange { offset, len };
    let mut bitmap = DiskBitmap::new(FILE_LEN, 4096).unwrap();
    assert_eq!(
        plan_write(&bitmap, FILE_LEN, 100, 5000),
        WritePlan { head: range(0, 100), tail: range(5100, 3092) }
    );
    assert_eq!(
        plan_write(&bitmap, FILE_LEN, 4096, 4096),
        WritePlan { head: range(4096, 0), tail: range(8192, 0) }
    );
    assert_eq!(
        plan_write(&bitmap, FILE_LEN, 100, 0),
        WritePlan { head: range(0, 0), tail: range(100, 0) }
    );
    bitmap.set(4096, 1);
    assert_eq!(
        plan_write(&bitmap, FILE_LEN, 100, 5000),
        WritePlan { head: range(0, 100), tail: range(5100, 0) }
    );
    // Past the end of the disk there is nothing to keep.
    assert_eq!(
        plan_write(&bitmap, FILE_LEN, FILE_LEN + 100, 10),
        WritePlan { head: range(FILE_LEN, 0), tail: range(FILE_LEN + 110, 0) }
    );
}

#[test]
fn an_overlay_of_another_size_is_refused() {
    let bitmap = DiskBitmap::new(8, 512).unwrap();
    assert_eq!(
        OverlayFileEngine::from_files(vec![1; 8], vec![2; 7], 8, 512, Some(bitmap)).unwrap_err(),
        OverlayIoError::SizeMismatch { base_size: 8, overlay_size: 7 }
    );
    assert_eq!(
        OverlayFileEngine::from_files(vec![], vec![2], 0, 7, None).unwrap_err(),
        OverlayIoError::SizeMismatch { base_size: 0, overlay_size: 1 }
    );
    assert_eq!(check_sizes(4096, 4096), Ok(()));
}

#[test]
fn engine_errors_name_the_file_and_the_cause() {
    let mut engine = create_engine(&vec![0xAA_u8; FILE_LEN as usize]);
    let mut mem = create_mem();
    assert_eq!(
        engine.read(u64::MAX - 600, &mut mem, GuestAddress(0), 512).unwrap_err(),
        OverlayIoError::BaseSeek(IoError::Os(EINVAL))
    );
    assert_eq!(
        engine.read(0, &mut mem, GuestAddress(MEM_LEN as u64), 1).unwrap_err(),
        OverlayIoError::BaseTransfer(GuestMemoryError::InvalidGuestAddress(GuestAddress(
            MEM_LEN as u64
        )))
    );
    assert_eq!(
        engine.read(0, &mut mem, GuestAddress(1), MEM_LEN as u32).unwrap_err(),
        OverlayIoError::BaseTransfer(GuestMemoryError::InvalidBackendAddress)
    );
    assert_eq!(
        engine.read(FILE_LEN - 10, &mut mem, GuestAddress(0), 20).unwrap_err(),
        OverlayIoError::BaseTransfer(GuestMemoryError::IOError(IoError::UnexpectedEof))
    );
    // What could be read is there.
    assert!(mem[..10].iter().all(|b| *b == 0xAA));
    assert_eq!(mem[10], 0);

    engine.write(0, &mem, GuestAddress(0), 4096).unwrap();
    engine.overlay_file_mut().truncate(100);
    assert_eq!(
        engine.read(0, &mut mem, GuestAddress(0), 200).unwrap_err(),
        OverlayIoError::OverlayReadTransfer(GuestMemoryError::IOError(IoError::UnexpectedEof))
    );
    assert_eq!(
        engine.read_from_overlay(1 << 63, &mut mem, GuestAddress(0), 1).unwrap_err(),
        OverlayIoError::OverlaySeek(IoError::Os(EINVAL))
    );
    assert_eq!(
        engine.write(1 << 63, &mem, GuestAddress(0), 1).unwrap_err(),
        OverlayIoError::OverlaySeek(IoError::Os(EINVAL))
    );
    assert_eq!(
        engine.write((1 << 63) - 1, &mem, GuestAddress(0), 1).unwrap_err(),
        OverlayIoError::OverlayWriteTransfer(GuestMemoryError::IOError(IoError::FileTooLarge))
    );
    assert_eq!(
        engine.write(0, &mem, GuestAddress(MEM_LEN as u64), 1).unwrap_err(),
        OverlayIoError::OverlayWriteTransfer(GuestMemoryError::InvalidGuestAddress(GuestAddress(
            MEM_LEN as u64
        )))
    );
}

#[test]
fn an_engine_takes_a_bitmap_or_makes_one() {
    let mut bitmap = DiskBitmap::new(FILE_LEN, 4096).unwrap();
    bitmap.set(0, 1);
    let engine =
        OverlayFileEngine::from_files(vec![1; 8], vec![2; 8], 0, 7, Some(bitmap)).unwrap();
    assert_eq!(engine.bitmap().dirty_count(), 1);
    assert_eq!(
        OverlayFileEngine::from_files(vec![], vec![], 8, 7, None).unwrap_err(),
        OverlayIoError::Bitmap(DirtyBitmapError::InvalidBlockSize(7))
    );
    assert_eq!(
        OverlayFileEngine::from_files(vec![], vec![], 0, 512, None).unwrap_err(),
        OverlayIoError::Bitmap(DirtyBitmapError::ZeroDiskSize)
    );
}

#[test]
fn a_delta_restores_the_disk_on_a_fresh_overlay() {
    let base: Vec<u8> = (0..FILE_LEN).map(|i| (i % 251) as u8).collect();
    let mut engine = create_engine(&base);
    let mem = vec![0xBB_u8; MEM_LEN];
    engine.write(4096, &mem, GuestAddress(0), 4096).unwrap();
    let (delta, _) = engine.write_delta().unwrap();

    let mut fresh = vec![0x55_u8; FILE_LEN as usize];
    let (bitmap, _) = vmm::delta::apply_delta(&mut fresh, &delta).unwrap();
    let clone =
        OverlayFileEngine::from_files(base, fresh, FILE_LEN, 4096, Some(bitmap)).unwrap();

    let mut left = create_mem();
    let mut right = create_mem();
    engine.read(0, &mut left, GuestAddress(0), FILE_LEN as u32).unwrap();
    clone.read(0, &mut right, GuestAddress(0), FILE_LEN as u32).unwrap();
    assert_eq!(left, right);
}

#[test]
fn replacing_the_overlay_keeps_the_bitmap() {
    let mut engine = create_engine(&vec![0xAA_u8; FILE_LEN as usize]);
    let mem = vec![0xBB_u8; MEM_LEN];
    engine.write(0, &mem, GuestAddress(0), 4096).unwrap();
    engine.update_overlay(vec![0x11; FILE_LEN as usize]);
    let mut mem = create_mem();
    engine.read(0, &mut mem, GuestAddress(0), 8192).unwrap();
    assert_eq!(mem[0], 0x11);
    assert_eq!(mem[4096], 0xAA);
}
