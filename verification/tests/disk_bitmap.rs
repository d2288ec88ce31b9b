use vmm::disk_bitmap::{DirtyBitmapError, DiskBitmap, DEFAULT_BLOCK_SIZE};

#[test]
fn a_new_disk_bitmap_is_clean() {
    let bitmap = DiskBitmap::new(10 * 4096 + 1, DEFAULT_BLOCK_SIZE).unwrap();
    assert_eq!(bitmap.total_blocks(), 11);
    assert_eq!(bitmap.block_size(), 4096);
    assert_eq!(bitmap.dirty_count(), 0);
    assert!(bitmap.iter_dirty().is_empty());
}

#[test]
fn bad_disk_bitmaps_are_refused() {
    assert_eq!(
        DiskBitmap::new(4096, 100).unwrap_err(),
        DirtyBitmapError::InvalidBlockSize(100)
    );
    assert_eq!(
        DiskBitmap::new(4096, 768).unwrap_err(),
        DirtyBitmapError::InvalidBlockSize(768)
    );
    assert_eq!(DiskBitmap::new(0, 512).unwrap_err(), DirtyBitmapError::ZeroDiskSize);
}

#[test]
fn a_write_marks_every_block_it_touches() {
    let mut bitmap = DiskBitmap::new(8 * 4096, 4096).unwrap();
    bitmap.set(4095, 2);
    assert_eq!(bitmap.iter_dirty(), vec![0, 1]);
    bitmap.set(5 * 4096, 4096);
    assert_eq!(bitmap.iter_dirty(), vec![0, 1, 5]);
    bitmap.set(7 * 4096, 8192);
    assert_eq!(bitmap.iter_dirty(), vec![0, 1, 5, 7]);
    bitmap.set(3 * 4096, 0);
    assert_eq!(bitmap.dirty_count(), 4);
    bitmap.unset(1);
    bitmap.unset(100);
    assert_eq!(bitmap.iter_dirty(), vec![0, 5, 7]);
    assert!(!bitmap.is_set(100));
    bitmap.clear();
    assert_eq!(bitmap.dirty_count(), 0);
}

#[test]
fn ranges_are_uniform_or_mixed() {
    let mut bitmap = DiskBitmap::new(4 * 4096, 4096).unwrap();
    bitmap.set(0, 8192);
    assert_eq!(bitmap.is_range_uniform(0, 8192), Some(true));
    assert_eq!(bitmap.is_range_uniform(8192, 8192), Some(false));
    assert_eq!(bitmap.is_range_uniform(0, 8193), None);
    assert_eq!(bitmap.is_range_uniform(0, 0), Some(false));
}

#[test]
fn disk_bitmap_survives_serialization() {
    let mut bitmap = DiskBitmap::new(13 * 4096, 4096).unwrap();
    for block in [0u64, 3, 7, 8, 12] {
        bitmap.set(block * 4096, 1);
    }
    let bytes = bitmap.serialize();
    assert_eq!(bytes, vec![0b1000_1001, 0b0001_0001]);
    let back = DiskBitmap::deserialize(&bytes, 4096, 13).unwrap();
    assert_eq!(back.iter_dirty(), vec![0, 3, 7, 8, 12]);
    assert_eq!(
        DiskBitmap::deserialize(&bytes, 4096, 17).unwrap_err(),
        DirtyBitmapError::LengthMismatch { expected: 3, actual: 2 }
    );
    assert_eq!(
        DiskBitmap::deserialize(&bytes, 4096, 0).unwrap_err(),
        DirtyBitmapError::ZeroDiskSize
    );
    assert_eq!(
        DiskBitmap::deserialize(&bytes, 1000, 13).unwrap_err(),
        DirtyBitmapError::InvalidBlockSize(1000)
    );
}
