use vmm::disk_bitmap::{DirtyBitmapError, DiskBitmap, DEFAULT_BLOCK_SIZE};
use vmm::overlay_io::OverlayIoError;
use vmm::persist::{
    join_path, CacheType, ConfigSpace, DeviceState, DiskProperties, DiskSource, FileEngine,
    FileEngineType, FileEngineTypeState, OverlayState, QueuesState, RateLimiterState, VirtioBlock,
    VirtioBlockError, VirtioDeviceType,
};

fn block(id: &str, disk: DiskProperties) -> VirtioBlock {
    VirtioBlock {
        avail_features: 0x1_0000_0200,
        acked_features: 0x1_0000_0000,
        queues: QueuesState { saved: vec![9, 8, 7] },
        config_space: ConfigSpace {
            capacity: disk.nsectors,
            max_discard_sectors: 0,
            max_discard_seg: 0,
            discard_sector_alignment: 0,
        },
        device_state: DeviceState::Inactive,
        id: id.to_string(),
        partuuid: None,
        cache_type: CacheType::Unsafe,
        root_device: false,
        read_only: false,
        disk,
        rate_limiter_state: RateLimiterState { saved: vec![1, 2, 3] },
    }
}

fn plain_disk() -> DiskProperties {
    DiskProperties {
        file_path: "disk.img".to_string(),
        base_path: None,
        file_engine: FileEngine::Sync,
        nsectors: 8,
    }
}

fn overlay_disk() -> DiskProperties {
    let mut bitmap = DiskBitmap::new(0x1000, DEFAULT_BLOCK_SIZE).unwrap();
    bitmap.set(0, 1);
    DiskProperties {
        file_path: "overlay.img".to_string(),
        base_path: Some("base.img".to_string()),
        file_engine: FileEngine::Overlay(bitmap),
        nsectors: 8,
    }
}

#[test]
fn test_cache_semantic_ser() {
    let mut block = block("test", plain_disk());
    block.cache_type = CacheType::Writeback;

    // Save the block device.
    let block_state = block.save();
    assert_eq!(block_state.cache_type, CacheType::Writeback);
    assert_eq!(VirtioBlock::restore(&block_state, plain_disk()).cache_type, CacheType::Writeback);
}

#[test]
fn test_file_engine_type() {
    // Test conversions between FileEngineType and FileEngineTypeState.
    assert_eq!(
        FileEngineTypeState::Async,
        FileEngineTypeState::from(FileEngineType::Async)
    );
    assert_eq!(
        FileEngineTypeState::Sync,
        FileEngineTypeState::from(FileEngineType::Sync)
    );
    assert_eq!(FileEngineType::Async, FileEngineTypeState::Async.into());
    assert_eq!(FileEngineType::Sync, FileEngineTypeState::Sync.into());
    // Test default impl.
    assert_eq!(FileEngineTypeState::default(), FileEngineTypeState::Sync);
    assert_eq!(
        FileEngineTypeState::from(FileEngineType::Overlay),
        FileEngineTypeState::Overlay
    );
    assert_eq!(FileEngineType::Overlay, FileEngineTypeState::Overlay.into());
    assert_eq!(FileEngineType::default(), FileEngineType::Sync);
}

#[test]
fn test_persistence() {
    let block = block("test", plain_disk());

    // Save the block device.
    let state = block.save();
    assert_eq!(state.id, "test");
    assert_eq!(state.cache_type, CacheType::Unsafe);
    assert_eq!(state.rate_limiter_state.saved, vec![1, 2, 3]);

    // Restore the block device.
    let restored = VirtioBlock::restore(&state, plain_disk());

    // Test that virtio specific fields are the same.
    assert_eq!(restored.device_type(), VirtioDeviceType::Block);
    assert_eq!(restored.queues, block.queues);
    assert_eq!(restored.queues.saved, vec![9, 8, 7]);
    assert_eq!(restored.avail_features, block.avail_features);
    assert_eq!(restored.acked_features, block.acked_features);
    assert!(!block.is_activated());
    assert!(!restored.is_activated());
    assert!(!restored.read_only);
    assert_eq!(
        restored.config_space,
        ConfigSpace {
            capacity: 8,
            max_discard_sectors: 0,
            max_discard_seg: 0,
            discard_sector_alignment: 0
        }
    );

    // Test that block specific fields are the same.
    assert_eq!(restored.disk.file_path, block.disk.file_path);
}

#[test]
fn test_overlay_persistence() {
    let base_path = "base.img".to_string();
    let overlay_path = "overlay.img".to_string();
    let block = block("overlay_test", overlay_disk());

    // Verify overlay state is present in the in-memory save.
    let mut block_state = block.save();
    assert!(block_state.overlay_state.is_some());

    let overlay_state = block_state.overlay_state.as_ref().unwrap();
    assert_eq!(overlay_state.base_path, base_path);
    assert_eq!(overlay_state.overlay_path, overlay_path);
    assert_eq!(overlay_state.block_size, 4096);
    assert_eq!(overlay_state.total_blocks, 1);
    assert_eq!(overlay_state.dirty_bitmap, vec![1]);
    assert_eq!(overlay_state.delta_dir, None);

    // The overlay state is kept out-of-band: it is taken out of the snapshot and put
    // back from the side-car.
    let sidecar = block_state.overlay_state.take();
    assert!(block_state.overlay_state.is_none());
    assert!(matches!(
        VirtioBlock::disk_source(&block_state, false).unwrap().into_disk(8, None).unwrap_err(),
        VirtioBlockError::FileEngine(OverlayIoError::NotConstructibleFromFile)
    ));
    block_state.overlay_state = sidecar;

    let source = VirtioBlock::disk_source(&block_state, false).unwrap();
    match &source {
        DiskSource::Bitmap { base_path: base, overlay_path: overlay, block_size, bitmap } => {
            assert_eq!(*base, base_path);
            assert_eq!(*overlay, overlay_path);
            assert_eq!(*block_size, 4096);
            assert_eq!(bitmap.iter_dirty(), vec![0]);
        }
        other => panic!("{other:?}"),
    }
    let disk = source.into_disk(8, None).unwrap();
    let restored_block = VirtioBlock::restore(&block_state, disk);

    // Verify restored device is overlay type.
    assert_eq!(restored_block.file_engine_type(), FileEngineType::Overlay);
    assert_eq!(restored_block.disk.file_path, overlay_path);
    assert_eq!(restored_block.disk.base_path.as_deref(), Some(base_path.as_str()));
    assert_eq!(
        restored_block.config_space,
        ConfigSpace {
            capacity: 8,
            max_discard_sectors: u32::MAX,
            max_discard_seg: 1,
            discard_sector_alignment: 8
        }
    );
}

#[test]
fn test_old_snapshot_without_overlay_state() {
    let block = block("test", plain_disk());
    let block_state = block.save();

    // overlay_state should be None for non-overlay devices.
    assert!(block_state.overlay_state.is_none());

    let source = VirtioBlock::disk_source(&block_state, false).unwrap();
    match source {
        DiskSource::Plain { disk_path, read_only, engine } => {
            assert_eq!(disk_path, "disk.img");
            assert!(!read_only);
            assert_eq!(engine, FileEngineType::Sync);
        }
        other => panic!("{other:?}"),
    }
    let restored_block = VirtioBlock::restore(&block_state, plain_disk());
    assert_eq!(restored_block.file_engine_type(), FileEngineType::Sync);
}

#[test]
fn a_delta_is_looked_for_by_drive_id() {
    let mut state = block("rootfs", overlay_disk()).save();
    assert_eq!(VirtioBlock::delta_path(&state), None);
    state.overlay_state.as_mut().unwrap().delta_dir = Some("/deltas".to_string());
    assert_eq!(VirtioBlock::delta_path(&state), Some("/deltas/rootfs.delta".to_string()));
    match VirtioBlock::disk_source(&state, true).unwrap() {
        DiskSource::Delta { base_path, overlay_path, delta_path } => {
            assert_eq!(base_path, "base.img");
            assert_eq!(overlay_path, "overlay.img");
            assert_eq!(delta_path, "/deltas/rootfs.delta");
        }
        other => panic!("{other:?}"),
    }
    // Without the file the bitmap is used.
    assert!(matches!(
        VirtioBlock::disk_source(&state, false).unwrap(),
        DiskSource::Bitmap { .. }
    ));
}

#[test]
fn a_restored_device_is_the_saved_one() {
    let mut saved = block("drive", overlay_disk());
    saved.partuuid = Some("uuid".to_string());
    saved.root_device = true;
    saved.device_state = DeviceState::Activated;
    assert!(saved.is_activated());
    let state = saved.save();
    // Without a directory there is no delta to look for, whatever is there.
    let source = VirtioBlock::disk_source(&state, true).unwrap();
    let disk = source.into_disk(8, None).unwrap();
    let restored = VirtioBlock::restore(&state, disk);
    assert!(!restored.is_activated());
    assert_eq!(restored.id, "drive");
    assert_eq!(restored.partuuid.as_deref(), Some("uuid"));
    assert!(restored.root_device);
    assert_eq!(restored.cache_type, saved.cache_type);
    assert_eq!(restored.rate_limiter_state, saved.rate_limiter_state);
    assert_eq!(restored.queues, saved.queues);
    assert_eq!(restored.disk.nsectors, 8);
    match (&restored.disk.file_engine, &saved.disk.file_engine) {
        (FileEngine::Overlay(a), FileEngine::Overlay(b)) => {
            assert_eq!(a.iter_dirty(), b.iter_dirty());
            assert_eq!(a.block_size(), b.block_size());
        }
        other => panic!("{other:?}"),
    }
}

#[test]
fn a_source_is_opened_to_its_disk() {
    let plain = |engine| DiskSource::Plain {
        disk_path: "disk.img".to_string(),
        read_only: false,
        engine,
    };
    let disk = plain(FileEngineType::Async).into_disk(3, None).unwrap();
    assert_eq!((disk.file_path.as_str(), disk.base_path, disk.nsectors), ("disk.img", None, 3));
    assert!(matches!(disk.file_engine, FileEngine::Async));
    assert_eq!(
        plain(FileEngineType::Overlay).into_disk(3, None).unwrap_err(),
        VirtioBlockError::FileEngine(OverlayIoError::NotConstructibleFromFile)
    );

    let delta = DiskSource::Delta {
        base_path: "base".to_string(),
        overlay_path: "overlay".to_string(),
        delta_path: "delta".to_string(),
    };
    let mut applied = DiskBitmap::new(0x2000, DEFAULT_BLOCK_SIZE).unwrap();
    applied.set(0x1000, 1);
    let disk = delta.into_disk(16, Some(applied)).unwrap();
    assert_eq!(disk.file_path, "overlay");
    assert_eq!(disk.base_path.as_deref(), Some("base"));
    match disk.file_engine {
        FileEngine::Overlay(bitmap) => assert_eq!(bitmap.iter_dirty(), vec![1]),
        other => panic!("{other:?}"),
    }
}

#[test]
fn a_bad_bitmap_is_refused_at_restore() {
    let overlay = OverlayState {
        base_path: String::new(),
        overlay_path: String::new(),
        dirty_bitmap: vec![],
        block_size: 4096,
        total_blocks: 1,
        delta_dir: None,
    };
    assert_eq!(
        VirtioBlock::restore_overlay_from_bitmap(&overlay).unwrap_err(),
        VirtioBlockError::FileEngine(OverlayIoError::Bitmap(DirtyBitmapError::LengthMismatch {
            expected: 1,
            actual: 0
        }))
    );
}

#[test]
fn the_read_only_bit_is_kept() {
    let mut block = block("ro", plain_disk());
    block.avail_features = 1 << 5;
    block.read_only = true;
    let state = block.save();
    assert!(VirtioBlock::restore(&state, plain_disk()).read_only);
    assert!(matches!(
        VirtioBlock::disk_source(&state, false).unwrap(),
        DiskSource::Plain { read_only: true, .. }
    ));
}

#[test]
fn paths_are_joined() {
    assert_eq!(join_path("/a", "b"), "/a/b");
    assert_eq!(join_path("/a/", "b"), "/a/b");
    assert_eq!(join_path("", "b"), "b");
    assert_eq!(join_path("/a", "/b"), "/b");
}
