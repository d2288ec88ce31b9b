use vmm::delta::{apply_delta, write_delta, DeltaError};
use vmm::disk_bitmap::{DirtyBitmapError, DiskBitmap};
use vmm::flatten::{
    flatten, flatten_command, with_extra_ext, zero_devices, FlattenError, FlattenReply,
    FlattenStep, FlattenSubCommand, SnapshotFiles,
};
use vmm::io_error::{IoError, ENOENT};
use vmm::persist::OverlayState;

const BLOCK_SIZE: u32 = 4096;
const TOTAL_BLOCKS: u64 = 8;
const DISK_SIZE: u64 = BLOCK_SIZE as u64 * TOTAL_BLOCKS;

fn build_synthetic_snapshot(base_fill: u8, dirty_blocks: &[(u64, u8)]) -> SnapshotFiles {
    let base_bytes = vec![base_fill; DISK_SIZE as usize];

    let mut overlay_bytes = vec![0u8; DISK_SIZE as usize];
    for &(idx, fill) in dirty_blocks {
        let off = (idx * u64::from(BLOCK_SIZE)) as usize;
        overlay_bytes[off..off + BLOCK_SIZE as usize].fill(fill);
    }

    let mut bitmap = DiskBitmap::new(DISK_SIZE, BLOCK_SIZE).unwrap();
    for &(idx, _) in dirty_blocks {
        bitmap.set(idx * u64::from(BLOCK_SIZE), BLOCK_SIZE);
    }

    let (delta, _) = write_delta(&overlay_bytes, &bitmap).unwrap();

    let state = OverlayState {
        base_path: "base".to_string(),
        overlay_path: "overlay".to_string(),
        dirty_bitmap: bitmap.serialize(),
        block_size: BLOCK_SIZE,
        total_blocks: TOTAL_BLOCKS,
        delta_dir: None,
    };
    SnapshotFiles {
        base: Some(base_bytes),
        delta: Some(delta),
        sidecar: Some(vec![("test_drive".to_string(), state)]),
    }
}

fn run() -> FlattenSubCommand {
    FlattenSubCommand::Run {
        base_path: "base".to_string(),
        delta_path: "/nonexistent/delta".to_string(),
        sidecar_path: "/nonexistent/sidecar".to_string(),
    }
}

#[test]
fn test_flatten_bakes_blocks_into_base() {
    let dirty = vec![(1u64, 0x11), (3, 0x33), (7, 0x77)];
    let mut files = build_synthetic_snapshot(0xAA, &dirty);

    flatten(&mut files, run()).unwrap();

    let bytes = files.base.unwrap();
    for block_idx in 0..TOTAL_BLOCKS {
        let off = (block_idx * u64::from(BLOCK_SIZE)) as usize;
        let block = &bytes[off..off + BLOCK_SIZE as usize];
        let expected = dirty
            .iter()
            .find(|(i, _)| *i == block_idx)
            .map(|(_, f)| *f)
            .unwrap_or(0xAA);
        assert!(
            block.iter().all(|b| *b == expected),
            "block {block_idx}: expected fill 0x{expected:02X}, got first byte 0x{:02X}",
            block[0]
        );
    }
}

#[test]
fn test_flatten_produces_empty_delta() {
    let mut files = build_synthetic_snapshot(0xAA, &[(2u64, 0x22), (5, 0x55)]);

    flatten(&mut files, run()).unwrap();

    // Round-trip through apply_delta proves the rewritten delta's format and CRCs are valid.
    let mut dummy = vec![0u8; DISK_SIZE as usize];
    let (bitmap, _stats) = apply_delta(&mut dummy, &files.delta.unwrap()).unwrap();
    assert_eq!(bitmap.dirty_count(), 0);
}

#[test]
fn test_flatten_zeros_sidecar_bitmaps() {
    let mut files = build_synthetic_snapshot(0xAA, &[(0u64, 0x01), (6, 0x06)]);

    flatten(&mut files, run()).unwrap();

    let devices = files.sidecar.unwrap();
    assert_eq!(devices.len(), 1);
    let bm = DiskBitmap::deserialize(
        &devices[0].1.dirty_bitmap,
        devices[0].1.block_size,
        devices[0].1.total_blocks,
    )
    .unwrap();
    assert_eq!(bm.dirty_count(), 0);
}

#[test]
fn test_flatten_idempotent() {
    let mut files = build_synthetic_snapshot(0xAA, &[(1u64, 0x11), (4, 0x44)]);

    flatten(&mut files, run()).unwrap();
    let base = files.base.clone();
    let delta = files.delta.clone();
    flatten(&mut files, run()).unwrap();
    assert_eq!(files.base, base);
    assert_eq!(files.delta, delta);
}

#[test]
fn test_flatten_errors_on_missing_sidecar() {
    let mut files = SnapshotFiles {
        base: Some(vec![0u8; DISK_SIZE as usize]),
        delta: None,
        sidecar: None,
    };
    let result = flatten(&mut files, run());
    assert!(matches!(result, Err(FlattenError::SidecarNotFound(_))));
    assert_eq!(
        result,
        Err(FlattenError::SidecarNotFound("/nonexistent/sidecar".to_string()))
    );
}

#[test]
fn flatten_reports_missing_and_bad_files() {
    let mut files = build_synthetic_snapshot(0xAA, &[(1, 0x11)]);
    files.base = None;
    assert_eq!(
        flatten(&mut files, run()),
        Err(FlattenError::OpenBase(IoError::Os(ENOENT)))
    );

    let mut files = build_synthetic_snapshot(0xAA, &[(1, 0x11)]);
    files.delta = None;
    assert_eq!(
        flatten(&mut files, run()),
        Err(FlattenError::ApplyDelta(DeltaError::Io(IoError::Os(ENOENT))))
    );
    assert_eq!(files.base, Some(vec![0xAA; DISK_SIZE as usize]));

    let mut files = build_synthetic_snapshot(0xAA, &[(1, 0x11)]);
    files.sidecar.as_mut().unwrap()[0].1.dirty_bitmap.push(0);
    let delta = files.delta.clone();
    assert_eq!(
        flatten(&mut files, run()),
        Err(FlattenError::DeserializeBitmap(DirtyBitmapError::LengthMismatch {
            expected: 1,
            actual: 2
        }))
    );
    // The base is baked, the delta and the side-car are as they were.
    assert_eq!(files.base.as_ref().unwrap()[4096], 0x11);
    assert_eq!(files.delta, delta);
    assert_eq!(files.sidecar.as_ref().unwrap()[0].1.dirty_bitmap, vec![0b10, 0]);
}

#[test]
fn a_base_of_another_size_is_refused_and_kept() {
    let mut files = build_synthetic_snapshot(0xAA, &[(1, 0x11)]);
    files.base.as_mut().unwrap().truncate((DISK_SIZE - 4096) as usize);
    let delta = files.delta.clone();
    assert_eq!(
        flatten(&mut files, run()),
        Err(FlattenError::ApplyDelta(DeltaError::SizeMismatch {
            expected: DISK_SIZE,
            actual: DISK_SIZE - 4096
        }))
    );
    assert_eq!(files.base, Some(vec![0xAA; (DISK_SIZE - 4096) as usize]));
    assert_eq!(files.delta, delta);
    assert_eq!(files.sidecar.as_ref().unwrap()[0].1.dirty_bitmap, vec![0b10]);
}

#[test]
fn flatten_steps_come_in_order() {
    let files = build_synthetic_snapshot(0xAA, &[(1, 0x11)]);
    let mut base = files.base.unwrap();
    let (bitmap, _) = apply_delta(&mut base, &files.delta.unwrap()).unwrap();
    let run = flatten_command(run());
    assert_eq!(run.step(), FlattenStep::CheckSidecar);
    assert_eq!(run.base_path(), "base");
    assert_eq!(run.delta_path(), "/nonexistent/delta");
    assert_eq!(run.sidecar_path(), "/nonexistent/sidecar");
    assert_eq!(run.tmp_delta(), "/nonexistent/delta.flatten.tmp");
    assert_eq!(run.tmp_sidecar(), "/nonexistent/sidecar.flatten.tmp");
    let run = run.next(FlattenReply::Exists(true));
    assert_eq!(run.step(), FlattenStep::OpenBase);
    let run = run.next(FlattenReply::Done);
    assert_eq!(run.step(), FlattenStep::ApplyDelta);
    let run = run.next(FlattenReply::Applied(bitmap));
    assert_eq!(run.step(), FlattenStep::SyncBase);
    let run = run.next(FlattenReply::Done);
    assert_eq!(run.step(), FlattenStep::ReadSidecar);
    let run = run.next(FlattenReply::Devices(files.sidecar.unwrap()));
    assert_eq!(run.step(), FlattenStep::WriteSidecar);
    assert_eq!(run.devices()[0].0, "test_drive");
    assert_eq!(run.devices()[0].1.dirty_bitmap, vec![0]);
    let run = run.next(FlattenReply::Done);
    assert_eq!(run.step(), FlattenStep::RenameSidecar);
    let run = run.next(FlattenReply::Done);
    assert_eq!(run.step(), FlattenStep::WriteDelta);
    let mut image = vec![5u8; DISK_SIZE as usize];
    let (bitmap, _) = apply_delta(&mut image, &run.empty_delta()).unwrap();
    assert_eq!((bitmap.total_blocks(), bitmap.dirty_count()), (8, 0));
    assert_eq!(image, vec![5u8; DISK_SIZE as usize]);
    let run = run.next(FlattenReply::Done);
    assert_eq!(run.step(), FlattenStep::RenameDelta);
    let run = run.next(FlattenReply::Failed(IoError::Other));
    assert_eq!(run.step(), FlattenStep::RemoveDeltaTmp);
    let run = run.next(FlattenReply::Done);
    assert_eq!(run.step(), FlattenStep::Finished);
    assert_eq!(run.result(), Err(FlattenError::RenameDelta(IoError::Other)));
}

#[test]
fn flatten_failures_are_named_and_cleaned_up() {
    fn at(step: FlattenStep) -> vmm::flatten::Flatten {
        let files = build_synthetic_snapshot(0xAA, &[(1, 0x11)]);
        let mut image = files.base.unwrap();
        let delta = files.delta.unwrap();
        let mut devices = files.sidecar;
        let mut run = flatten_command(run());
        while run.step() != step {
            let reply = match run.step() {
                FlattenStep::CheckSidecar => FlattenReply::Exists(true),
                FlattenStep::ApplyDelta => {
                    FlattenReply::Applied(apply_delta(&mut image, &delta).unwrap().0)
                }
                FlattenStep::ReadSidecar => FlattenReply::Devices(devices.take().unwrap()),
                _ => FlattenReply::Done,
            };
            run = run.next(reply);
        }
        run
    }
    let e = IoError::Os(28);
    let io = |step| at(step).next(FlattenReply::Failed(e));
    assert_eq!(io(FlattenStep::OpenBase).result(), Err(FlattenError::OpenBase(e)));
    assert_eq!(io(FlattenStep::SyncBase).result(), Err(FlattenError::SyncBase(e)));
    assert_eq!(io(FlattenStep::ReadSidecar).result(), Err(FlattenError::ReadSidecar(e)));
    let failed = io(FlattenStep::WriteSidecar);
    assert_eq!(failed.step(), FlattenStep::RemoveSidecarTmp);
    assert_eq!(
        failed.next(FlattenReply::Done).result(),
        Err(FlattenError::WriteSidecar(e))
    );
    let failed = io(FlattenStep::RenameSidecar);
    assert_eq!(failed.step(), FlattenStep::RemoveSidecarTmp);
    assert_eq!(
        failed.next(FlattenReply::Done).result(),
        Err(FlattenError::RenameSidecar(e))
    );
    let failed = at(FlattenStep::WriteDelta).next(FlattenReply::DeltaFailed(DeltaError::Io(e)));
    assert_eq!(failed.step(), FlattenStep::RemoveDeltaTmp);
    assert_eq!(
        failed.next(FlattenReply::Done).result(),
        Err(FlattenError::WriteEmptyDelta(DeltaError::Io(e)))
    );
    assert_eq!(
        at(FlattenStep::ApplyDelta)
            .next(FlattenReply::DeltaFailed(DeltaError::UnsupportedVersion(3)))
            .result(),
        Err(FlattenError::ApplyDelta(DeltaError::UnsupportedVersion(3)))
    );
    assert_eq!(at(FlattenStep::RenameDelta).next(FlattenReply::Done).result(), Ok(()));
}

#[test]
fn extra_extensions_are_appended() {
    assert_eq!(with_extra_ext("/a/b.c", "d"), "/a/b.c.d");
}

#[test]
fn the_first_bad_bitmap_is_reported() {
    let good = || OverlayState {
        base_path: String::new(),
        overlay_path: String::new(),
        dirty_bitmap: vec![0xFF],
        block_size: 512,
        total_blocks: 8,
        delta_dir: Some("dir".to_string()),
    };
    let mut devices = vec![("a".to_string(), good()), ("b".to_string(), good())];
    assert_eq!(zero_devices(&mut devices), Ok(()));
    assert_eq!(devices[0].1.dirty_bitmap, vec![0]);
    assert_eq!(devices[1].1.dirty_bitmap, vec![0]);
    assert_eq!(devices[1].1.delta_dir, Some("dir".to_string()));

    let mut bad = good();
    bad.block_size = 3;
    let mut devices =
        vec![("a".to_string(), good()), ("b".to_string(), bad), ("c".to_string(), good())];
    assert_eq!(zero_devices(&mut devices), Err(DirtyBitmapError::InvalidBlockSize(3)));
    assert_eq!(devices[0].1.dirty_bitmap, vec![0]);
    assert_eq!(devices[1].1.dirty_bitmap, vec![0xFF]);
    assert_eq!(devices[2].1.dirty_bitmap, vec![0xFF]);
}
