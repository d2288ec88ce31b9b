//! Bake a `rootfs.delta` into its base image and zero the overlay side-car.
//!
//! `Flatten` names the file operation to do next and takes its result; `flatten` runs
//! it on files in memory.
use vstd::prelude::*;

use crate::delta::{
    applied, delta_file, dirty_within, law_apply_written_delta, law_applying_keeps_size, merged,
    offsets_fit, parsed_bitmap, parsed_header,
};
use crate::delta::{apply_delta, write_delta, DeltaError};
use crate::disk_bitmap::{
    deserialized, law_packed_bits, law_unpack_packed, packed, valid_block_size, DirtyBitmapError,
    DiskBitmap,
};
use crate::io_error::{IoError, ENOENT};
use crate::le_bytes::u32_at;
use crate::overlay_io::{law_merged_is_visible, visible_byte};
use crate::persist::{text_of, OverlayState};

verus! {

/// Why a snapshot could not be flattened.
#[derive(Debug, PartialEq, Eq)]
pub enum FlattenError {
    /// The base image could not be opened.
    OpenBase(IoError),
    /// The delta could not be applied.
    ApplyDelta(DeltaError),
    /// The base image could not be synced.
    SyncBase(IoError),
    /// The empty delta could not be written.
    WriteEmptyDelta(DeltaError),
    /// The empty delta could not be put in place.
    RenameDelta(IoError),
    /// There is no side-car at this path.
    SidecarNotFound(String),
    /// The side-car could not be read.
    ReadSidecar(IoError),
    /// The bitmap of a device in the side-car is bad.
    DeserializeBitmap(DirtyBitmapError),
    /// The side-car could not be written.
    WriteSidecar(IoError),
    /// The side-car could not be put in place.
    RenameSidecar(IoError),
}

/// What can be done with a snapshot.
#[derive(Debug, PartialEq, Eq)]
pub enum FlattenSubCommand {
    /// Bake the delta into the base image and zero the side-car in place.
    Run {
        /// The base image.
        base_path: String,
        /// The delta.
        delta_path: String,
        /// The side-car.
        sidecar_path: String,
    },
}

/// The overlay devices in a side-car, by drive id.
pub type Devices = Vec<(String, OverlayState)>;

// ---- the side-car ----

/// A bitmap of `n` blocks, all clean.
pub open spec fn all_clean(n: nat) -> Seq<bool> {
    Seq::new(n, |i: int| false)
}

/// The bitmap of a device, or what is wrong with it.
pub open spec fn device_bits(state: OverlayState) -> Result<Seq<bool>, DirtyBitmapError> {
    deserialized(state.dirty_bitmap@, state.block_size, state.total_blocks)
}

/// `after` is `before` with all blocks clean.
pub open spec fn device_zeroed(before: (String, OverlayState), after: (String, OverlayState)) -> bool {
    &&& after.0@ == before.0@
    &&& after.1.base_path@ == before.1.base_path@
    &&& after.1.overlay_path@ == before.1.overlay_path@
    &&& after.1.block_size == before.1.block_size
    &&& after.1.total_blocks == before.1.total_blocks
    &&& text_of(after.1.delta_dir) == text_of(before.1.delta_dir)
    &&& after.1.dirty_bitmap@ == packed(all_clean(before.1.total_blocks as nat))
}

/// `after` is `before` with all blocks of all devices clean.
pub open spec fn devices_zeroed(
    before: Seq<(String, OverlayState)>,
    after: Seq<(String, OverlayState)>,
) -> bool {
    &&& after.len() == before.len()
    &&& forall|i: int| 0 <= i < before.len() ==> device_zeroed(before[i], #[trigger] after[i])
}

/// What is wrong with the first bad bitmap, if there is one.
pub open spec fn first_bad_bitmap(devices: Seq<(String, OverlayState)>) -> Option<DirtyBitmapError>
    decreases devices.len(),
{
    if devices.len() == 0 {
        None
    } else {
        match first_bad_bitmap(devices.drop_last()) {
            Some(e) => Some(e),
            None => match device_bits(devices.last().1) {
                Ok(_) => None,
                Err(e) => Some(e),
            },
        }
    }
}

/// The first bad bitmap of a prefix is that of the whole.
proof fn lemma_first_bad(devices: Seq<(String, OverlayState)>, n: int)
    requires
        0 <= n <= devices.len(),
        first_bad_bitmap(devices.take(n)) is Some,
    ensures
        first_bad_bitmap(devices) == first_bad_bitmap(devices.take(n)),
    decreases devices.len() - n,
{
    if n == devices.len() {
        assert(devices.take(n) =~= devices);
    } else {
        assert(devices.take(n + 1).drop_last() =~= devices.take(n));
        lemma_first_bad(devices, n + 1);
    }
}

/// Make all blocks of all devices clean.
pub fn zero_devices(devices: &mut Devices) -> (r: Result<(), DirtyBitmapError>)
    ensures
        match r {
            Ok(_) => first_bad_bitmap(old(devices)@) is None && devices_zeroed(
                old(devices)@,
                final(devices)@,
            ),
            Err(e) => {
                &&& first_bad_bitmap(old(devices)@) == Some(e)
                &&& exists|n: int|
                    #![trigger old(devices)@.take(n)]
                    {
                        &&& 0 <= n < old(devices)@.len()
                        &&& first_bad_bitmap(old(devices)@.take(n)) is None
                        &&& device_bits(old(devices)@[n].1) is Err
                        &&& devices_zeroed(old(devices)@.take(n), final(devices)@.take(n))
                        &&& final(devices)@.skip(n) == old(devices)@.skip(n)
                    }
            },
        },
{
    let mut i: usize = 0;
    while i < devices.len()
        invariant
            i <= devices@.len(),
            devices@.len() == old(devices)@.len(),
            first_bad_bitmap(old(devices)@.take(i as int)) is None,
            forall|k: int|
                0 <= k < i ==> device_zeroed(old(devices)@[k], #[trigger] devices@[k]),
            forall|k: int| i <= k < devices@.len() ==> #[trigger] devices@[k] == old(devices)@[k],
        decreases devices@.len() - i,
    {
        let ghost before = old(devices)@;
        assert(devices@[i as int] == before[i as int]);
        assert(before.take(i + 1).drop_last() =~= before.take(i as int));
        let state = &devices[i].1;
        let bytes = match DiskBitmap::deserialize(
            state.dirty_bitmap.as_slice(),
            state.block_size,
            state.total_blocks,
        ) {
            Ok(bitmap) => {
                let mut bitmap = bitmap;
                bitmap.clear();
                assert(bitmap@ =~= all_clean(state.total_blocks as nat));
                bitmap.serialize()
            },
            Err(e) => {
                proof {
                    lemma_first_bad(before, i + 1);
                    assert(devices@.skip(i as int) =~= before.skip(i as int));
                    assert(devices_zeroed(before.take(i as int), devices@.take(i as int)));
                }
                return Err(e);
            },
        };
        devices[i].1.dirty_bitmap = bytes;
        i += 1;
    }
    assert(old(devices)@.take(i as int) =~= old(devices)@);
    Ok(())
}

// ---- the steps ----

/// A file operation of a flatten run.
#[derive(Debug, Clone, Copy, PartialEq, Eq, Structural)]
pub enum FlattenStep {
    /// See whether the side-car exists; reply with `Exists`.
    CheckSidecar,
    /// Open the base image; reply with `Done` or `Failed`.
    OpenBase,
    /// Apply the delta to the base image; reply with `Applied` or `DeltaFailed`.
    ApplyDelta,
    /// Sync the base image; reply with `Done` or `Failed`.
    SyncBase,
    /// Read the side-car; reply with `Devices` or `Failed`.
    ReadSidecar,
    /// Write the zeroed devices beside the side-car; reply with `Done` or `Failed`.
    WriteSidecar,
    /// Put the new side-car in place; reply with `Done` or `Failed`.
    RenameSidecar,
    /// Remove the new side-car; reply with `Done`.
    RemoveSidecarTmp,
    /// Write the empty delta beside the delta; reply with `Done` or `DeltaFailed`.
    WriteDelta,
    /// Put the empty delta in place; reply with `Done` or `Failed`.
    RenameDelta,
    /// Remove the empty delta; reply with `Done`.
    RemoveDeltaTmp,
    /// Nothing is left to do.
    Finished,
}

/// The result of a step.
#[derive(Debug)]
pub enum FlattenReply {
    /// Whether the file exists.
    Exists(bool),
    /// It was done.
    Done,
    /// It failed.
    Failed(IoError),
    /// The delta was applied, and has this bitmap.
    Applied(DiskBitmap),
    /// The delta could not be applied or written.
    DeltaFailed(DeltaError),
    /// The devices of the side-car.
    Devices(Devices),
}

/// `reply` can be the result of `step`.
pub open spec fn step_answered(step: FlattenStep, reply: FlattenReply) -> bool {
    match step {
        FlattenStep::CheckSidecar => reply is Exists,
        FlattenStep::OpenBase | FlattenStep::SyncBase | FlattenStep::WriteSidecar
        | FlattenStep::RenameSidecar | FlattenStep::RenameDelta => reply is Done || reply is Failed,
        FlattenStep::ApplyDelta => reply is DeltaFailed || (reply matches FlattenReply::Applied(
            bitmap,
        ) && bitmap.wf()),
        FlattenStep::ReadSidecar => reply is Devices || reply is Failed,
        FlattenStep::WriteDelta => reply is Done || reply is DeltaFailed,
        FlattenStep::RemoveSidecarTmp | FlattenStep::RemoveDeltaTmp => reply is Done,
        FlattenStep::Finished => false,
    }
}

/// The step after `step` came out as `reply`. The side-car comes before the delta: a
/// crash in between leaves a delta that is wasteful to replay but never corrupts.
pub open spec fn step_after(step: FlattenStep, reply: FlattenReply) -> FlattenStep {
    match (step, reply) {
        (FlattenStep::CheckSidecar, FlattenReply::Exists(true)) => FlattenStep::OpenBase,
        (FlattenStep::OpenBase, FlattenReply::Done) => FlattenStep::ApplyDelta,
        (FlattenStep::ApplyDelta, FlattenReply::Applied(_)) => FlattenStep::SyncBase,
        (FlattenStep::SyncBase, FlattenReply::Done) => FlattenStep::ReadSidecar,
        (FlattenStep::ReadSidecar, FlattenReply::Devices(devices)) => if first_bad_bitmap(
            devices@,
        ) is None {
            FlattenStep::WriteSidecar
        } else {
            FlattenStep::Finished
        },
        (FlattenStep::WriteSidecar, FlattenReply::Done) => FlattenStep::RenameSidecar,
        (FlattenStep::RenameSidecar, FlattenReply::Done) => FlattenStep::WriteDelta,
        (FlattenStep::WriteSidecar | FlattenStep::RenameSidecar, _) => FlattenStep::RemoveSidecarTmp,
        (FlattenStep::WriteDelta, FlattenReply::Done) => FlattenStep::RenameDelta,
        (FlattenStep::WriteDelta, _) => FlattenStep::RemoveDeltaTmp,
        (FlattenStep::RenameDelta, FlattenReply::Failed(_)) => FlattenStep::RemoveDeltaTmp,
        _ => FlattenStep::Finished,
    }
}

/// `error` is what `reply` to `step` is reported as; `None` if it is no failure.
pub open spec fn step_error(
    step: FlattenStep,
    reply: FlattenReply,
    sidecar_path: Seq<char>,
    error: Option<FlattenError>,
) -> bool {
    match (step, reply) {
        (FlattenStep::CheckSidecar, FlattenReply::Exists(false)) => {
            error matches Some(FlattenError::SidecarNotFound(path)) && path@ == sidecar_path
        },
        (FlattenStep::OpenBase, FlattenReply::Failed(e)) => error == Some(FlattenError::OpenBase(e)),
        (FlattenStep::ApplyDelta, FlattenReply::DeltaFailed(e)) => error == Some(
            FlattenError::ApplyDelta(e),
        ),
        (FlattenStep::SyncBase, FlattenReply::Failed(e)) => error == Some(FlattenError::SyncBase(e)),
        (FlattenStep::ReadSidecar, FlattenReply::Failed(e)) => error == Some(
            FlattenError::ReadSidecar(e),
        ),
        (FlattenStep::ReadSidecar, FlattenReply::Devices(devices)) => match first_bad_bitmap(
            devices@,
        ) {
            Some(e) => error == Some(FlattenError::DeserializeBitmap(e)),
            None => error is None,
        },
        (FlattenStep::WriteSidecar, FlattenReply::Failed(e)) => error == Some(
            FlattenError::WriteSidecar(e),
        ),
        (FlattenStep::RenameSidecar, FlattenReply::Failed(e)) => error == Some(
            FlattenError::RenameSidecar(e),
        ),
        (FlattenStep::WriteDelta, FlattenReply::DeltaFailed(e)) => error == Some(
            FlattenError::WriteEmptyDelta(e),
        ),
        (FlattenStep::RenameDelta, FlattenReply::Failed(e)) => error == Some(
            FlattenError::RenameDelta(e),
        ),
        _ => error is None,
    }
}

/// The path `path` with a further extension.
pub fn with_extra_ext(path: &str, ext: &str) -> (r: String)
    ensures
        r@ == path@ + "."@ + ext@,
{
    let mut s = path.to_owned();
    s.append(".");
    s.append(ext);
    s
}

/// A flatten run.
#[derive(Debug)]
pub struct Flatten {
    base_path: String,
    delta_path: String,
    sidecar_path: String,
    step: FlattenStep,
    error: Option<FlattenError>,
    bitmap: Option<DiskBitmap>,
    devices: Devices,
}

/// Start the run that `cmd` asks for.
pub fn flatten_command(cmd: FlattenSubCommand) -> (run: Flatten)
    ensures
        run.wf(),
        run.current() == FlattenStep::CheckSidecar,
        run.failure() is None,
        run.paths() == match cmd {
            FlattenSubCommand::Run { base_path, delta_path, sidecar_path } => (
                base_path@,
                delta_path@,
                sidecar_path@,
            ),
        },
{
    match cmd {
        FlattenSubCommand::Run { base_path, delta_path, sidecar_path } => Flatten {
            base_path,
            delta_path,
            sidecar_path,
            step: FlattenStep::CheckSidecar,
            error: None,
            bitmap: None,
            devices: Vec::new(),
        },
    }
}

impl Flatten {
    /// The base image, the delta and the side-car.
    pub closed spec fn paths(&self) -> (Seq<char>, Seq<char>, Seq<char>) {
        (self.base_path@, self.delta_path@, self.sidecar_path@)
    }

    /// The step to do next.
    pub closed spec fn current(&self) -> FlattenStep {
        self.step
    }

    /// What the run failed with.
    pub closed spec fn failure(&self) -> Option<FlattenError> {
        self.error
    }

    /// The devices to write to the side-car.
    pub closed spec fn zeroed(&self) -> Seq<(String, OverlayState)> {
        self.devices@
    }

    /// Number and size of the blocks of the delta, once it was applied.
    pub closed spec fn shape(&self) -> Option<(nat, u32)> {
        match self.bitmap {
            Some(bitmap) => Some((bitmap@.len(), bitmap.granularity())),
            None => None,
        }
    }

    /// The bitmap is there from when the delta was applied, and clean.
    pub closed spec fn wf(&self) -> bool {
        &&& self.step is WriteDelta || self.step is SyncBase || self.step is ReadSidecar
            || self.step is WriteSidecar || self.step is RenameSidecar ==> self.bitmap is Some
        &&& self.bitmap is Some ==> self.bitmap->0.wf() && self.bitmap->0@ == all_clean(
            self.bitmap->0@.len(),
        )
        &&& self.step is RemoveSidecarTmp || self.step is RemoveDeltaTmp ==> self.error is Some
        &&& !(self.step is RemoveSidecarTmp || self.step is RemoveDeltaTmp || self.step
            is Finished) ==> self.error is None
    }

    /// The step to do next.
    pub fn step(&self) -> (step: FlattenStep)
        ensures
            step == self.current(),
    {
        self.step
    }

    /// The base image.
    pub fn base_path(&self) -> (path: &str)
        ensures
            path@ == self.paths().0,
    {
        self.base_path.as_str()
    }

    /// The delta.
    pub fn delta_path(&self) -> (path: &str)
        ensures
            path@ == self.paths().1,
    {
        self.delta_path.as_str()
    }

    /// The side-car.
    pub fn sidecar_path(&self) -> (path: &str)
        ensures
            path@ == self.paths().2,
    {
        self.sidecar_path.as_str()
    }

    /// Where the empty delta is written before it is put in place.
    pub fn tmp_delta(&self) -> (path: String)
        ensures
            path@ == self.paths().1 + "."@ + "flatten.tmp"@,
    {
        with_extra_ext(self.delta_path.as_str(), "flatten.tmp")
    }

    /// Where the side-car is written before it is put in place.
    pub fn tmp_sidecar(&self) -> (path: String)
        ensures
            path@ == self.paths().2 + "."@ + "flatten.tmp"@,
    {
        with_extra_ext(self.sidecar_path.as_str(), "flatten.tmp")
    }

    /// The devices to write to the side-car.
    pub fn devices(&self) -> (devices: &Devices)
        ensures
            devices@ == self.zeroed(),
    {
        &self.devices
    }

    /// The bytes of the delta without dirty blocks.
    pub fn empty_delta(&self) -> (bytes: Vec<u8>)
        requires
            self.wf(),
            self.current() is WriteDelta,
        ensures
            match self.shape() {
                Some((n, block_size)) => bytes@ == delta_file(
                    Seq::empty(),
                    all_clean(n),
                    block_size,
                ),
                None => false,
            },
    {
        let nothing: Vec<u8> = Vec::new();
        assert(nothing@ =~= Seq::<u8>::empty());
        match &self.bitmap {
            Some(bitmap) => {
                assert(offsets_fit(bitmap@, bitmap.granularity() as int));
                assert(dirty_within(bitmap@, bitmap.granularity() as int, 0));
                match write_delta(nothing.as_slice(), bitmap) {
                    Ok((bytes, _)) => bytes,
                    Err(_) => nothing,
                }
            },
            None => nothing,
        }
    }

    /// Take the result of the current step.
    pub fn next(self, reply: FlattenReply) -> (run: Self)
        requires
            self.wf(),
            step_answered(self.current(), reply),
        ensures
            run.wf(),
            run.paths() == self.paths(),
            run.current() == step_after(self.current(), reply),
            match self.current() {
                FlattenStep::RemoveSidecarTmp | FlattenStep::RemoveDeltaTmp => run.failure()
                    == self.failure(),
                _ => step_error(self.current(), reply, self.paths().2, run.failure()),
            },
            run.shape() == match reply {
                FlattenReply::Applied(bitmap) => Some((bitmap@.len(), bitmap.granularity())),
                _ => self.shape(),
            },
            match (self.current(), reply) {
                (FlattenStep::ReadSidecar, FlattenReply::Devices(devices)) => first_bad_bitmap(
                    devices@,
                ) is None ==> devices_zeroed(devices@, run.zeroed()),
                _ => run.zeroed() == self.zeroed(),
            },
    {
        let mut run = self;
        match reply {
            FlattenReply::Exists(exists) => {
                if exists {
                    run.step = FlattenStep::OpenBase;
                } else {
                    run.error = Some(FlattenError::SidecarNotFound(run.sidecar_path.clone()));
                    run.step = FlattenStep::Finished;
                }
            },
            FlattenReply::Applied(bitmap) => {
                let mut bitmap = bitmap;
                bitmap.clear();
                assert(bitmap@ =~= all_clean(bitmap@.len()));
                run.bitmap = Some(bitmap);
                run.step = FlattenStep::SyncBase;
            },
            FlattenReply::Devices(devices) => {
                let mut devices = devices;
                match zero_devices(&mut devices) {
                    Ok(_) => {
                        run.devices = devices;
                        run.step = FlattenStep::WriteSidecar;
                    },
                    Err(e) => {
                        run.error = Some(FlattenError::DeserializeBitmap(e));
                        run.step = FlattenStep::Finished;
                    },
                }
            },
            FlattenReply::DeltaFailed(e) => {
                if run.step == FlattenStep::ApplyDelta {
                    run.error = Some(FlattenError::ApplyDelta(e));
                    run.step = FlattenStep::Finished;
                } else {
                    run.error = Some(FlattenError::WriteEmptyDelta(e));
                    run.step = FlattenStep::RemoveDeltaTmp;
                }
            },
            FlattenReply::Failed(e) => {
                let (error, step) = match run.step {
                    FlattenStep::OpenBase => (FlattenError::OpenBase(e), FlattenStep::Finished),
                    FlattenStep::SyncBase => (FlattenError::SyncBase(e), FlattenStep::Finished),
                    FlattenStep::ReadSidecar => (
                        FlattenError::ReadSidecar(e),
                        FlattenStep::Finished,
                    ),
                    FlattenStep::WriteSidecar => (
                        FlattenError::WriteSidecar(e),
                        FlattenStep::RemoveSidecarTmp,
                    ),
                    FlattenStep::RenameSidecar => (
                        FlattenError::RenameSidecar(e),
                        FlattenStep::RemoveSidecarTmp,
                    ),
                    _ => (FlattenError::RenameDelta(e), FlattenStep::RemoveDeltaTmp),
                };
                run.error = Some(error);
                run.step = step;
            },
            FlattenReply::Done => {
                run.step = match run.step {
                    FlattenStep::OpenBase => FlattenStep::ApplyDelta,
                    FlattenStep::SyncBase => FlattenStep::ReadSidecar,
                    FlattenStep::WriteSidecar => FlattenStep::RenameSidecar,
                    FlattenStep::RenameSidecar => FlattenStep::WriteDelta,
                    FlattenStep::WriteDelta => FlattenStep::RenameDelta,
                    _ => FlattenStep::Finished,
                };
            },
        }
        run
    }

    /// The result of a run that is finished.
    pub fn result(self) -> (r: Result<(), FlattenError>)
        requires
            self.current() is Finished,
        ensures
            r == match self.failure() {
                Some(e) => Err(e),
                None => Ok(()),
            },
    {
        match self.error {
            Some(e) => Err(e),
            None => Ok(()),
        }
    }
}

/// The delta is replaced only after the side-car was put in place.
pub proof fn law_sidecar_before_delta(step: FlattenStep, reply: FlattenReply)
    requires
        step_answered(step, reply),
        step_after(step, reply) is WriteDelta || step_after(step, reply) is RenameDelta,
    ensures
        (step is RenameSidecar && reply is Done) || (step is WriteDelta && reply is Done),
{
}

/// What was written beside a file and not put in place is removed before the run ends.
pub proof fn law_failed_write_is_removed(step: FlattenStep, reply: FlattenReply)
    requires
        step_answered(step, reply),
        step is WriteSidecar || step is RenameSidecar || step is WriteDelta || step is RenameDelta,
        !(reply is Done),
    ensures
        step is WriteSidecar || step is RenameSidecar ==> step_after(step, reply)
            is RemoveSidecarTmp,
        step is WriteDelta || step is RenameDelta ==> step_after(step, reply) is RemoveDeltaTmp,
{
}

// ---- on files in memory ----

/// The files of a snapshot; `None` for one that does not exist.
#[derive(Debug)]
pub struct SnapshotFiles {
    pub base: Option<Vec<u8>>,
    pub delta: Option<Vec<u8>>,
    pub sidecar: Option<Devices>,
}

/// `copy` says the same as `devices`.
pub open spec fn same_devices(
    devices: Seq<(String, OverlayState)>,
    copy: Seq<(String, OverlayState)>,
) -> bool {
    &&& copy.len() == devices.len()
    &&& forall|i: int| 0 <= i < devices.len() ==> same_device(devices[i], #[trigger] copy[i])
}

/// `copy` says the same as `device`.
pub open spec fn same_device(device: (String, OverlayState), copy: (String, OverlayState)) -> bool {
    &&& copy.0@ == device.0@
    &&& copy.1.base_path@ == device.1.base_path@
    &&& copy.1.overlay_path@ == device.1.overlay_path@
    &&& copy.1.dirty_bitmap@ == device.1.dirty_bitmap@
    &&& copy.1.block_size == device.1.block_size
    &&& copy.1.total_blocks == device.1.total_blocks
    &&& text_of(copy.1.delta_dir) == text_of(device.1.delta_dir)
}

fn clone_devices(devices: &Devices) -> (copy: Devices)
    ensures
        same_devices(devices@, copy@),
{
    let mut copy: Devices = Vec::new();
    let mut i: usize = 0;
    while i < devices.len()
        invariant
            i <= devices@.len(),
            copy@.len() == i,
            forall|k: int| 0 <= k < i ==> same_device(devices@[k], #[trigger] copy@[k]),
        decreases devices@.len() - i,
    {
        let id = &devices[i].0;
        let state = &devices[i].1;
        let mut dirty_bitmap: Vec<u8> = Vec::new();
        dirty_bitmap.extend_from_slice(state.dirty_bitmap.as_slice());
        assert(dirty_bitmap@ =~= state.dirty_bitmap@);
        let delta_dir = match &state.delta_dir {
            Some(dir) => Some(dir.clone()),
            None => None,
        };
        let entry = (
            id.clone(),
            OverlayState {
                base_path: state.base_path.clone(),
                overlay_path: state.overlay_path.clone(),
                dirty_bitmap,
                block_size: state.block_size,
                total_blocks: state.total_blocks,
                delta_dir,
            },
        );
        assert(same_device(devices@[i as int], entry));
        copy.push(entry);
        i += 1;
    }
    copy
}

/// The verdict on the bitmaps of a copy is that on the bitmaps.
proof fn lemma_same_verdict(
    devices: Seq<(String, OverlayState)>,
    copy: Seq<(String, OverlayState)>,
)
    requires
        same_devices(devices, copy),
    ensures
        first_bad_bitmap(copy) == first_bad_bitmap(devices),
    decreases devices.len(),
{
    if devices.len() > 0 {
        let n = devices.len() - 1;
        assert(same_device(devices[n], copy[n]));
        assert forall|i: int| 0 <= i < devices.drop_last().len() implies same_device(
            devices.drop_last()[i],
            #[trigger] copy.drop_last()[i],
        ) by {
            assert(same_device(devices[i], copy[i]));
        }
        lemma_same_verdict(devices.drop_last(), copy.drop_last());
    }
}

/// Bake the delta into the base image, zero the side-car, and empty the delta. A file
/// that fails leaves those after it as they were; a fault in the data section of the
/// delta leaves the blocks before it in the base.
pub fn flatten(files: &mut SnapshotFiles, cmd: FlattenSubCommand) -> (r: Result<(), FlattenError>)
    ensures
        match (old(files).sidecar, old(files).base, old(files).delta) {
            (None, _, _) => {
                &&& *final(files) == *old(files)
                &&& match (r, cmd) {
                    (
                        Err(FlattenError::SidecarNotFound(path)),
                        FlattenSubCommand::Run { sidecar_path, .. },
                    ) => path@ == sidecar_path@,
                    _ => false,
                }
            },
            (Some(_), None, _) => {
                &&& *final(files) == *old(files)
                &&& r == Err::<(), _>(FlattenError::OpenBase(IoError::Os(ENOENT)))
            },
            (Some(_), Some(_), None) => {
                &&& *final(files) == *old(files)
                &&& r == Err::<(), _>(FlattenError::ApplyDelta(DeltaError::Io(IoError::Os(ENOENT))))
            },
            (Some(devices), Some(base), Some(delta)) => {
                &&& final(files).base is Some
                &&& final(files).base->0@ == applied(base@, delta@).0
                &&& match (applied(base@, delta@).1, first_bad_bitmap(devices@)) {
                    (Err(e), _) => {
                        &&& r == Err::<(), _>(FlattenError::ApplyDelta(e))
                        &&& final(files).sidecar == old(files).sidecar
                        &&& final(files).delta == old(files).delta
                    },
                    (Ok(_), Some(e)) => {
                        &&& r == Err::<(), _>(FlattenError::DeserializeBitmap(e))
                        &&& final(files).sidecar == old(files).sidecar
                        &&& final(files).delta == old(files).delta
                    },
                    (Ok(bits), None) => {
                        &&& r == Ok::<(), FlattenError>(())
                        &&& final(files).sidecar is Some
                        &&& devices_zeroed(devices@, final(files).sidecar->0@)
                        &&& final(files).delta is Some
                        &&& final(files).delta->0@ == delta_file(
                            Seq::empty(),
                            all_clean(bits.len()),
                            u32_at(delta@, 12),
                        )
                    },
                }
            },
        },
{
    let run = flatten_command(cmd);
    let run = run.next(FlattenReply::Exists(files.sidecar.is_some()));
    let devices = match &files.sidecar {
        Some(devices) => clone_devices(devices),
        None => {
            return run.result();
        },
    };
    proof {
        lemma_same_verdict(old(files).sidecar->0@, devices@);
    }
    let mut base = match files.base.take() {
        Some(base) => base,
        None => {
            return run.next(FlattenReply::Failed(IoError::Os(ENOENT))).result();
        },
    };
    let run = run.next(FlattenReply::Done);
    let outcome = match &files.delta {
        Some(delta) => apply_delta(&mut base, delta.as_slice()),
        None => Err(DeltaError::Io(IoError::Os(ENOENT))),
    };
    files.base = Some(base);
    let run = match outcome {
        Ok((bitmap, _)) => run.next(FlattenReply::Applied(bitmap)),
        Err(e) => {
            return run.next(FlattenReply::DeltaFailed(e)).result();
        },
    };
    let run = run.next(FlattenReply::Done);
    let run = run.next(FlattenReply::Devices(devices));
    if run.step() == FlattenStep::Finished {
        return run.result();
    }
    files.sidecar = Some(clone_devices(run.devices()));
    proof {
        lemma_zeroed_copy(
            old(files).sidecar->0@,
            devices@,
            run.zeroed(),
            files.sidecar->0@,
        );
    }
    let run = run.next(FlattenReply::Done).next(FlattenReply::Done);
    files.delta = Some(run.empty_delta());
    run.next(FlattenReply::Done).next(FlattenReply::Done).result()
}

/// A copy of the zeroed devices of a copy is the zeroed devices.
proof fn lemma_zeroed_copy(
    devices: Seq<(String, OverlayState)>,
    copy: Seq<(String, OverlayState)>,
    zeroed: Seq<(String, OverlayState)>,
    written: Seq<(String, OverlayState)>,
)
    requires
        same_devices(devices, copy),
        devices_zeroed(copy, zeroed),
        same_devices(zeroed, written),
    ensures
        devices_zeroed(devices, written),
{
    assert forall|i: int| 0 <= i < devices.len() implies device_zeroed(
        devices[i],
        #[trigger] written[i],
    ) by {
        assert(same_device(devices[i], copy[i]));
        assert(device_zeroed(copy[i], zeroed[i]));
        assert(same_device(zeroed[i], written[i]));
    }
}

/// A bitmap without dirty blocks moves nothing.
proof fn lemma_clean_merge(image: Seq<u8>, overlay: Seq<u8>, n: nat, block_size: int)
    ensures
        merged(image, overlay, all_clean(n), block_size) == image,
{
    let bits = all_clean(n);
    assert(merged(image, overlay, bits, block_size) =~= image);
}

/// Flattening again changes nothing. After a delta was applied to a base, the empty
/// delta that the run leaves applies cleanly to what the base has become and leaves it
/// as it is; the devices that the run leaves have good bitmaps and stay as they are.
pub proof fn law_flatten_is_idempotent(
    base: Seq<u8>,
    delta: Seq<u8>,
    devices: Seq<(String, OverlayState)>,
    zeroed: Seq<(String, OverlayState)>,
)
    requires
        base.len() <= isize::MAX,
        applied(base, delta).1 is Ok,
        first_bad_bitmap(devices) is None,
        devices_zeroed(devices, zeroed),
    ensures
        ({
            let clean = all_clean(applied(base, delta).1->Ok_0.len());
            applied(
                applied(base, delta).0,
                delta_file(Seq::empty(), clean, u32_at(delta, 12)),
            ) == (applied(base, delta).0, Ok::<Seq<bool>, DeltaError>(clean))
        }),
        first_bad_bitmap(zeroed) is None,
        devices_zeroed(zeroed, zeroed),
{
    let bits = applied(base, delta).1->Ok_0;
    let image = applied(base, delta).0;
    let n = bits.len();
    let block_size = u32_at(delta, 12);
    let h = parsed_header(delta)->Ok_0;
    assert(parsed_bitmap(h, delta.skip(36)) == Ok::<_, DeltaError>(bits));
    law_applying_keeps_size(base, delta);
    law_apply_written_delta(image, Seq::empty(), all_clean(n), block_size);
    lemma_clean_merge(image, Seq::empty(), n, block_size as int);
    lemma_zeroed_good(devices, zeroed);
    assert forall|i: int| 0 <= i < zeroed.len() implies device_zeroed(
        zeroed[i],
        #[trigger] zeroed[i],
    ) by {
        assert(device_zeroed(devices[i], zeroed[i]));
    }
}

/// Zeroed devices have good bitmaps.
proof fn lemma_zeroed_good(
    devices: Seq<(String, OverlayState)>,
    zeroed: Seq<(String, OverlayState)>,
)
    requires
        first_bad_bitmap(devices) is None,
        devices_zeroed(devices, zeroed),
    ensures
        first_bad_bitmap(zeroed) is None,
        forall|i: int|
            0 <= i < zeroed.len() ==> device_bits((#[trigger] zeroed[i]).1) == Ok::<
                Seq<bool>,
                DirtyBitmapError,
            >(all_clean(zeroed[i].1.total_blocks as nat)),
    decreases devices.len(),
{
    if devices.len() > 0 {
        let k = devices.len() - 1;
        assert(device_zeroed(devices[k], zeroed[k]));
        assert forall|i: int| 0 <= i < devices.drop_last().len() implies device_zeroed(
            devices.drop_last()[i],
            #[trigger] zeroed.drop_last()[i],
        ) by {
            assert(device_zeroed(devices[i], zeroed[i]));
        }
        lemma_zeroed_good(devices.drop_last(), zeroed.drop_last());
        let state = zeroed[k].1;
        law_unpack_packed(all_clean(state.total_blocks as nat));
        assert(device_bits(state) == Ok::<Seq<bool>, DirtyBitmapError>(
            all_clean(state.total_blocks as nat),
        ));
        assert forall|i: int| 0 <= i < zeroed.len() implies device_bits((#[trigger] zeroed[i]).1)
            == Ok::<Seq<bool>, DirtyBitmapError>(all_clean(zeroed[i].1.total_blocks as nat)) by {
            if i < k {
                assert(zeroed.drop_last()[i] == zeroed[i]);
            }
        }
    }
}

/// After a run every device of the side-car is clean.
pub proof fn law_flattened_sidecar_is_clean(
    devices: Seq<(String, OverlayState)>,
    zeroed: Seq<(String, OverlayState)>,
    i: int,
)
    requires
        first_bad_bitmap(devices) is None,
        devices_zeroed(devices, zeroed),
        0 <= i < zeroed.len(),
    ensures
        device_bits(zeroed[i].1) == Ok::<Seq<bool>, DirtyBitmapError>(
            all_clean(zeroed[i].1.total_blocks as nat),
        ),
{
    lemma_zeroed_good(devices, zeroed);
}

/// Flattening bakes what the guest saw into the base: with the delta of an overlay the
/// base becomes, byte for byte, the disk that the overlay over the base showed. The base
/// must be as large as the disk of the delta.
pub proof fn law_flatten_bakes_visible_disk(
    base: Seq<u8>,
    overlay: Seq<u8>,
    bits: Seq<bool>,
    block_size: u32,
    i: int,
)
    requires
        valid_block_size(block_size),
        1 <= bits.len(),
        packed(bits).len() <= u32::MAX,
        base.len() == bits.len() * block_size,
        base.len() <= isize::MAX,
        dirty_within(bits, block_size as int, overlay.len() as int),
        0 <= i < base.len(),
    ensures
        applied(base, delta_file(overlay, bits, block_size)).1 == Ok::<_, DeltaError>(bits),
        applied(base, delta_file(overlay, bits, block_size)).0.len() == base.len(),
        applied(base, delta_file(overlay, bits, block_size)).0[i] == visible_byte(
            base,
            overlay,
            bits,
            block_size as int,
            i,
        ),
{
    law_apply_written_delta(base, overlay, bits, block_size);
    law_merged_is_visible(base, overlay, bits, block_size as int, i);
}

/// A run that nothing stops goes through all steps in this order: the side-car is looked for,
/// the delta is baked into the base and the base synced; then the side-car is read, written
/// and put in place; and only then the empty delta is written and put in place.
pub proof fn law_steps_of_a_run(bitmap: DiskBitmap, devices: Devices)
    requires
        first_bad_bitmap(devices@) is None,
    ensures
        step_after(FlattenStep::CheckSidecar, FlattenReply::Exists(true)) == FlattenStep::OpenBase,
        step_after(FlattenStep::OpenBase, FlattenReply::Done) == FlattenStep::ApplyDelta,
        step_after(FlattenStep::ApplyDelta, FlattenReply::Applied(bitmap)) == FlattenStep::SyncBase,
        step_after(FlattenStep::SyncBase, FlattenReply::Done) == FlattenStep::ReadSidecar,
        step_after(FlattenStep::ReadSidecar, FlattenReply::Devices(devices))
            == FlattenStep::WriteSidecar,
        step_after(FlattenStep::WriteSidecar, FlattenReply::Done) == FlattenStep::RenameSidecar,
        step_after(FlattenStep::RenameSidecar, FlattenReply::Done) == FlattenStep::WriteDelta,
        step_after(FlattenStep::WriteDelta, FlattenReply::Done) == FlattenStep::RenameDelta,
        step_after(FlattenStep::RenameDelta, FlattenReply::Done) == FlattenStep::Finished,
        step_after(FlattenStep::RemoveSidecarTmp, FlattenReply::Done) == FlattenStep::Finished,
        step_after(FlattenStep::RemoveDeltaTmp, FlattenReply::Done) == FlattenStep::Finished,
{
}

/// A step that fails ends the run, but for what it leaves beside a file, which is removed
/// first. The error says which step it was and carries what went wrong.
pub proof fn law_failures_are_reported(
    e: IoError,
    d: DeltaError,
    devices: Devices,
    path: Seq<char>,
    error: Option<FlattenError>,
)
    ensures
        step_after(FlattenStep::CheckSidecar, FlattenReply::Exists(false)) == FlattenStep::Finished,
        step_error(FlattenStep::CheckSidecar, FlattenReply::Exists(false), path, error) <==> (error
            matches Some(FlattenError::SidecarNotFound(p)) && p@ == path),
        step_after(FlattenStep::OpenBase, FlattenReply::Failed(e)) == FlattenStep::Finished,
        step_error(FlattenStep::OpenBase, FlattenReply::Failed(e), path, error) <==> error == Some(
            FlattenError::OpenBase(e),
        ),
        step_after(FlattenStep::ApplyDelta, FlattenReply::DeltaFailed(d)) == FlattenStep::Finished,
        step_error(FlattenStep::ApplyDelta, FlattenReply::DeltaFailed(d), path, error) <==> error
            == Some(FlattenError::ApplyDelta(d)),
        step_after(FlattenStep::SyncBase, FlattenReply::Failed(e)) == FlattenStep::Finished,
        step_error(FlattenStep::SyncBase, FlattenReply::Failed(e), path, error) <==> error == Some(
            FlattenError::SyncBase(e),
        ),
        step_after(FlattenStep::ReadSidecar, FlattenReply::Failed(e)) == FlattenStep::Finished,
        step_error(FlattenStep::ReadSidecar, FlattenReply::Failed(e), path, error) <==> error
            == Some(FlattenError::ReadSidecar(e)),
        first_bad_bitmap(devices@) matches Some(bad) ==> {
            &&& step_after(FlattenStep::ReadSidecar, FlattenReply::Devices(devices))
                == FlattenStep::Finished
            &&& step_error(FlattenStep::ReadSidecar, FlattenReply::Devices(devices), path, error)
                <==> error == Some(FlattenError::DeserializeBitmap(bad))
        },
        step_error(FlattenStep::WriteSidecar, FlattenReply::Failed(e), path, error) <==> error
            == Some(FlattenError::WriteSidecar(e)),
        step_error(FlattenStep::RenameSidecar, FlattenReply::Failed(e), path, error) <==> error
            == Some(FlattenError::RenameSidecar(e)),
        step_error(FlattenStep::WriteDelta, FlattenReply::DeltaFailed(d), path, error) <==> error
            == Some(FlattenError::WriteEmptyDelta(d)),
        step_error(FlattenStep::RenameDelta, FlattenReply::Failed(e), path, error) <==> error
            == Some(FlattenError::RenameDelta(e)),
{
}

/// A step that does not fail reports nothing.
pub proof fn law_success_is_no_error(
    step: FlattenStep,
    bitmap: DiskBitmap,
    devices: Devices,
    path: Seq<char>,
    error: Option<FlattenError>,
)
    requires
        first_bad_bitmap(devices@) is None,
    ensures
        step_error(step, FlattenReply::Done, path, error) <==> error is None,
        step_error(step, FlattenReply::Exists(true), path, error) <==> error is None,
        step_error(step, FlattenReply::Applied(bitmap), path, error) <==> error is None,
        step_error(step, FlattenReply::Devices(devices), path, error) <==> error is None,
{
}

/// The verdict on the bitmaps of some devices is that on the first bad one, and without a
/// bad one there is none.
pub proof fn law_first_bad_bitmap(devices: Seq<(String, OverlayState)>, i: int)
    requires
        0 <= i < devices.len(),
    ensures
        ({
            let verdict = |k: int|
                deserialized(
                    devices[k].1.dirty_bitmap@,
                    devices[k].1.block_size,
                    devices[k].1.total_blocks,
                );
            &&& first_bad_bitmap(devices) is None <==> (forall|k: int|
                0 <= k < devices.len() ==> #[trigger] verdict(k) is Ok)
            &&& (forall|k: int| 0 <= k < i ==> #[trigger] verdict(k) is Ok) && verdict(i) is Err
                ==> first_bad_bitmap(devices) == Some(verdict(i)->Err_0)
        }),
    decreases devices.len(),
{
    let verdict = |k: int|
        deserialized(
            devices[k].1.dirty_bitmap@,
            devices[k].1.block_size,
            devices[k].1.total_blocks,
        );
    let front = devices.drop_last();
    let n = devices.len() - 1;
    let less = |k: int|
        deserialized(front[k].1.dirty_bitmap@, front[k].1.block_size, front[k].1.total_blocks);
    assert(forall|k: int| 0 <= k < n ==> #[trigger] less(k) == verdict(k));
    assert(forall|k: int| 0 <= k < n ==> #[trigger] verdict(k) == less(k));
    assert(device_bits(devices.last().1) == verdict(n));
    if n > 0 {
        law_first_bad_bitmap(
            front,
            if i < n {
                i
            } else {
                0
            },
        );
    }
    if forall|k: int| 0 <= k < devices.len() ==> #[trigger] verdict(k) is Ok {
        assert(verdict(n) is Ok);
    }
}

/// A zeroed device has a bitmap of zero bytes only, as many as its blocks need, and is in
/// everything else what it was.
pub proof fn law_zeroed_device(
    before: (String, OverlayState),
    after: (String, OverlayState),
    j: int,
)
    requires
        device_zeroed(before, after),
    ensures
        after.1.dirty_bitmap@.len() == (before.1.total_blocks + 7) / 8,
        0 <= j < after.1.dirty_bitmap@.len() ==> after.1.dirty_bitmap@[j] == 0,
        after.0@ == before.0@,
        after.1.base_path@ == before.1.base_path@,
        after.1.overlay_path@ == before.1.overlay_path@,
        after.1.block_size == before.1.block_size,
        after.1.total_blocks == before.1.total_blocks,
        before.1.delta_dir is None ==> after.1.delta_dir is None,
        before.1.delta_dir matches Some(dir) ==> (after.1.delta_dir matches Some(d) && d@ == dir@),
{
    let clean = all_clean(before.1.total_blocks as nat);
    law_packed_bits(clean, 0);
    if 0 <= j < after.1.dirty_bitmap@.len() {
        lemma_clean_byte(clean, j);
    }
}

/// Without a dirty block the bytes of the serialized form are zero.
proof fn lemma_clean_byte(bits: Seq<bool>, j: int)
    requires
        forall|b: int| 0 <= b < bits.len() ==> !#[trigger] bits[b],
        0 <= j < packed(bits).len(),
    ensures
        packed(bits)[j] == 0,
{
    let byte = packed(bits)[j];
    assert forall|i: int| 0 <= i < 8 implies (byte >> (#[trigger] (i as u8))) & 1u8 != 1u8 by {
        law_packed_bits(bits, 8 * j + i);
        assert((8 * j + i) / 8 == j && (8 * j + i) % 8 == i);
    }
    assert((byte >> (0int as u8)) & 1u8 != 1u8 && (byte >> (1int as u8)) & 1u8 != 1u8 && (byte >> (
    2int as u8)) & 1u8 != 1u8 && (byte >> (3int as u8)) & 1u8 != 1u8 && (byte >> (4int as u8)) & 1u8
        != 1u8 && (byte >> (5int as u8)) & 1u8 != 1u8 && (byte >> (6int as u8)) & 1u8 != 1u8 && (byte
        >> (7int as u8)) & 1u8 != 1u8);
    assert(byte == 0) by (bit_vector)
        requires
            (byte >> 0u8) & 1u8 != 1u8,
            (byte >> 1u8) & 1u8 != 1u8,
            (byte >> 2u8) & 1u8 != 1u8,
            (byte >> 3u8) & 1u8 != 1u8,
            (byte >> 4u8) & 1u8 != 1u8,
            (byte >> 5u8) & 1u8 != 1u8,
            (byte >> 6u8) & 1u8 != 1u8,
            (byte >> 7u8) & 1u8 != 1u8,
    ;
}

/// A clean bitmap has as many blocks as asked for, and none is dirty.
pub proof fn law_clean_bitmap(n: nat, b: int)
    ensures
        all_clean(n).len() == n,
        0 <= b < n ==> !all_clean(n)[b],
{
}

/// A further extension is put behind the path with a dot between.
pub proof fn law_extra_extension(path: &str, ext: &str, r: String)
    requires
        call_ensures(with_extra_ext, (path, ext), r),
    ensures
        r@ == path@.push('.') + ext@,
{
    reveal_strlit(".");
    assert(path@ + "."@ =~= path@.push('.'));
}

} // verus!
