//! Saving and restoring block devices.
use vstd::prelude::*;

use crate::disk_bitmap::{
    deserialized, law_unpack_packed, packed, DiskBitmap, DEFAULT_BLOCK_SIZE,
};
use crate::overlay_io::OverlayIoError;
use crate::text::chars_of;

verus! {

/// The feature bit of a read-only device.
pub const VIRTIO_BLK_F_RO: u64 = 5;

/// Bytes per sector.
pub const SECTOR_SIZE: u32 = 512;

/// How the file behind a device is accessed.
#[derive(Debug, Clone, Copy, PartialEq, Eq, Structural)]
pub enum FileEngineType {
    /// Synchronously.
    Sync,
    /// Asynchronously.
    Async,
    /// Synchronously, as an overlay over a base.
    Overlay,
}

impl Default for FileEngineType {
    fn default() -> (t: Self)
        ensures
            t == FileEngineType::Sync,
    {
        FileEngineType::Sync
    }
}

/// The file engine of a device as a snapshot holds it. A snapshot that holds none was
/// taken with the synchronous engine.
#[derive(Debug, Clone, Copy, PartialEq, Eq, Structural)]
pub enum FileEngineTypeState {
    /// Synchronous.
    Sync,
    /// Asynchronous.
    Async,
    /// Overlay.
    Overlay,
}

impl Default for FileEngineTypeState {
    fn default() -> (t: Self)
        ensures
            t == FileEngineTypeState::Sync,
    {
        FileEngineTypeState::Sync
    }
}

/// The saved form of `t`.
pub open spec fn engine_state_of(t: FileEngineType) -> FileEngineTypeState {
    match t {
        FileEngineType::Sync => FileEngineTypeState::Sync,
        FileEngineType::Async => FileEngineTypeState::Async,
        FileEngineType::Overlay => FileEngineTypeState::Overlay,
    }
}

/// What `t` is the saved form of.
pub open spec fn engine_of(t: FileEngineTypeState) -> FileEngineType {
    match t {
        FileEngineTypeState::Sync => FileEngineType::Sync,
        FileEngineTypeState::Async => FileEngineType::Async,
        FileEngineTypeState::Overlay => FileEngineType::Overlay,
    }
}

impl From<FileEngineType> for FileEngineTypeState {
    fn from(t: FileEngineType) -> (r: Self) {
        match t {
            FileEngineType::Sync => FileEngineTypeState::Sync,
            FileEngineType::Async => FileEngineTypeState::Async,
            FileEngineType::Overlay => FileEngineTypeState::Overlay,
        }
    }
}

impl vstd::std_specs::convert::FromSpecImpl<FileEngineType> for FileEngineTypeState {
    open spec fn obeys_from_spec() -> bool {
        true
    }

    open spec fn from_spec(t: FileEngineType) -> Self {
        engine_state_of(t)
    }
}

impl From<FileEngineTypeState> for FileEngineType {
    fn from(t: FileEngineTypeState) -> (r: Self) {
        match t {
            FileEngineTypeState::Sync => FileEngineType::Sync,
            FileEngineTypeState::Async => FileEngineType::Async,
            FileEngineTypeState::Overlay => FileEngineType::Overlay,
        }
    }
}

impl vstd::std_specs::convert::FromSpecImpl<FileEngineTypeState> for FileEngineType {
    open spec fn obeys_from_spec() -> bool {
        true
    }

    open spec fn from_spec(t: FileEngineTypeState) -> Self {
        engine_of(t)
    }
}

/// Saving and restoring a file engine type gives it back.
pub proof fn law_engine_type_survives(t: FileEngineType, saved: FileEngineTypeState)
    ensures
        engine_of(engine_state_of(t)) == t,
        engine_state_of(engine_of(saved)) == saved,
{
}

/// When data reaches the disk.
#[derive(Debug, Clone, Copy, PartialEq, Eq, Structural)]
pub enum CacheType {
    /// The guest's flushes are ignored.
    Unsafe,
    /// The guest's flushes are passed on.
    Writeback,
}

/// What a snapshot keeps of an overlay, next to the device.
#[derive(Debug, PartialEq, Eq)]
pub struct OverlayState {
    /// The read-only base image.
    pub base_path: String,
    /// The writable overlay.
    pub overlay_path: String,
    /// The serialized dirty bitmap.
    pub dirty_bitmap: Vec<u8>,
    /// Bytes per block.
    pub block_size: u32,
    /// Blocks in the bitmap.
    pub total_blocks: u64,
    /// Where to look for a delta to clone from. Set at restore, never saved.
    pub delta_dir: Option<String>,
}

/// The kinds of virtio devices, as far as they are used.
#[derive(Debug, Clone, Copy, PartialEq, Eq, Structural)]
pub enum VirtioDeviceType {
    Block,
}

/// The state of the queues of a device in their own serialized form.
#[derive(Debug, PartialEq, Eq)]
pub struct QueuesState {
    pub saved: Vec<u8>,
}

/// The virtio part of a device.
#[derive(Debug, PartialEq, Eq)]
pub struct VirtioDeviceState {
    /// The features that the device offers.
    pub avail_features: u64,
    /// The features that the driver took.
    pub acked_features: u64,
    /// Its queues.
    pub queues: QueuesState,
}

/// The state of a rate limiter in its own serialized form.
#[derive(Debug, PartialEq, Eq)]
pub struct RateLimiterState {
    pub saved: Vec<u8>,
}

/// What a snapshot keeps of a block device.
#[derive(Debug, PartialEq, Eq)]
pub struct VirtioBlockState {
    pub id: String,
    pub partuuid: Option<String>,
    pub cache_type: CacheType,
    pub root_device: bool,
    pub disk_path: String,
    pub virtio_state: VirtioDeviceState,
    pub rate_limiter_state: RateLimiterState,
    pub file_engine_type: FileEngineTypeState,
    /// Present for overlays only. Kept in a side-car file, so that snapshots stay
    /// readable for a VMM that knows nothing of overlays.
    pub overlay_state: Option<OverlayState>,
}

/// The file engine of a disk, as far as it is saved.
#[derive(Debug)]
pub enum FileEngine {
    Sync,
    Async,
    /// An overlay with this dirty bitmap.
    Overlay(DiskBitmap),
}

/// The disk of a device.
#[derive(Debug)]
pub struct DiskProperties {
    /// The file, or the overlay.
    pub file_path: String,
    /// The base of an overlay.
    pub base_path: Option<String>,
    pub file_engine: FileEngine,
    /// Its size in sectors.
    pub nsectors: u64,
}

/// The configuration space of a block device, as far as it is used.
#[derive(Debug, Clone, Copy, PartialEq, Eq, Structural)]
pub struct ConfigSpace {
    pub capacity: u64,
    pub max_discard_sectors: u32,
    pub max_discard_seg: u32,
    pub discard_sector_alignment: u32,
}

/// Whether the driver has started the device.
#[derive(Debug, Clone, Copy, PartialEq, Eq, Structural)]
pub enum DeviceState {
    Inactive,
    Activated,
}

/// A block device.
#[derive(Debug)]
pub struct VirtioBlock {
    pub avail_features: u64,
    pub acked_features: u64,
    pub queues: QueuesState,
    pub config_space: ConfigSpace,
    pub device_state: DeviceState,
    pub id: String,
    pub partuuid: Option<String>,
    pub cache_type: CacheType,
    pub root_device: bool,
    pub read_only: bool,
    pub disk: DiskProperties,
    pub rate_limiter_state: RateLimiterState,
}

/// Why a device could not be restored.
#[derive(Debug, Clone, Copy, PartialEq, Eq, Structural)]
pub enum VirtioBlockError {
    /// The file engine could not be made.
    FileEngine(OverlayIoError),
}

/// Where the disk of a restored device comes from.
#[derive(Debug)]
pub enum DiskSource {
    /// A fresh overlay that a delta is applied to.
    Delta { base_path: String, overlay_path: String, delta_path: String },
    /// An overlay with this bitmap.
    Bitmap { base_path: String, overlay_path: String, block_size: u32, bitmap: DiskBitmap },
    /// A plain file.
    Plain { disk_path: String, read_only: bool, engine: FileEngineType },
}

/// The text of an optional string.
pub open spec fn text_of(s: Option<String>) -> Option<Seq<char>> {
    match s {
        Some(s) => Some(s@),
        None => None,
    }
}

fn clone_text(s: &Option<String>) -> (r: Option<String>)
    ensures
        text_of(r) == text_of(*s),
{
    match s {
        Some(s) => Some(s.clone()),
        None => None,
    }
}

fn clone_bytes(bytes: &Vec<u8>) -> (r: Vec<u8>)
    ensures
        r@ == bytes@,
{
    let mut copy: Vec<u8> = Vec::new();
    copy.extend_from_slice(bytes.as_slice());
    assert(copy@ =~= bytes@);
    copy
}

/// The kind of `engine`.
pub open spec fn engine_type_of(engine: FileEngine) -> FileEngineType {
    match engine {
        FileEngine::Sync => FileEngineType::Sync,
        FileEngine::Async => FileEngineType::Async,
        FileEngine::Overlay(_) => FileEngineType::Overlay,
    }
}

/// `overlay` is what is saved of the overlay `disk` with the bitmap `bitmap`.
pub open spec fn overlay_saved(
    disk: DiskProperties,
    bitmap: DiskBitmap,
    overlay: OverlayState,
) -> bool {
    &&& overlay.base_path@ == match disk.base_path {
        Some(path) => path@,
        None => Seq::empty(),
    }
    &&& overlay.overlay_path@ == disk.file_path@
    &&& overlay.dirty_bitmap@ == packed(bitmap@)
    &&& overlay.block_size == bitmap.granularity()
    &&& overlay.total_blocks == bitmap@.len()
    &&& overlay.delta_dir is None
}

/// `state` is what is saved of `block`.
pub open spec fn block_saved(block: VirtioBlock, state: VirtioBlockState) -> bool {
    &&& state.id@ == block.id@
    &&& text_of(state.partuuid) == text_of(block.partuuid)
    &&& state.cache_type == block.cache_type
    &&& state.root_device == block.root_device
    &&& state.disk_path@ == block.disk.file_path@
    &&& state.virtio_state.avail_features == block.avail_features
    &&& state.virtio_state.acked_features == block.acked_features
    &&& state.virtio_state.queues.saved@ == block.queues.saved@
    &&& state.rate_limiter_state.saved@ == block.rate_limiter_state.saved@
    &&& state.file_engine_type == engine_state_of(engine_type_of(block.disk.file_engine))
    &&& match block.disk.file_engine {
        FileEngine::Overlay(bitmap) => state.overlay_state is Some && overlay_saved(
            block.disk,
            bitmap,
            state.overlay_state->0,
        ),
        _ => state.overlay_state is None,
    }
}

/// `r` is the overlay with the bitmap that `overlay` holds, or what is wrong with it.
pub open spec fn bitmap_restored(
    overlay: OverlayState,
    r: Result<DiskSource, VirtioBlockError>,
) -> bool {
    match (deserialized(overlay.dirty_bitmap@, overlay.block_size, overlay.total_blocks), r) {
        (Ok(bits), Ok(DiskSource::Bitmap { base_path, overlay_path, block_size, bitmap })) => {
            &&& base_path@ == overlay.base_path@
            &&& overlay_path@ == overlay.overlay_path@
            &&& block_size == overlay.block_size
            &&& bitmap.wf()
            &&& bitmap@ == bits
            &&& bitmap.granularity() == overlay.block_size
        },
        (Err(e), Err(refused)) => refused == VirtioBlockError::FileEngine(
            OverlayIoError::Bitmap(e),
        ),
        _ => false,
    }
}

/// `r` is where the disk of the device in `state` comes from, when the delta that was
/// looked for exists or not.
pub open spec fn source_found(
    state: VirtioBlockState,
    delta_exists: bool,
    r: Result<DiskSource, VirtioBlockError>,
) -> bool {
    match state.overlay_state {
        Some(overlay) => if delta_exists && delta_path_of(state) is Some {
            r matches Ok(DiskSource::Delta { base_path, overlay_path, delta_path }) && base_path@
                == overlay.base_path@ && overlay_path@ == overlay.overlay_path@ && Some(delta_path@)
                == delta_path_of(state)
        } else {
            bitmap_restored(overlay, r)
        },
        None => r matches Ok(DiskSource::Plain { disk_path, read_only, engine }) && disk_path@
            == state.disk_path@ && read_only == offers_read_only(state.virtio_state.avail_features)
            && engine == engine_of(state.file_engine_type),
    }
}

/// `r` is the disk of `nsectors` sectors that `source` was opened to, where applying the
/// delta gave `applied`.
pub open spec fn disk_opened(
    source: DiskSource,
    nsectors: u64,
    applied: Option<DiskBitmap>,
    r: Result<DiskProperties, VirtioBlockError>,
) -> bool {
    match (source, r) {
        (DiskSource::Delta { base_path, overlay_path, .. }, Ok(disk)) => {
            &&& disk.file_path@ == overlay_path@
            &&& text_of(disk.base_path) == Some(base_path@)
            &&& disk.nsectors == nsectors
            &&& applied is Some
            &&& disk.file_engine == FileEngine::Overlay(applied->0)
        },
        (DiskSource::Bitmap { base_path, overlay_path, bitmap, .. }, Ok(disk)) => {
            &&& disk.file_path@ == overlay_path@
            &&& text_of(disk.base_path) == Some(base_path@)
            &&& disk.nsectors == nsectors
            &&& disk.file_engine == FileEngine::Overlay(bitmap)
        },
        (DiskSource::Plain { disk_path, engine, .. }, Ok(disk)) => {
            &&& engine != FileEngineType::Overlay
            &&& disk.file_path@ == disk_path@
            &&& disk.base_path is None
            &&& disk.nsectors == nsectors
            &&& engine_type_of(disk.file_engine) == engine
        },
        (DiskSource::Plain { engine, .. }, Err(e)) => {
            &&& engine == FileEngineType::Overlay
            &&& e == VirtioBlockError::FileEngine(OverlayIoError::NotConstructibleFromFile)
        },
        _ => false,
    }
}

/// `block` is the device in `state` with the disk `disk`.
pub open spec fn block_restored(
    state: VirtioBlockState,
    disk: DiskProperties,
    block: VirtioBlock,
) -> bool {
    &&& block.avail_features == state.virtio_state.avail_features
    &&& block.acked_features == state.virtio_state.acked_features
    &&& block.queues.saved@ == state.virtio_state.queues.saved@
    &&& block.config_space == config_space_of(state.file_engine_type, disk.nsectors)
    &&& block.device_state == DeviceState::Inactive
    &&& block.id@ == state.id@
    &&& text_of(block.partuuid) == text_of(state.partuuid)
    &&& block.cache_type == state.cache_type
    &&& block.root_device == state.root_device
    &&& block.read_only == offers_read_only(state.virtio_state.avail_features)
    &&& block.disk == disk
    &&& block.rate_limiter_state.saved@ == state.rate_limiter_state.saved@
}

/// The path of `name` in the directory `dir`.
pub open spec fn joined_path(dir: Seq<char>, name: Seq<char>) -> Seq<char> {
    if name.len() > 0 && name[0] == '/' {
        name
    } else if dir.len() == 0 || dir.last() == '/' {
        dir + name
    } else {
        dir + "/"@ + name
    }
}

/// The path of `name` in the directory `dir`. An absolute `name` stands for itself.
pub fn join_path(dir: &str, name: &str) -> (path: String)
    ensures
        path@ == joined_path(dir@, name@),
{
    let dir_chars = chars_of(dir);
    let name_chars = chars_of(name);
    if name_chars.len() > 0 && name_chars[0] == '/' {
        return name.to_owned();
    }
    let mut path = dir.to_owned();
    if dir_chars.len() > 0 && dir_chars[dir_chars.len() - 1] != '/' {
        path.append("/");
    }
    path.append(name);
    path
}

/// The path of the delta that the device is cloned from, if a directory is set.
pub open spec fn delta_path_of(state: VirtioBlockState) -> Option<Seq<char>> {
    match state.overlay_state {
        Some(overlay) => match overlay.delta_dir {
            Some(dir) => Some(joined_path(dir@, state.id@ + ".delta"@)),
            None => None,
        },
        None => None,
    }
}

impl DiskSource {
    /// The disk of `nsectors` sectors that this was opened to. A delta was applied to the
    /// overlay, and gave the bitmap `applied`. An overlay takes two files, so that a plain
    /// file makes none.
    pub fn into_disk(self, nsectors: u64, applied: Option<DiskBitmap>) -> (r: Result<
        DiskProperties,
        VirtioBlockError,
    >)
        requires
            self is Delta ==> applied is Some,
        ensures
            disk_opened(self, nsectors, applied, r),
    {
        match self {
            DiskSource::Delta { base_path, overlay_path, .. } => Ok(
                DiskProperties {
                    file_path: overlay_path,
                    base_path: Some(base_path),
                    file_engine: FileEngine::Overlay(applied.unwrap()),
                    nsectors,
                },
            ),
            DiskSource::Bitmap { base_path, overlay_path, bitmap, .. } => Ok(
                DiskProperties {
                    file_path: overlay_path,
                    base_path: Some(base_path),
                    file_engine: FileEngine::Overlay(bitmap),
                    nsectors,
                },
            ),
            DiskSource::Plain { disk_path, engine, .. } => {
                let file_engine = match engine {
                    FileEngineType::Sync => FileEngine::Sync,
                    FileEngineType::Async => FileEngine::Async,
                    FileEngineType::Overlay => {
                        return Err(
                            VirtioBlockError::FileEngine(OverlayIoError::NotConstructibleFromFile),
                        );
                    },
                };
                Ok(DiskProperties { file_path: disk_path, base_path: None, file_engine, nsectors })
            },
        }
    }
}

impl VirtioBlock {
    /// What every device has: an overlay has a base and a bitmap, a plain file has
    /// none, and the features and the configuration space say what the device is.
    pub open spec fn wf(&self) -> bool {
        &&& match self.disk.file_engine {
            FileEngine::Overlay(bitmap) => bitmap.wf() && self.disk.base_path is Some,
            _ => self.disk.base_path is None,
        }
        &&& self.read_only == offers_read_only(self.avail_features)
        &&& self.config_space == config_space_of(
            engine_state_of(engine_type_of(self.disk.file_engine)),
            self.disk.nsectors,
        )
    }

    /// What kind of device this is.
    pub fn device_type(&self) -> (t: VirtioDeviceType)
        ensures
            t == VirtioDeviceType::Block,
    {
        VirtioDeviceType::Block
    }

    /// Whether the driver has started the device.
    pub fn is_activated(&self) -> (r: bool)
        ensures
            r == (self.device_state == DeviceState::Activated),
    {
        self.device_state == DeviceState::Activated
    }

    /// The kind of the file engine.
    pub fn file_engine_type(&self) -> (t: FileEngineType)
        ensures
            t == engine_type_of(self.disk.file_engine),
    {
        match &self.disk.file_engine {
            FileEngine::Sync => FileEngineType::Sync,
            FileEngine::Async => FileEngineType::Async,
            FileEngine::Overlay(_) => FileEngineType::Overlay,
        }
    }

    /// What a snapshot keeps of the device.
    pub fn save(&self) -> (state: VirtioBlockState)
        requires
            self.disk.file_engine matches FileEngine::Overlay(bitmap) ==> bitmap.wf(),
        ensures
            block_saved(*self, state),
    {
        let overlay_state = match &self.disk.file_engine {
            FileEngine::Overlay(bitmap) => {
                let base_path = match &self.disk.base_path {
                    Some(path) => path.clone(),
                    None => String::new(),
                };
                Some(
                    OverlayState {
                        base_path,
                        overlay_path: self.disk.file_path.clone(),
                        dirty_bitmap: bitmap.serialize(),
                        block_size: bitmap.block_size(),
                        total_blocks: bitmap.total_blocks(),
                        delta_dir: None,
                    },
                )
            },
            _ => None,
        };
        VirtioBlockState {
            id: self.id.clone(),
            partuuid: clone_text(&self.partuuid),
            cache_type: self.cache_type,
            root_device: self.root_device,
            disk_path: self.disk.file_path.clone(),
            virtio_state: VirtioDeviceState {
                avail_features: self.avail_features,
                acked_features: self.acked_features,
                queues: QueuesState { saved: clone_bytes(&self.queues.saved) },
            },
            rate_limiter_state: RateLimiterState {
                saved: clone_bytes(&self.rate_limiter_state.saved),
            },
            file_engine_type: FileEngineTypeState::from(self.file_engine_type()),
            overlay_state,
        }
    }

    /// The overlay with the bitmap that the snapshot holds.
    pub fn restore_overlay_from_bitmap(overlay: &OverlayState) -> (r: Result<
        DiskSource,
        VirtioBlockError,
    >)
        ensures
            bitmap_restored(*overlay, r),
    {
        match DiskBitmap::deserialize(
            overlay.dirty_bitmap.as_slice(),
            overlay.block_size,
            overlay.total_blocks,
        ) {
            Ok(bitmap) => Ok(
                DiskSource::Bitmap {
                    base_path: overlay.base_path.clone(),
                    overlay_path: overlay.overlay_path.clone(),
                    block_size: overlay.block_size,
                    bitmap,
                },
            ),
            Err(e) => Err(VirtioBlockError::FileEngine(OverlayIoError::Bitmap(e))),
        }
    }

    /// The delta to look for when the device is restored.
    pub fn delta_path(state: &VirtioBlockState) -> (path: Option<String>)
        ensures
            text_of(path) == delta_path_of(*state),
    {
        match &state.overlay_state {
            Some(overlay) => match &overlay.delta_dir {
                Some(dir) => {
                    let mut name = state.id.clone();
                    name.append(".delta");
                    Some(join_path(dir.as_str(), name.as_str()))
                },
                None => None,
            },
            None => None,
        }
    }

    /// Where the disk of the restored device comes from, when the delta that was looked
    /// for exists or not: a delta is applied to a fresh overlay, without one the saved
    /// bitmap is used, and a device that is no overlay has a plain file.
    pub fn disk_source(state: &VirtioBlockState, delta_exists: bool) -> (r: Result<
        DiskSource,
        VirtioBlockError,
    >)
        ensures
            source_found(*state, delta_exists, r),
    {
        match &state.overlay_state {
            Some(overlay) => {
                if delta_exists {
                    if let Some(delta_path) = Self::delta_path(state) {
                        return Ok(
                            DiskSource::Delta {
                                base_path: overlay.base_path.clone(),
                                overlay_path: overlay.overlay_path.clone(),
                                delta_path,
                            },
                        );
                    }
                }
                Self::restore_overlay_from_bitmap(overlay)
            },
            None => Ok(
                DiskSource::Plain {
                    disk_path: state.disk_path.clone(),
                    read_only: is_read_only(state.virtio_state.avail_features),
                    engine: FileEngineType::from(state.file_engine_type),
                },
            ),
        }
    }

    /// The device that `state` was saved of, with the disk `disk`. It is not activated,
    /// and the discard fields of its configuration space are those of a device that is
    /// created as an overlay.
    pub fn restore(state: &VirtioBlockState, disk: DiskProperties) -> (block: Self)
        ensures
            block_restored(*state, disk, block),
    {
        let mut config_space = ConfigSpace {
            capacity: disk.nsectors,
            max_discard_sectors: 0,
            max_discard_seg: 0,
            discard_sector_alignment: 0,
        };
        if state.file_engine_type == FileEngineTypeState::Overlay {
            config_space.max_discard_sectors = u32::MAX;
            config_space.max_discard_seg = 1;
            config_space.discard_sector_alignment = DEFAULT_BLOCK_SIZE / SECTOR_SIZE;
        }
        VirtioBlock {
            avail_features: state.virtio_state.avail_features,
            acked_features: state.virtio_state.acked_features,
            queues: QueuesState { saved: clone_bytes(&state.virtio_state.queues.saved) },
            config_space,
            device_state: DeviceState::Inactive,
            id: state.id.clone(),
            partuuid: clone_text(&state.partuuid),
            cache_type: state.cache_type,
            root_device: state.root_device,
            read_only: is_read_only(state.virtio_state.avail_features),
            disk,
            rate_limiter_state: RateLimiterState {
                saved: clone_bytes(&state.rate_limiter_state.saved),
            },
        }
    }
}

/// The configuration space of a restored device.
pub open spec fn config_space_of(engine: FileEngineTypeState, nsectors: u64) -> ConfigSpace {
    if engine == FileEngineTypeState::Overlay {
        ConfigSpace {
            capacity: nsectors,
            max_discard_sectors: u32::MAX,
            max_discard_seg: 1,
            discard_sector_alignment: 8,
        }
    } else {
        ConfigSpace {
            capacity: nsectors,
            max_discard_sectors: 0,
            max_discard_seg: 0,
            discard_sector_alignment: 0,
        }
    }
}

/// The features say that the device is read-only.
pub open spec fn offers_read_only(avail_features: u64) -> bool {
    avail_features & (1u64 << VIRTIO_BLK_F_RO) != 0
}

/// Whether the features say that the device is read-only.
pub fn is_read_only(avail_features: u64) -> (r: bool)
    ensures
        r == offers_read_only(avail_features),
        r <==> avail_features / 32 % 2 == 1,
{
    proof {
        law_read_only_is_bit_five(avail_features);
    }
    avail_features & (1u64 << VIRTIO_BLK_F_RO) != 0
}

/// The bitmap of a saved overlay is the bitmap of the overlay.
pub proof fn law_saved_bitmap_restores(
    disk: DiskProperties,
    bitmap: DiskBitmap,
    overlay: OverlayState,
)
    requires
        bitmap.wf(),
        overlay_saved(disk, bitmap, overlay),
    ensures
        deserialized(overlay.dirty_bitmap@, overlay.block_size, overlay.total_blocks)
            == Ok::<Seq<bool>, crate::disk_bitmap::DirtyBitmapError>(bitmap@),
{
    bitmap.lemma_wf();
    law_unpack_packed(bitmap@);
}

/// `left` and `right` have the same file engine, with the same dirty blocks.
pub open spec fn same_engine(left: FileEngine, right: FileEngine) -> bool {
    match (left, right) {
        (FileEngine::Overlay(a), FileEngine::Overlay(b)) => a@ == b@ && a.granularity()
            == b.granularity(),
        _ => left == right,
    }
}

/// A device that is saved, and restored while its files are as they were, is the same
/// device, not activated. The saved state holds an overlay exactly where the device is
/// one, and neither finding the disk nor opening it is refused, whatever delta is there.
pub proof fn law_saved_device_restores(
    block: VirtioBlock,
    state: VirtioBlockState,
    delta_exists: bool,
    source: Result<DiskSource, VirtioBlockError>,
    disk: Result<DiskProperties, VirtioBlockError>,
    restored: VirtioBlock,
)
    requires
        block.wf(),
        block_saved(block, state),
        source_found(state, delta_exists, source),
        source is Ok ==> disk_opened(source->Ok_0, block.disk.nsectors, None, disk),
        disk is Ok ==> block_restored(state, disk->Ok_0, restored),
    ensures
        state.overlay_state is Some <==> block.disk.file_engine is Overlay,
        source is Ok,
        disk is Ok,
        restored.wf(),
        restored.device_state == DeviceState::Inactive,
        restored.avail_features == block.avail_features,
        restored.acked_features == block.acked_features,
        restored.queues.saved@ == block.queues.saved@,
        restored.config_space == block.config_space,
        restored.id@ == block.id@,
        text_of(restored.partuuid) == text_of(block.partuuid),
        restored.cache_type == block.cache_type,
        restored.root_device == block.root_device,
        restored.read_only == block.read_only,
        restored.rate_limiter_state.saved@ == block.rate_limiter_state.saved@,
        restored.disk.file_path@ == block.disk.file_path@,
        text_of(restored.disk.base_path) == text_of(block.disk.base_path),
        restored.disk.nsectors == block.disk.nsectors,
        same_engine(restored.disk.file_engine, block.disk.file_engine),
{
    if let FileEngine::Overlay(bitmap) = block.disk.file_engine {
        law_saved_bitmap_restores(block.disk, bitmap, state.overlay_state->0);
    }
}

/// The features say that the device is read-only exactly when bit five of them is set,
/// whatever the other bits are.
pub proof fn law_read_only_is_bit_five(avail_features: u64)
    ensures
        offers_read_only(avail_features) <==> avail_features / 32 % 2 == 1,
{
    assert((avail_features & (1u64 << 5u64) != 0) <==> avail_features / 32 % 2 == 1) by (bit_vector);
}

/// A device is restored read-only, and its plain file is opened read-only, exactly when bit
/// five of the features is set in the saved state.
pub proof fn law_restored_read_only_follows_feature(
    state: VirtioBlockState,
    delta_exists: bool,
    source: Result<DiskSource, VirtioBlockError>,
    disk: DiskProperties,
    block: VirtioBlock,
)
    requires
        source_found(state, delta_exists, source),
        block_restored(state, disk, block),
    ensures
        block.read_only <==> state.virtio_state.avail_features / 32 % 2 == 1,
        state.overlay_state is None ==> (source matches Ok(
            DiskSource::Plain { disk_path, read_only, engine },
        ) && (read_only <==> state.virtio_state.avail_features / 32 % 2 == 1)),
{
    law_read_only_is_bit_five(state.virtio_state.avail_features);
}

/// A restored device has its capacity from the disk. As an overlay it lets the guest discard
/// any number of sectors, one range at a time, in steps of 8 sectors; with any other engine
/// the guest cannot discard.
pub proof fn law_discard_fields(engine: FileEngineTypeState, nsectors: u64)
    ensures
        config_space_of(engine, nsectors).capacity == nsectors,
        config_space_of(engine, nsectors).max_discard_sectors == if engine is Overlay {
            0xffff_ffffu32
        } else {
            0
        },
        config_space_of(engine, nsectors).max_discard_seg == if engine is Overlay {
            1u32
        } else {
            0
        },
        config_space_of(engine, nsectors).discard_sector_alignment == if engine is Overlay {
            8u32
        } else {
            0
        },
{
}

/// Each file engine is saved as the one of its name, and restored from it.
pub proof fn law_engine_types(bitmap: DiskBitmap)
    ensures
        engine_state_of(FileEngineType::Sync) == FileEngineTypeState::Sync,
        engine_state_of(FileEngineType::Async) == FileEngineTypeState::Async,
        engine_state_of(FileEngineType::Overlay) == FileEngineTypeState::Overlay,
        engine_of(FileEngineTypeState::Sync) == FileEngineType::Sync,
        engine_of(FileEngineTypeState::Async) == FileEngineType::Async,
        engine_of(FileEngineTypeState::Overlay) == FileEngineType::Overlay,
        engine_type_of(FileEngine::Sync) == FileEngineType::Sync,
        engine_type_of(FileEngine::Async) == FileEngineType::Async,
        engine_type_of(FileEngine::Overlay(bitmap)) == FileEngineType::Overlay,
{
}

/// A name is put behind its directory with one slash between them, unless the directory is
/// empty or ends in one. A name that starts with a slash stands for itself.
pub proof fn law_joined_path(dir: Seq<char>, name: Seq<char>)
    ensures
        name.len() > 0 && name[0] == '/' ==> joined_path(dir, name) == name,
        !(name.len() > 0 && name[0] == '/') && dir.len() == 0 ==> joined_path(dir, name) == name,
        !(name.len() > 0 && name[0] == '/') && dir.len() > 0 && dir.last() == '/' ==> joined_path(
            dir,
            name,
        ) == dir + name,
        !(name.len() > 0 && name[0] == '/') && dir.len() > 0 && dir.last() != '/' ==> joined_path(
            dir,
            name,
        ) == dir.push('/') + name,
{
    reveal_strlit("/");
    assert(dir + "/"@ =~= dir.push('/'));
    if dir.len() == 0 {
        assert(dir + name =~= name);
    }
}

/// The delta of a device is looked for under the id of the device, with the extension
/// `delta`, in the directory that is set; without one no delta is looked for.
pub proof fn law_delta_is_named_by_id(state: VirtioBlockState)
    ensures
        delta_path_of(state) is Some <==> state.overlay_state is Some
            && state.overlay_state->0.delta_dir is Some,
        delta_path_of(state) is Some ==> delta_path_of(state) == Some(
            joined_path(
                state.overlay_state->0.delta_dir->0@,
                state.id@ + seq!['.', 'd', 'e', 'l', 't', 'a'],
            ),
        ),
{
    reveal_strlit(".delta");
    assert(".delta"@ =~= seq!['.', 'd', 'e', 'l', 't', 'a']);
}

/// An overlay is restored from a delta that is there and was looked for, and else from its
/// bitmap; any other device from its plain file. The paths are those of the saved state.
pub proof fn law_disk_source(
    state: VirtioBlockState,
    delta_exists: bool,
    r: Result<DiskSource, VirtioBlockError>,
)
    requires
        source_found(state, delta_exists, r),
    ensures
        ({
            let cloned = delta_exists && state.overlay_state is Some
                && state.overlay_state->0.delta_dir is Some;
            &&& (r matches Ok(source) && source is Delta) <==> cloned
            &&& (r matches Ok(source) && source is Plain) <==> state.overlay_state is None
        }),
        r matches Ok(DiskSource::Delta { base_path, overlay_path, delta_path }) ==> {
            &&& base_path@ == state.overlay_state->0.base_path@
            &&& overlay_path@ == state.overlay_state->0.overlay_path@
            &&& Some(delta_path@) == delta_path_of(state)
        },
        r matches Ok(DiskSource::Bitmap { base_path, overlay_path, block_size, bitmap }) ==> {
            let overlay = state.overlay_state->0;
            &&& base_path@ == overlay.base_path@
            &&& overlay_path@ == overlay.overlay_path@
            &&& block_size == overlay.block_size
            &&& bitmap.granularity() == overlay.block_size
            &&& deserialized(overlay.dirty_bitmap@, overlay.block_size, overlay.total_blocks) == Ok::<
                _,
                crate::disk_bitmap::DirtyBitmapError,
            >(bitmap@)
        },
        r matches Ok(DiskSource::Plain { disk_path, read_only, engine }) ==> disk_path@
            == state.disk_path@ && match state.file_engine_type {
            FileEngineTypeState::Sync => engine == FileEngineType::Sync,
            FileEngineTypeState::Async => engine == FileEngineType::Async,
            FileEngineTypeState::Overlay => engine == FileEngineType::Overlay,
        },
        r matches Err(e) ==> state.overlay_state is Some && match deserialized(
            state.overlay_state->0.dirty_bitmap@,
            state.overlay_state->0.block_size,
            state.overlay_state->0.total_blocks,
        ) {
            Err(bad) => e == VirtioBlockError::FileEngine(OverlayIoError::Bitmap(bad)),
            Ok(_) => false,
        },
{
}

/// An overlay is opened over its base, with the bitmap of the delta that was applied or with
/// its own; a plain file has no base and the engine that was asked for, unless that is an
/// overlay, which a plain file cannot be.
pub proof fn law_opened_disk(
    source: DiskSource,
    nsectors: u64,
    applied: Option<DiskBitmap>,
    r: Result<DiskProperties, VirtioBlockError>,
)
    requires
        source is Delta ==> applied is Some,
        disk_opened(source, nsectors, applied, r),
    ensures
        r is Err <==> (source matches DiskSource::Plain { engine, .. } && engine
            == FileEngineType::Overlay),
        r matches Err(e) ==> e == VirtioBlockError::FileEngine(
            OverlayIoError::NotConstructibleFromFile,
        ),
        r matches Ok(disk) ==> disk.nsectors == nsectors && match source {
            DiskSource::Delta { base_path, overlay_path, delta_path } => {
                &&& disk.file_path@ == overlay_path@
                &&& disk.base_path is Some && disk.base_path->0@ == base_path@
                &&& disk.file_engine == FileEngine::Overlay(applied->0)
            },
            DiskSource::Bitmap { base_path, overlay_path, block_size, bitmap } => {
                &&& disk.file_path@ == overlay_path@
                &&& disk.base_path is Some && disk.base_path->0@ == base_path@
                &&& disk.file_engine == FileEngine::Overlay(bitmap)
            },
            DiskSource::Plain { disk_path, read_only, engine } => {
                &&& disk.file_path@ == disk_path@
                &&& disk.base_path is None
                &&& disk.file_engine is Sync <==> engine == FileEngineType::Sync
                &&& disk.file_engine is Async <==> engine == FileEngineType::Async
            },
        },
{
}

/// What is saved of an overlay next to the device: its paths, its serialized bitmap with the
/// numbers that it is read back with, and no directory for deltas.
pub proof fn law_saved_overlay(block: VirtioBlock, state: VirtioBlockState)
    requires
        block_saved(block, state),
    ensures
        state.overlay_state is Some <==> block.disk.file_engine is Overlay,
        state.file_engine_type is Overlay <==> block.disk.file_engine is Overlay,
        state.file_engine_type is Async <==> block.disk.file_engine is Async,
        state.disk_path@ == block.disk.file_path@,
        block.disk.file_engine matches FileEngine::Overlay(bitmap) ==> {
            let overlay = state.overlay_state->0;
            &&& overlay.dirty_bitmap@ == packed(bitmap@)
            &&& overlay.block_size == bitmap.granularity()
            &&& overlay.total_blocks == bitmap@.len()
            &&& overlay.overlay_path@ == block.disk.file_path@
            &&& overlay.delta_dir is None
            &&& block.disk.base_path matches Some(path) ==> overlay.base_path@ == path@
            &&& block.disk.base_path is None ==> overlay.base_path@.len() == 0
        },
{
}

/// A device is taken for read-only exactly when bit five of its features is set.
pub proof fn law_is_read_only(avail_features: u64, r: bool)
    requires
        call_ensures(is_read_only, (avail_features,), r),
    ensures
        r <==> avail_features / 32 % 2 == 1,
{
    law_read_only_is_bit_five(avail_features);
}

} // verus!
