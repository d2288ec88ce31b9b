//! Configurations used in the snapshotting context.
use vstd::prelude::*;

verus! {

/// The kinds of snapshot that can be created.
#[derive(Debug, Clone, Copy, PartialEq, Eq, Structural)]
pub enum SnapshotType {
    /// Diff snapshot.
    Diff,
    /// Full snapshot.
    Full,
}

impl Default for SnapshotType {
    fn default() -> (t: Self)
        ensures
            t == SnapshotType::Full,
    {
        SnapshotType::Full
    }
}

/// How guest memory is populated when a snapshot is resumed.
#[derive(Debug, Clone, Copy, PartialEq, Eq, Structural)]
pub enum MemBackendType {
    /// From a file.
    File,
    /// Through a userfaultfd that another process serves.
    Uffd,
    /// Through a userfaultfd that a thread of this process serves. `backend_path` is
    /// the snapshot memory file.
    UffdInternal,
}

/// What a snapshot is created with.
#[derive(Debug, PartialEq, Eq)]
pub struct CreateSnapshotParams {
    /// The kind of snapshot.
    pub snapshot_type: SnapshotType,
    /// The file that will hold the microVM state.
    pub snapshot_path: String,
    /// The file that will hold guest memory.
    pub mem_file_path: String,
    /// Directory for the delta files of overlay devices, named `{drive_id}.delta`.
    pub block_delta_dir: Option<String>,
    /// Bake the dirty blocks of each overlay into its base, and zero the side-car.
    /// Requires `block_delta_dir`.
    pub flatten: bool,
    /// Write the memory of a diff snapshot in the background. Ignored for full ones.
    pub async_snapshot: bool,
    /// The dirty-tracking session that the diff must belong to.
    pub expected_session_id: Option<String>,
    /// The generation that the diff must continue.
    pub expected_generation: Option<u64>,
}

/// A network interface that gets another host device on restore.
#[derive(Debug, PartialEq, Eq)]
pub struct NetworkOverride {
    /// The interface.
    pub iface_id: String,
    /// Its new host device.
    pub host_dev_name: String,
}

/// What a snapshot is loaded with.
#[derive(Debug, PartialEq, Eq)]
pub struct LoadSnapshotParams {
    /// The file that holds the microVM state.
    pub snapshot_path: String,
    /// Where guest memory comes from.
    pub mem_backend: MemBackendConfig,
    /// Whether dirty pages are tracked.
    pub track_dirty_pages: bool,
    /// Whether the VM is resumed once it is loaded.
    pub resume_vm: bool,
    /// Interfaces that get other host devices.
    pub network_overrides: Vec<NetworkOverride>,
    /// Directory with the delta files of overlay devices, for cloning.
    pub block_delta_dir: Option<String>,
    /// Back guest memory with a shared mapping.
    pub shared_mem: bool,
    /// Whether the guest's clock follows real time; the snapshot decides if absent.
    pub clock_realtime: Option<bool>,
    /// The dirty-tracking session that this load starts.
    pub tracking_session_id: Option<String>,
}

/// What the user asks a snapshot to be loaded with.
#[derive(Debug, PartialEq, Eq)]
pub struct LoadSnapshotConfig {
    /// The file that holds the microVM state.
    pub snapshot_path: String,
    /// The file that holds guest memory. Only without `mem_backend`.
    pub mem_file_path: Option<String>,
    /// Where guest memory comes from. Only without `mem_file_path`.
    pub mem_backend: Option<MemBackendConfig>,
    /// The old name of `track_dirty_pages`.
    pub enable_diff_snapshots: bool,
    /// Whether dirty pages are tracked.
    pub track_dirty_pages: bool,
    /// Whether the VM is resumed once it is loaded.
    pub resume_vm: bool,
    /// Interfaces that get other host devices.
    pub network_overrides: Vec<NetworkOverride>,
    /// Directory with the delta files of overlay devices, for cloning.
    pub block_delta_dir: Option<String>,
    /// Back guest memory with a shared mapping.
    pub shared_mem: bool,
    /// Whether the guest's clock follows real time; the snapshot decides if absent.
    pub clock_realtime: Option<bool>,
    /// The dirty-tracking session that this load starts.
    pub tracking_session_id: Option<String>,
}

/// Where the memory of a snapshot comes from.
#[derive(Debug, PartialEq, Eq)]
pub struct MemBackendConfig {
    /// The socket of the handler for `Uffd`; the snapshot memory file for `File` and
    /// `UffdInternal`, where with `base_path` it is the overlay (diff) file.
    pub backend_path: String,
    /// Where guest memory comes from.
    pub backend_type: MemBackendType,
    /// The base memory file of a layered `UffdInternal` restore.
    pub base_path: Option<String>,
    /// Overlays between `base_path` and `backend_path`, oldest first.
    pub lower_overlay_paths: Vec<String>,
    /// Whether the death of the `UffdInternal` handler ends the process.
    pub abort_on_handler_death: bool,
    /// A page-access trace to replay as prefetch. Where it is absent or unreadable nothing
    /// is prefetched.
    pub access_log_path: Option<String>,
    /// Where to record a page-access trace. Recording disables prefetch.
    pub record_to: Option<String>,
}

/// The states that a microVM can be put in.
#[derive(Debug, Clone, Copy, PartialEq, Eq, Structural)]
pub enum VmState {
    /// Paused: a snapshot can be created.
    Paused,
    /// Running again.
    Resumed,
}

/// The state that a microVM is put in.
#[derive(Debug, Clone, Copy, PartialEq, Eq, Structural)]
pub struct Vm {
    /// The state.
    pub state: VmState,
}

} // verus!
