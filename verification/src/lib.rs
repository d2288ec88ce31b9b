//! Snapshot machinery for overlay-backed microVMs.
//!
//! A block device is a shared read-only base image below a sparse overlay that
//! holds the blocks written since. The crate tracks those blocks, moves them in
//! and out of checksummed delta files, serves guest memory from layered snapshot
//! files and validates the requests that drive all of it.
pub mod bits;
pub mod dirty_bitmap;
pub mod checksum;
pub mod disk_bitmap;
pub mod le_bytes;
pub mod flatten;
pub mod image;
pub mod io_error;
pub mod delta;
pub mod overlay_io;
pub mod persist;
pub mod snapshot;
pub mod snapshot_request;
pub mod sparse;
pub mod text;
pub mod uffd_internal;
pub mod vmm_config;
