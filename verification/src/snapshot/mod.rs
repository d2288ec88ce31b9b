//! Taking memory snapshots while the guest runs.
pub mod background_writer;
pub mod write_protect;
