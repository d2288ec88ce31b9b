//! In-process userfaultfd handler for snapshot restore: what it decides.
//!
//! Guest page faults are served from a snapshot file, or in layered mode from an
//! overlay (diff) file and a base. The handler's loop is a state machine: it names the
//! system call to make next and takes its result.
pub mod config;
pub mod stats;
pub mod presence;
pub mod regions;
pub mod trace;
pub mod serve;
pub mod handler;
