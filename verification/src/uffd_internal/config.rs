//! What a restore is configured with.
use vstd::prelude::*;

use crate::uffd_internal::trace::{load_prefetch_offsets, loaded, log_lines};

verus! {

/// Configuration of a restore that is backed by the in-process handler.
#[derive(Debug)]
pub struct Config {
    /// The snapshot memory file behind guest RAM. In layered mode this is the overlay
    /// (diff) file; pages absent from it are served from `base_path`.
    pub snapshot_path: String,
    /// The base (template) memory file. When set, the restore is layered.
    pub base_path: Option<String>,
    /// A recorded page-access trace, replayed as prefetch. Without one, or with one that
    /// cannot be read, nothing is prefetched.
    pub access_log_path: Option<String>,
    /// Where to record each served page offset. Recording suppresses prefetch.
    pub record_to: Option<String>,
}

impl Clone for Config {
    fn clone(&self) -> (cfg: Self)
        ensures
            cfg.snapshot_path@ == self.snapshot_path@,
            path_text(cfg.base_path) == path_text(self.base_path),
            path_text(cfg.access_log_path) == path_text(self.access_log_path),
            path_text(cfg.record_to) == path_text(self.record_to),
    {
        Config {
            snapshot_path: self.snapshot_path.clone(),
            base_path: same_path(&self.base_path),
            access_log_path: same_path(&self.access_log_path),
            record_to: same_path(&self.record_to),
        }
    }
}

fn same_path(path: &Option<String>) -> (r: Option<String>)
    ensures
        path_text(r) == path_text(*path),
{
    match path {
        Some(path) => Some(path.clone()),
        None => None,
    }
}

/// The text of an optional path.
pub open spec fn path_text(path: Option<String>) -> Option<Seq<char>> {
    match path {
        Some(path) => Some(path@),
        None => None,
    }
}

/// The text of an optional path.
pub open spec fn path_ref_text(path: Option<&str>) -> Option<Seq<char>> {
    match path {
        Some(path) => Some(path@),
        None => None,
    }
}

fn owned_path(path: Option<&str>) -> (r: Option<String>)
    ensures
        path_text(r) == path_ref_text(path),
{
    match path {
        Some(path) => Some(path.to_owned()),
        None => None,
    }
}

/// Build a [`Config`] from path references.
pub fn config_from_paths(
    snapshot_path: &str,
    base_path: Option<&str>,
    access_log_path: Option<&str>,
    record_to: Option<&str>,
) -> (cfg: Config)
    ensures
        cfg.snapshot_path@ == snapshot_path@,
        path_text(cfg.base_path) == path_ref_text(base_path),
        path_text(cfg.access_log_path) == path_ref_text(access_log_path),
        path_text(cfg.record_to) == path_ref_text(record_to),
{
    Config {
        snapshot_path: snapshot_path.to_owned(),
        base_path: owned_path(base_path),
        access_log_path: owned_path(access_log_path),
        record_to: owned_path(record_to),
    }
}

/// The offsets to prefetch, where `log` holds the bytes of the access log if one is
/// configured and can be read. An absent or unreadable log gives no prefetch: pages are
/// never prefetched in sequence in its stead. Recording disables prefetch, so that the trace has the
/// guest's own order of access.
pub fn prefetch_offsets(cfg: &Config, log: Option<&[u8]>, page_size: usize) -> (offsets: Vec<u64>)
    requires
        page_size > 0,
    ensures
        offsets@ == match (cfg.record_to, cfg.access_log_path, log) {
            (None, Some(_), Some(log)) => loaded(log_lines(log@), page_size, Seq::empty()),
            _ => Seq::empty(),
        },
{
    if cfg.record_to.is_some() || cfg.access_log_path.is_none() {
        return Vec::new();
    }
    match log {
        Some(log) => load_prefetch_offsets(log, page_size),
        None => Vec::new(),
    }
}

/// Nothing is prefetched when a trace is recorded, when no access log is configured, or when it
/// cannot be read.
pub proof fn law_no_log_no_prefetch(
    cfg: Config,
    log: Option<&[u8]>,
    page_size: usize,
    offsets: Vec<u64>,
)
    requires
        call_ensures(prefetch_offsets, (&cfg, log, page_size), offsets),
    ensures
        cfg.record_to is Some || cfg.access_log_path is None || log is None ==> offsets@.len() == 0,
        cfg.record_to is None && cfg.access_log_path is Some && log is Some ==> offsets@ == loaded(
            log_lines(log->0@),
            page_size,
            Seq::empty(),
        ),
{
}

} // verus!
