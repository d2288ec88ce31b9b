//! Counters of the handler.
use vstd::prelude::*;

verus! {

/// What the handler counts. A counter that overflows starts over.
#[derive(Debug, Clone, Copy, PartialEq, Eq, Structural)]
pub struct Stats {
    pub faults_served: u64,
    pub faults_deferred: u64,
    pub faults_failed_transient: u64,
    pub prefetch_served: u64,
    pub prefetch_eexist: u64,
    pub prefetch_eagain: u64,
    pub prefetch_failed: u64,
    pub recorded_offsets: u64,
}

/// The counters at one moment.
#[derive(Debug, Clone, Copy, PartialEq, Eq, Structural)]
pub struct StatsSnapshot {
    /// Guest page faults resolved by copying a page from the snapshot.
    pub faults_served: u64,
    /// Attempts deferred because a removal was queued ahead. One address can count
    /// more than once.
    pub faults_deferred: u64,
    /// Attempts that failed in an unexpected way.
    pub faults_failed_transient: u64,
    /// Prefetch copies that succeeded.
    pub prefetch_served: u64,
    /// Prefetch copies of pages that the guest had already faulted in.
    pub prefetch_eexist: u64,
    /// Prefetch copies that found a removal queued ahead.
    pub prefetch_eagain: u64,
    /// Prefetch copies that failed in an unexpected way.
    pub prefetch_failed: u64,
    /// Unique page offsets recorded; zero without a recorder.
    pub recorded_offsets: u64,
}

impl Default for Stats {
    fn default() -> (stats: Self)
        ensures
            stats == no_stats(),
    {
        Stats {
            faults_served: 0,
            faults_deferred: 0,
            faults_failed_transient: 0,
            prefetch_served: 0,
            prefetch_eexist: 0,
            prefetch_eagain: 0,
            prefetch_failed: 0,
            recorded_offsets: 0,
        }
    }
}

impl Default for StatsSnapshot {
    fn default() -> (snapshot: Self)
        ensures
            snapshot == snapshot_of(no_stats()),
    {
        Stats::default().snapshot()
    }
}

/// Nothing counted yet.
pub open spec fn no_stats() -> Stats {
    Stats {
        faults_served: 0,
        faults_deferred: 0,
        faults_failed_transient: 0,
        prefetch_served: 0,
        prefetch_eexist: 0,
        prefetch_eagain: 0,
        prefetch_failed: 0,
        recorded_offsets: 0,
    }
}

/// The snapshot of `stats`.
pub open spec fn snapshot_of(stats: Stats) -> StatsSnapshot {
    StatsSnapshot {
        faults_served: stats.faults_served,
        faults_deferred: stats.faults_deferred,
        faults_failed_transient: stats.faults_failed_transient,
        prefetch_served: stats.prefetch_served,
        prefetch_eexist: stats.prefetch_eexist,
        prefetch_eagain: stats.prefetch_eagain,
        prefetch_failed: stats.prefetch_failed,
        recorded_offsets: stats.recorded_offsets,
    }
}

impl Stats {
    /// The counters at this moment.
    pub fn snapshot(&self) -> (snapshot: StatsSnapshot)
        ensures
            snapshot == snapshot_of(*self),
    {
        StatsSnapshot {
            faults_served: self.faults_served,
            faults_deferred: self.faults_deferred,
            faults_failed_transient: self.faults_failed_transient,
            prefetch_served: self.prefetch_served,
            prefetch_eexist: self.prefetch_eexist,
            prefetch_eagain: self.prefetch_eagain,
            prefetch_failed: self.prefetch_failed,
            recorded_offsets: self.recorded_offsets,
        }
    }
}

/// A snapshot of the counters shows each of them as it is, and a handler starts with all of
/// them at zero.
pub proof fn law_snapshot_shows_counters(stats: Stats)
    ensures
        snapshot_of(stats).faults_served == stats.faults_served,
        snapshot_of(stats).faults_deferred == stats.faults_deferred,
        snapshot_of(stats).faults_failed_transient == stats.faults_failed_transient,
        snapshot_of(stats).prefetch_served == stats.prefetch_served,
        snapshot_of(stats).prefetch_eexist == stats.prefetch_eexist,
        snapshot_of(stats).prefetch_eagain == stats.prefetch_eagain,
        snapshot_of(stats).prefetch_failed == stats.prefetch_failed,
        snapshot_of(stats).recorded_offsets == stats.recorded_offsets,
        no_stats().faults_served == 0,
        no_stats().faults_deferred == 0,
        no_stats().faults_failed_transient == 0,
        no_stats().prefetch_served == 0,
        no_stats().prefetch_eexist == 0,
        no_stats().prefetch_eagain == 0,
        no_stats().prefetch_failed == 0,
        no_stats().recorded_offsets == 0,
{
}

} // verus!
