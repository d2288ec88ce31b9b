//! The handler's loop as a state machine.
//!
//! `Handler::action` names what to do next; `Handler::handle` takes the result. Each
//! round looks for a shutdown and for a drain request, polls, retries the deferred
//! faults, and then serves the events that are queued or, if there are none, prefetches
//! one page.
use vstd::arithmetic::power2::pow2;
use vstd::multiset::Multiset;
use vstd::prelude::*;

use crate::io_error::{EAGAIN, EINTR};
use crate::uffd_internal::regions::{law_page_base_is_multiple, page_base, page_base_of};
use crate::uffd_internal::serve::{
    bump, count, log_growth, prefetch_outcome, prefetch_outcome_of, record_fault, recorded_after,
    recorded_by, remove_action, remove_action_of, serve_outcome, serve_outcome_of, CopyRequest,
    CopyResult, Memory, PrefetchOutcome, RemoveAction, ServeOutcome,
};
use crate::uffd_internal::stats::{no_stats, snapshot_of, Stats, StatsSnapshot};
use crate::uffd_internal::trace::{log_of, Recorder};

verus! {

/// Poll timeout between looks for a shutdown. Bounds how long the handler takes to
/// notice that the VM is going away.
pub const POLL_TIMEOUT_MS: i32 = 100;

/// What the handler serves events for.
#[derive(Debug, Clone, Copy, PartialEq, Eq, Structural)]
pub enum Mode {
    /// An ordinary round; `ready` if the poll found events.
    Run { ready: bool },
    /// A pass of a drain. `ack` if someone waits for it, else the handler exits after
    /// it. `prev` faults were deferred before the pass; `got_new` if it read an event.
    Drain { ack: bool, prev: usize, got_new: bool },
}

/// Where the handler stands.
#[derive(Debug, Clone, Copy, PartialEq, Eq, Structural)]
pub enum Phase {
    /// At the start of a round.
    AskShutdown,
    /// No shutdown was asked for.
    AskDrain,
    /// No drain is left to do.
    Polling,
    /// Retrying deferred faults.
    Retrying(Mode),
    /// Prefetching a page.
    Prefetching,
    /// Reading events.
    Reading(Mode),
    /// Serving a fault at this address.
    Serving(u64, Mode),
    /// Giving up a removed range.
    Unregistering { start: usize, len: usize, mode: Mode },
    /// Reporting a removed range that is not made of pages.
    Misaligned { start: usize, end: usize, mode: Mode },
    /// A drain is complete.
    Acking,
    /// The handler is done.
    Exited,
}

/// Why a drain request came to nothing.
#[derive(Debug, Clone, Copy, PartialEq, Eq, Structural)]
pub enum DrainError {
    /// The handler has exited; the request was not delivered.
    HandlerExited,
    /// The request was delivered, but its completion was not acknowledged.
    NoAck,
}

/// What became of a drain request that was `delivered` and `acknowledged`, or not.
pub fn drain_result(delivered: bool, acknowledged: bool) -> (r: Result<(), DrainError>)
    ensures
        r == if !delivered {
            Err(DrainError::HandlerExited)
        } else if !acknowledged {
            Err(DrainError::NoAck)
        } else {
            Ok(())
        },
{
    if !delivered {
        Err(DrainError::HandlerExited)
    } else if !acknowledged {
        Err(DrainError::NoAck)
    } else {
        Ok(())
    }
}

/// What to do next.
#[derive(Debug, Clone, Copy, PartialEq, Eq, Structural)]
pub enum Action {
    /// Look for a shutdown signal; reply with `Flag`.
    CheckShutdown,
    /// Look for a drain request; reply with `Flag`.
    CheckDrain,
    /// Poll for events for this many milliseconds; reply with `Polled` or `PollFailed`.
    Poll(i32),
    /// Copy a page; reply with `Copied`. A page of an unknown layer cannot be copied: the
    /// handler dies of it, and nothing is replied.
    Copy(CopyRequest),
    /// Report a fault at this page, outside of all regions; reply with `Done`.
    ReportOutside(u64),
    /// Read an event; reply with `Event`.
    ReadEvent,
    /// Stop serving faults for a range; reply with `Done`.
    Unregister { start: usize, len: usize },
    /// Report a removed range that is not made of pages; reply with `Done`.
    ReportMisaligned { start: usize, end: usize },
    /// Tell who asked for the drain that it is complete; reply with `Done`.
    AckDrain,
    /// Nothing is left to do.
    Exit,
}

/// What reading an event gave.
#[derive(Debug, Clone, Copy, PartialEq, Eq, Structural)]
pub enum EventRead {
    /// The guest touched a page that is not there.
    Pagefault(u64),
    /// The guest gave a range up.
    Remove { start: usize, end: usize },
    /// An event that the handler did not ask for.
    Unexpected,
    /// No event is queued.
    Empty,
    /// The system call failed with this error number.
    SystemError(i32),
    /// The read failed in another way.
    Failed,
}

/// The result of an action.
#[derive(Debug, Clone, Copy, PartialEq, Eq, Structural)]
pub enum Reply {
    /// Whether there was a signal or a request.
    Flag(bool),
    /// How many descriptors are ready.
    Polled(u32),
    /// The poll failed with this error number.
    PollFailed(i32),
    /// What became of a copy.
    Copied(CopyResult),
    /// What reading an event gave.
    Event(EventRead),
    /// It was done.
    Done,
}

/// The state of a handler.
#[verifier::ext_equal]
pub struct HandlerState {
    /// What faults are served from.
    pub memory: Memory,
    /// The file offsets to prefetch.
    pub prefetch: Seq<u64>,
    /// How many of them were prefetched.
    pub cursor: int,
    /// Faults that found a removal queued ahead.
    pub deferred: Seq<u64>,
    /// Of the faults deferred before, those not yet retried.
    pub retry: Seq<u64>,
    /// The offsets recorded, if there is a recorder.
    pub recorded: Option<Seq<u64>>,
    /// The counters.
    pub stats: Stats,
    /// Where the handler stands.
    pub phase: Phase,
}

/// What to do about a fault at `addr`.
pub open spec fn fault_action(s: HandlerState, addr: u64) -> Action {
    match s.memory.fault_copy(addr) {
        Some(request) => Action::Copy(request),
        None => Action::ReportOutside(page_base_of(addr, s.memory.page_size)),
    }
}

/// What to do next. While prefetch entries remain the poll does not block, so that the
/// prefetcher advances when no event is queued.
pub open spec fn action_of(s: HandlerState) -> Action {
    match s.phase {
        Phase::AskShutdown => Action::CheckShutdown,
        Phase::AskDrain => Action::CheckDrain,
        Phase::Polling => Action::Poll(
            if s.cursor < s.prefetch.len() {
                0
            } else {
                POLL_TIMEOUT_MS
            },
        ),
        Phase::Retrying(_) => fault_action(s, s.retry[0]),
        Phase::Prefetching => match s.memory.prefetch_copy(s.prefetch[s.cursor]) {
            Some(request) => Action::Copy(request),
            None => Action::Exit,
        },
        Phase::Reading(_) => Action::ReadEvent,
        Phase::Serving(addr, _) => fault_action(s, addr),
        Phase::Unregistering { start, len, .. } => Action::Unregister { start, len },
        Phase::Misaligned { start, end, .. } => Action::ReportMisaligned { start, end },
        Phase::Acking => Action::AckDrain,
        Phase::Exited => Action::Exit,
    }
}

/// `reply` can be the result of `action`.
pub open spec fn answers(action: Action, reply: Reply) -> bool {
    match action {
        Action::CheckShutdown | Action::CheckDrain => reply is Flag,
        Action::Poll(_) => reply is Polled || reply is PollFailed,
        Action::Copy(_) => reply is Copied,
        Action::ReadEvent => reply is Event,
        Action::ReportOutside(_) | Action::Unregister { .. } | Action::ReportMisaligned { .. }
        | Action::AckDrain => reply is Done,
        Action::Exit => false,
    }
}

/// After a fault at `addr` came out as `outcome`: a served page is recorded, a blocked
/// fault is deferred.
pub open spec fn settled(s: HandlerState, addr: u64, outcome: ServeOutcome) -> HandlerState {
    match outcome {
        ServeOutcome::Served => {
            let recorded = recorded_after(
                s.recorded,
                s.memory.regions@,
                s.memory.page_size,
                addr,
            );
            HandlerState {
                recorded,
                stats: Stats {
                    faults_served: bump(s.stats.faults_served),
                    recorded_offsets: if recorded == s.recorded {
                        s.stats.recorded_offsets
                    } else {
                        bump(s.stats.recorded_offsets)
                    },
                    ..s.stats
                },
                ..s
            }
        },
        ServeOutcome::Deferred => HandlerState {
            deferred: s.deferred.push(addr),
            stats: Stats { faults_deferred: bump(s.stats.faults_deferred), ..s.stats },
            ..s
        },
        ServeOutcome::FailedTransient => HandlerState {
            stats: Stats {
                faults_failed_transient: bump(s.stats.faults_failed_transient),
                ..s.stats
            },
            ..s
        },
    }
}

/// What the reply to a fault's action means: a fault outside of all regions fails.
pub open spec fn fault_outcome(reply: Reply) -> ServeOutcome {
    match reply {
        Reply::Copied(result) => serve_outcome_of(result),
        _ => ServeOutcome::FailedTransient,
    }
}

/// After the deferred faults were retried.
pub open spec fn retried(s: HandlerState, mode: Mode) -> HandlerState {
    match mode {
        Mode::Run { ready: false } => if s.cursor >= s.prefetch.len() {
            HandlerState { phase: Phase::AskShutdown, ..s }
        } else if s.memory.prefetch_copy(s.prefetch[s.cursor]) is None {
            HandlerState { phase: Phase::AskShutdown, cursor: s.cursor + 1, ..s }
        } else {
            HandlerState { phase: Phase::Prefetching, ..s }
        },
        _ => HandlerState { phase: Phase::Reading(mode), ..s },
    }
}

/// At the start of a pass over the deferred faults.
pub open spec fn retrying(s: HandlerState, mode: Mode) -> HandlerState {
    if s.deferred.len() == 0 {
        retried(s, mode)
    } else {
        HandlerState {
            phase: Phase::Retrying(mode),
            retry: s.deferred,
            deferred: Seq::empty(),
            ..s
        }
    }
}

/// At the start of a pass of a drain.
pub open spec fn draining(s: HandlerState, ack: bool) -> HandlerState {
    retrying(s, Mode::Drain { ack, prev: s.deferred.len() as usize, got_new: false })
}

/// When no event is queued any more. A drain is over when its pass read no event and
/// the deferred faults did not become fewer.
pub open spec fn drained(s: HandlerState, mode: Mode) -> HandlerState {
    match mode {
        Mode::Run { .. } => HandlerState { phase: Phase::AskShutdown, ..s },
        Mode::Drain { ack, prev, got_new } => if got_new || s.deferred.len() < prev {
            draining(s, ack)
        } else if ack {
            HandlerState { phase: Phase::Acking, ..s }
        } else {
            HandlerState { phase: Phase::Exited, ..s }
        },
    }
}

/// `mode` after an event was read.
pub open spec fn got_event(mode: Mode) -> Mode {
    match mode {
        Mode::Run { .. } => mode,
        Mode::Drain { ack, prev, .. } => Mode::Drain { ack, prev, got_new: true },
    }
}

/// After reading an event gave `read`. In an ordinary round a failed read ends the
/// handler, in a drain it ends the pass.
pub open spec fn event_read(s: HandlerState, mode: Mode, read: EventRead) -> HandlerState {
    let next = got_event(mode);
    match read {
        EventRead::Pagefault(addr) => HandlerState { phase: Phase::Serving(addr, next), ..s },
        EventRead::Remove { start, end } => {
            let phase = match remove_action_of(start, end, s.memory.page_size) {
                RemoveAction::Nothing => Phase::Reading(next),
                RemoveAction::Misaligned => Phase::Misaligned { start, end, mode: next },
                RemoveAction::Unregister(len) => Phase::Unregistering { start, len, mode: next },
            };
            HandlerState { phase, ..s }
        },
        EventRead::Unexpected => HandlerState { phase: Phase::Reading(next), ..s },
        EventRead::Empty => drained(s, mode),
        EventRead::SystemError(errno) => if mode is Drain || errno == EAGAIN {
            drained(s, mode)
        } else {
            HandlerState { phase: Phase::Exited, ..s }
        },
        EventRead::Failed => if mode is Drain {
            drained(s, mode)
        } else {
            HandlerState { phase: Phase::Exited, ..s }
        },
    }
}

/// After the deferred fault that was retried came out as `reply` says.
pub open spec fn retried_one(s: HandlerState, mode: Mode, reply: Reply) -> HandlerState {
    let done = settled(
        HandlerState { retry: s.retry.skip(1), ..s },
        s.retry[0],
        fault_outcome(reply),
    );
    if s.retry.len() == 1 {
        retried(done, mode)
    } else {
        done
    }
}

/// After a prefetch came out as `outcome`.
pub open spec fn prefetched(s: HandlerState, outcome: PrefetchOutcome) -> HandlerState {
    let stats = match outcome {
        PrefetchOutcome::Served => Stats {
            prefetch_served: bump(s.stats.prefetch_served),
            ..s.stats
        },
        PrefetchOutcome::Eagain => Stats {
            prefetch_eagain: bump(s.stats.prefetch_eagain),
            ..s.stats
        },
        PrefetchOutcome::Eexist => Stats {
            prefetch_eexist: bump(s.stats.prefetch_eexist),
            ..s.stats
        },
        PrefetchOutcome::Failed => Stats {
            prefetch_failed: bump(s.stats.prefetch_failed),
            ..s.stats
        },
    };
    HandlerState { stats, cursor: s.cursor + 1, phase: Phase::AskShutdown, ..s }
}

/// The state after `reply`.
pub open spec fn handled(s: HandlerState, reply: Reply) -> HandlerState {
    match (s.phase, reply) {
        (Phase::AskShutdown, Reply::Flag(shutdown)) => if shutdown {
            draining(s, false)
        } else {
            HandlerState { phase: Phase::AskDrain, ..s }
        },
        (Phase::AskDrain, Reply::Flag(drain)) => if drain {
            draining(s, true)
        } else {
            HandlerState { phase: Phase::Polling, ..s }
        },
        (Phase::Polling, Reply::PollFailed(errno)) => if errno == EINTR {
            HandlerState { phase: Phase::AskShutdown, ..s }
        } else {
            HandlerState { phase: Phase::Exited, ..s }
        },
        (Phase::Polling, Reply::Polled(n)) => retrying(s, Mode::Run { ready: n > 0 }),
        (Phase::Retrying(mode), _) => retried_one(s, mode, reply),
        (Phase::Prefetching, Reply::Copied(result)) => prefetched(s, prefetch_outcome_of(result)),
        (Phase::Reading(mode), Reply::Event(read)) => event_read(s, mode, read),
        (Phase::Serving(addr, mode), _) => settled(
            HandlerState { phase: Phase::Reading(mode), ..s },
            addr,
            fault_outcome(reply),
        ),
        (Phase::Unregistering { mode, .. }, _) => HandlerState { phase: Phase::Reading(mode), ..s },
        (Phase::Misaligned { mode, .. }, _) => HandlerState { phase: Phase::Reading(mode), ..s },
        (Phase::Acking, _) => HandlerState { phase: Phase::Polling, ..s },
        _ => s,
    }
}

/// The counter of recorded offsets counts `recorded`, as far as 64 bits go.
pub open spec fn counted(recorded: Option<Seq<u64>>, stats: Stats) -> bool {
    stats.recorded_offsets == match recorded {
        Some(offsets) => offsets.len() as int % 0x1_0000_0000_0000_0000,
        None => 0,
    }
}

/// Decides what the handler thread does.
pub struct Handler {
    memory: Memory,
    prefetch: Vec<u64>,
    cursor: usize,
    deferred: Vec<u64>,
    retry: Vec<u64>,
    retry_at: usize,
    recorder: Option<Recorder>,
    stats: Stats,
    phase: Phase,
}

impl View for Handler {
    type V = HandlerState;

    closed spec fn view(&self) -> HandlerState {
        HandlerState {
            memory: self.memory,
            prefetch: self.prefetch@,
            cursor: self.cursor as int,
            deferred: self.deferred@,
            retry: self.retry@.skip(self.retry_at as int),
            recorded: recorded_by(self.recorder),
            stats: self.stats,
            phase: self.phase,
        }
    }
}

impl Handler {
    /// What is retried, prefetched or recorded is there.
    pub closed spec fn wf(&self) -> bool {
        &&& self.memory.wf()
        &&& self.cursor <= self.prefetch.len()
        &&& self.retry_at <= self.retry.len()
        &&& self.recorder is Some ==> self.recorder->0.wf()
        &&& counted(recorded_by(self.recorder), self.stats)
        &&& self.phase is Retrying ==> self.retry_at < self.retry.len()
        &&& !(self.phase is Retrying) ==> self.retry_at == self.retry@.len()
        &&& self.phase is Prefetching ==> self.cursor < self.prefetch@.len()
            && self.memory.prefetch_copy(self.prefetch@[self.cursor as int]) is Some
    }

    /// What every handler has: faults to retry only where it retries them, no offset
    /// recorded twice, as many counted as recorded as there are, and no more faults
    /// deferred than can be counted.
    pub proof fn lemma_wf(&self)
        requires
            self.wf(),
        ensures
            state_wf(self@),
            self@.recorded is Some ==> self@.recorded->0.no_duplicates(),
            counted(self@.recorded, self@.stats),
            self@.deferred.len() <= usize::MAX,
    {
        if self.recorder is Some {
            self.recorder->0.lemma_wf();
        }
        assert(self.deferred.len() == self@.deferred.len());
    }

    /// A handler that has done nothing yet. With `record` the pages served are recorded.
    pub fn new(memory: Memory, prefetch: Vec<u64>, record: bool) -> (handler: Self)
        requires
            memory.wf(),
        ensures
            handler.wf(),
            handler@ == (HandlerState {
                memory,
                prefetch: prefetch@,
                cursor: 0,
                deferred: Seq::empty(),
                retry: Seq::empty(),
                recorded: if record {
                    Some(Seq::empty())
                } else {
                    None
                },
                stats: no_stats(),
                phase: Phase::AskShutdown,
            }),
    {
        let recorder = if record {
            Some(Recorder::new())
        } else {
            None
        };
        let handler = Handler {
            memory,
            prefetch,
            cursor: 0,
            deferred: Vec::new(),
            retry: Vec::new(),
            retry_at: 0,
            recorder,
            stats: Stats::default(),
            phase: Phase::AskShutdown,
        };
        assert(handler.retry@.skip(0) =~= Seq::<u64>::empty());
        assert(handler.deferred@ =~= Seq::<u64>::empty());
        handler
    }

    /// The counters at this moment.
    pub fn stats(&self) -> (snapshot: StatsSnapshot)
        ensures
            snapshot == snapshot_of(self@.stats),
    {
        self.stats.snapshot()
    }

    fn fault_action(&self, addr: u64) -> (action: Action)
        requires
            self.memory.wf(),
        ensures
            action == fault_action(self@, addr),
    {
        match self.memory.plan_fault(addr) {
            Some(request) => Action::Copy(request),
            None => Action::ReportOutside(page_base(addr, self.memory.page_size)),
        }
    }

    /// What to do next.
    pub fn action(&self) -> (action: Action)
        requires
            self.wf(),
        ensures
            action == action_of(self@),
            action is Exit <==> self@.phase is Exited,
    {
        match self.phase {
            Phase::AskShutdown => Action::CheckShutdown,
            Phase::AskDrain => Action::CheckDrain,
            Phase::Polling => {
                let timeout: i32 = if self.cursor < self.prefetch.len() {
                    0
                } else {
                    POLL_TIMEOUT_MS
                };
                Action::Poll(timeout)
            },
            Phase::Retrying(_) => {
                assert(self@.retry[0] == self.retry@[self.retry_at as int]);
                self.fault_action(self.retry[self.retry_at])
            },
            Phase::Prefetching => match self.memory.plan_prefetch(self.prefetch[self.cursor]) {
                Some(request) => Action::Copy(request),
                None => Action::Exit,
            },
            Phase::Reading(_) => Action::ReadEvent,
            Phase::Serving(addr, _) => self.fault_action(addr),
            Phase::Unregistering { start, len, .. } => Action::Unregister { start, len },
            Phase::Misaligned { start, end, .. } => Action::ReportMisaligned { start, end },
            Phase::Acking => Action::AckDrain,
            Phase::Exited => Action::Exit,
        }
    }

    /// What holds in every phase.
    spec fn steady(&self) -> bool {
        &&& self.memory.wf()
        &&& self.cursor <= self.prefetch.len()
        &&& self.retry_at <= self.retry.len()
        &&& self.recorder is Some ==> self.recorder->0.wf()
        &&& counted(recorded_by(self.recorder), self.stats)
    }

    /// Count, record or defer a fault at `addr`.
    fn settle(&mut self, addr: u64, outcome: ServeOutcome, log: &mut Vec<u8>)
        requires
            old(self).steady(),
        ensures
            final(self).steady(),
            final(self)@ == settled(old(self)@, addr, outcome),
            final(self).retry_at == old(self).retry_at,
            final(self).retry@ == old(self).retry@,
            final(log)@ == old(log)@ + log_growth(old(self)@.recorded, final(self)@.recorded),
    {
        match outcome {
            ServeOutcome::Served => {
                self.stats.faults_served = count(self.stats.faults_served);
                record_fault(
                    &mut self.recorder,
                    self.memory.regions.as_slice(),
                    self.memory.page_size,
                    addr,
                    &mut self.stats,
                    log,
                );
            },
            ServeOutcome::Deferred => {
                self.stats.faults_deferred = count(self.stats.faults_deferred);
                self.deferred.push(addr);
                assert(log@ =~= old(log)@ + Seq::<u8>::empty());
            },
            ServeOutcome::FailedTransient => {
                self.stats.faults_failed_transient = count(self.stats.faults_failed_transient);
                assert(log@ =~= old(log)@ + Seq::<u8>::empty());
            },
        }
        assert(self@ =~= settled(old(self)@, addr, outcome));
    }

    /// Go on after the deferred faults were retried.
    fn after_retry(&mut self, mode: Mode)
        requires
            old(self).steady(),
            old(self).retry_at == old(self).retry@.len(),
        ensures
            final(self).wf(),
            final(self)@ == retried(old(self)@, mode),
    {
        match mode {
            Mode::Run { ready: false } => {
                if self.cursor >= self.prefetch.len() {
                    self.phase = Phase::AskShutdown;
                } else if self.memory.plan_prefetch(self.prefetch[self.cursor]).is_none() {
                    self.phase = Phase::AskShutdown;
                    self.cursor += 1;
                } else {
                    self.phase = Phase::Prefetching;
                }
            },
            _ => {
                self.phase = Phase::Reading(mode);
            },
        }
        assert(self@ =~= retried(old(self)@, mode));
    }

    /// Start a pass over the deferred faults.
    fn start_retry(&mut self, mode: Mode)
        requires
            old(self).steady(),
            old(self).retry_at == old(self).retry@.len(),
        ensures
            final(self).wf(),
            final(self)@ == retrying(old(self)@, mode),
    {
        if self.deferred.len() == 0 {
            self.after_retry(mode);
        } else {
            let mut none: Vec<u64> = Vec::new();
            std::mem::swap(&mut none, &mut self.deferred);
            self.retry = none;
            self.retry_at = 0;
            self.phase = Phase::Retrying(mode);
            assert(self.retry@.skip(0) =~= old(self).deferred@);
            assert(self.deferred@ =~= Seq::<u64>::empty());
            assert(self@ =~= retrying(old(self)@, mode));
        }
    }

    /// Start a pass of a drain.
    fn start_drain(&mut self, ack: bool)
        requires
            old(self).steady(),
            old(self).retry_at == old(self).retry@.len(),
        ensures
            final(self).wf(),
            final(self)@ == draining(old(self)@, ack),
    {
        let prev = self.deferred.len();
        self.start_retry(Mode::Drain { ack, prev, got_new: false });
    }

    /// Go on when no event is queued any more.
    fn end_of_events(&mut self, mode: Mode)
        requires
            old(self).steady(),
            old(self).retry_at == old(self).retry@.len(),
        ensures
            final(self).wf(),
            final(self)@ == drained(old(self)@, mode),
    {
        match mode {
            Mode::Run { .. } => {
                self.phase = Phase::AskShutdown;
            },
            Mode::Drain { ack, prev, got_new } => {
                if got_new || self.deferred.len() < prev {
                    self.start_drain(ack);
                } else if ack {
                    self.phase = Phase::Acking;
                } else {
                    self.phase = Phase::Exited;
                }
            },
        }
    }

    /// Take what reading an event gave.
    fn take_event(&mut self, mode: Mode, read: EventRead)
        requires
            old(self).steady(),
            old(self).retry_at == old(self).retry@.len(),
        ensures
            final(self).wf(),
            final(self)@ == event_read(old(self)@, mode, read),
    {
        let (next, draining) = match mode {
            Mode::Run { .. } => (mode, false),
            Mode::Drain { ack, prev, .. } => (Mode::Drain { ack, prev, got_new: true }, true),
        };
        match read {
            EventRead::Pagefault(addr) => {
                self.phase = Phase::Serving(addr, next);
            },
            EventRead::Remove { start, end } => {
                self.phase = match remove_action(start, end, self.memory.page_size) {
                    RemoveAction::Nothing => Phase::Reading(next),
                    RemoveAction::Misaligned => Phase::Misaligned { start, end, mode: next },
                    RemoveAction::Unregister(len) => Phase::Unregistering {
                        start,
                        len,
                        mode: next,
                    },
                };
            },
            EventRead::Unexpected => {
                self.phase = Phase::Reading(next);
            },
            EventRead::Empty => {
                self.end_of_events(mode);
            },
            EventRead::SystemError(errno) => {
                if draining || errno == EAGAIN {
                    self.end_of_events(mode);
                } else {
                    self.phase = Phase::Exited;
                }
            },
            EventRead::Failed => {
                if draining {
                    self.end_of_events(mode);
                } else {
                    self.phase = Phase::Exited;
                }
            },
        }
    }

    /// Take the outcome of a prefetch.
    fn take_prefetch(&mut self, outcome: PrefetchOutcome)
        requires
            old(self).steady(),
            old(self).retry_at == old(self).retry@.len(),
            old(self).cursor < old(self).prefetch.len(),
        ensures
            final(self).wf(),
            final(self)@ == prefetched(old(self)@, outcome),
    {
        match outcome {
            PrefetchOutcome::Served => {
                self.stats.prefetch_served = count(self.stats.prefetch_served);
            },
            PrefetchOutcome::Eagain => {
                self.stats.prefetch_eagain = count(self.stats.prefetch_eagain);
            },
            PrefetchOutcome::Eexist => {
                self.stats.prefetch_eexist = count(self.stats.prefetch_eexist);
            },
            PrefetchOutcome::Failed => {
                self.stats.prefetch_failed = count(self.stats.prefetch_failed);
            },
        }
        self.cursor += 1;
        self.phase = Phase::AskShutdown;
    }

    /// Take the result of the action named last. A page that is recorded by it adds its
    /// line to `log`.
    pub fn handle(&mut self, reply: Reply, log: &mut Vec<u8>)
        requires
            old(self).wf(),
            answers(action_of(old(self)@), reply),
        ensures
            final(self).wf(),
            final(self)@ == handled(old(self)@, reply),
            final(log)@ == old(log)@ + log_growth(old(self)@.recorded, final(self)@.recorded),
    {
        assert(log@ =~= old(log)@ + Seq::<u8>::empty());
        let outcome = match reply {
            Reply::Copied(result) => serve_outcome(result),
            _ => ServeOutcome::FailedTransient,
        };
        match self.phase {
            Phase::AskShutdown => {
                if let Reply::Flag(shutdown) = reply {
                    if shutdown {
                        self.start_drain(false);
                    } else {
                        self.phase = Phase::AskDrain;
                    }
                }
            },
            Phase::AskDrain => {
                if let Reply::Flag(drain) = reply {
                    if drain {
                        self.start_drain(true);
                    } else {
                        self.phase = Phase::Polling;
                    }
                }
            },
            Phase::Polling => match reply {
                Reply::PollFailed(errno) => {
                    self.phase = if errno == EINTR {
                        Phase::AskShutdown
                    } else {
                        Phase::Exited
                    };
                },
                Reply::Polled(n) => {
                    self.start_retry(Mode::Run { ready: n > 0 });
                },
                _ => {},
            },
            Phase::Retrying(mode) => {
                let addr = self.retry[self.retry_at];
                let ghost rest = self.retry@.skip(self.retry_at as int);
                assert(rest[0] == addr);
                assert(rest.skip(1) =~= self.retry@.skip(self.retry_at + 1));
                self.retry_at += 1;
                self.settle(addr, outcome, log);
                if self.retry_at == self.retry.len() {
                    self.after_retry(mode);
                }
            },
            Phase::Prefetching => {
                if let Reply::Copied(result) = reply {
                    self.take_prefetch(prefetch_outcome(result));
                }
            },
            Phase::Reading(mode) => {
                if let Reply::Event(read) = reply {
                    self.take_event(mode, read);
                }
            },
            Phase::Serving(addr, mode) => {
                self.phase = Phase::Reading(mode);
                self.settle(addr, outcome, log);
            },
            Phase::Unregistering { mode, .. } => {
                self.phase = Phase::Reading(mode);
            },
            Phase::Misaligned { mode, .. } => {
                self.phase = Phase::Reading(mode);
            },
            Phase::Acking => {
                self.phase = Phase::Polling;
            },
            Phase::Exited => {},
        }
    }
}

// ---- what the loop promises ----

/// Only a pass over deferred faults has faults to retry.
pub open spec fn state_wf(s: HandlerState) -> bool {
    if s.phase is Retrying {
        s.retry.len() > 0
    } else {
        s.retry.len() == 0
    }
}

/// The faults that were read and are neither served nor given up.
pub open spec fn outstanding(s: HandlerState) -> Multiset<u64> {
    let waiting = s.deferred.to_multiset().add(s.retry.to_multiset());
    match s.phase {
        Phase::Serving(addr, _) => waiting.insert(addr),
        _ => waiting,
    }
}

/// The fault that is being served.
pub open spec fn in_service(s: HandlerState) -> Option<u64> {
    match s.phase {
        Phase::Serving(addr, _) => Some(addr),
        Phase::Retrying(_) => Some(s.retry[0]),
        _ => None,
    }
}

/// No fault is lost: a fault that is read stays outstanding until it is served or given
/// up, and only the one that is being served can be.
pub proof fn law_no_fault_lost(s: HandlerState, reply: Reply)
    requires
        state_wf(s),
        answers(action_of(s), reply),
    ensures
        state_wf(handled(s, reply)),
        outstanding(handled(s, reply)) == match (in_service(s), reply) {
            (Some(addr), _) => if fault_outcome(reply) is Deferred {
                outstanding(s)
            } else {
                outstanding(s).remove(addr)
            },
            (None, Reply::Event(EventRead::Pagefault(addr))) => outstanding(s).insert(addr),
            _ => outstanding(s),
        },
{
    broadcast use vstd::seq_lib::group_to_multiset_ensures;

    let t = handled(s, reply);
    assert(Seq::<u64>::empty().to_multiset() =~= Multiset::empty());
    if s.retry.len() == 0 {
        assert(s.retry =~= Seq::<u64>::empty());
    } else {
        let rest = s.retry.skip(1);
        assert(s.retry =~= seq![s.retry[0]] + rest);
        vstd::seq_lib::lemma_multiset_commutative(seq![s.retry[0]], rest);
        assert(seq![s.retry[0]] =~= Seq::<u64>::empty().push(s.retry[0]));
        assert(s.retry.to_multiset() =~= rest.to_multiset().insert(s.retry[0]));
    }
    if t.retry.len() == 0 {
        assert(t.retry =~= Seq::<u64>::empty());
    }
    if t.deferred.len() == 0 {
        assert(t.deferred =~= Seq::<u64>::empty());
    }
    match in_service(s) {
        Some(addr) => {
            assert(outstanding(s) =~= s.deferred.to_multiset().add(
                match s.phase {
                    Phase::Serving(_, _) => s.retry.to_multiset(),
                    _ => s.retry.skip(1).to_multiset(),
                },
            ).insert(addr));
            assert(outstanding(t) =~= if fault_outcome(reply) is Deferred {
                outstanding(s)
            } else {
                outstanding(s).remove(addr)
            });
        },
        None => {
            if t.phase is Serving {
                assert(outstanding(t) =~= outstanding(s).insert(t.phase->Serving_0));
            } else {
                assert(outstanding(t) =~= outstanding(s));
            }
        },
    }
}

/// A page is prefetched only when the poll of the round found no event.
pub proof fn law_faults_preempt_prefetch(s: HandlerState, reply: Reply)
    requires
        handled(s, reply).phase is Prefetching,
        !(s.phase is Prefetching),
    ensures
        (s.phase is Polling && reply == Reply::Polled(0)) || s.phase == Phase::Retrying(
            Mode::Run { ready: false },
        ),
{
}

/// A drain that someone waits for is acknowledged only when its last pass read no event
/// and the deferred faults did not become fewer in it.
pub proof fn law_drain_is_complete(s: HandlerState, reply: Reply)
    requires
        handled(s, reply).phase is Acking,
        !(s.phase is Acking),
    ensures
        match (s.phase, reply) {
            (Phase::Reading(Mode::Drain { ack, prev, got_new }), Reply::Event(read)) => {
                &&& ack && !got_new
                &&& s.deferred.len() >= prev
                &&& !(read is Pagefault || read is Remove || read is Unexpected)
            },
            _ => false,
        },
{
}

/// The mode of a drain that is under way.
pub open spec fn drain_mode(s: HandlerState) -> Option<Mode> {
    let mode = match s.phase {
        Phase::Retrying(mode) => Some(mode),
        Phase::Reading(mode) => Some(mode),
        Phase::Serving(_, mode) => Some(mode),
        Phase::Unregistering { mode, .. } => Some(mode),
        Phase::Misaligned { mode, .. } => Some(mode),
        _ => None,
    };
    match mode {
        Some(Mode::Drain { .. }) => mode,
        _ => None,
    }
}

/// A drain has come to its end.
pub open spec fn drain_over(s: HandlerState) -> bool {
    s.phase is Acking || s.phase is Exited
}

/// `reply` is an event that was queued.
pub open spec fn is_event(reply: Reply) -> bool {
    match reply {
        Reply::Event(read) => read is Pagefault || read is Remove || read is Unexpected,
        _ => false,
    }
}

/// Whether the pass has read an event, as a number.
pub open spec fn pass_got_new(s: HandlerState) -> nat {
    match drain_mode(s) {
        Some(Mode::Drain { got_new: true, .. }) => 1,
        _ => 0,
    }
}

/// How many faults were deferred before the pass.
pub open spec fn pass_prev(s: HandlerState) -> nat {
    match drain_mode(s) {
        Some(Mode::Drain { prev, .. }) => prev as nat,
        _ => 0,
    }
}

/// How many steps the pass has left when no event comes, up to the read that ends it.
pub open spec fn pass_left(s: HandlerState) -> nat {
    match s.phase {
        Phase::Reading(_) => 0,
        Phase::Retrying(_) => s.retry.len() + 1,
        _ => 1,
    }
}

/// A drain that reads no event gets on with every step: it comes to its end, or it is
/// nearer to the end of its pass, or it starts a pass before which fewer faults are
/// deferred than before the last, unless that one had read an event.
pub proof fn law_drain_gets_on(s: HandlerState, reply: Reply)
    requires
        state_wf(s),
        drain_mode(s) is Some,
        s.deferred.len() <= usize::MAX,
        answers(action_of(s), reply),
        !is_event(reply),
    ensures
        ({
            let t = handled(s, reply);
            ||| drain_over(t)
            ||| {
                &&& drain_mode(t) is Some
                &&& pass_got_new(t) == pass_got_new(s)
                &&& pass_prev(t) == pass_prev(s)
                &&& pass_left(t) < pass_left(s)
            }
            ||| {
                &&& drain_mode(t) is Some
                &&& pass_prev(t) == s.deferred.len()
                &&& pass_got_new(t) == 0
                &&& pass_got_new(s) == 1 || s.deferred.len() < pass_prev(s)
            }
        }),
{
}

/// `t` follows `s`, after a reply that is no event, unless the drain is over.
pub open spec fn drain_step(s: HandlerState, reply: Reply, t: HandlerState) -> bool {
    ||| drain_over(s)
    ||| {
        &&& t == handled(s, reply)
        &&& answers(action_of(s), reply)
        &&& !is_event(reply)
        &&& s.deferred.len() <= usize::MAX
    }
}

/// A step of a drain makes what is left of it less.
proof fn lemma_drain_step(s: HandlerState, reply: Reply, t: HandlerState)
    requires
        state_wf(s),
        drain_mode(s) is Some,
        drain_step(s, reply, t),
    ensures
        state_wf(t),
        drain_over(t) || (drain_mode(t) is Some && decreases_to!(
            pass_got_new(s), pass_prev(s), pass_left(s) =>
            pass_got_new(t), pass_prev(t), pass_left(t)
        )),
{
    law_drain_gets_on(s, reply);
    law_no_fault_lost(s, reply);
}

/// A drain ends once no event comes any more, whatever becomes of the faults that it
/// retries: of the states that follow one another from step `i` on, one is at its end.
pub proof fn law_drain_ends(
    states: spec_fn(nat) -> HandlerState,
    replies: spec_fn(nat) -> Reply,
    i: nat,
)
    requires
        state_wf(states(i)),
        drain_mode(states(i)) is Some || drain_over(states(i)),
        forall|n: nat| #[trigger] drain_step(states(n), replies(n), states(n + 1)),
    ensures
        exists|n: nat| i <= n && drain_over(#[trigger] states(n)),
    decreases pass_got_new(states(i)), pass_prev(states(i)), pass_left(states(i)),
{
    let s = states(i);
    if !drain_over(s) {
        assert(drain_step(s, replies(i), states(i + 1)));
        lemma_drain_step(s, replies(i), states(i + 1));
        if !drain_over(states(i + 1)) {
            law_drain_ends(states, replies, i + 1);
        }
        let n = choose|n: nat| i + 1 <= n && drain_over(#[trigger] states(n));
        assert(i <= n && drain_over(states(n)));
    }
}

/// A shutdown ends the handler only when the last pass of its drain read no event and
/// the deferred faults did not become fewer in it. Otherwise only a failed poll or a
/// failed read does.
pub proof fn law_exit_is_drained(s: HandlerState, reply: Reply)
    requires
        handled(s, reply).phase is Exited,
        !(s.phase is Exited),
        answers(action_of(s), reply),
    ensures
        match (s.phase, reply) {
            (Phase::Reading(Mode::Drain { ack, prev, got_new }), _) => !ack && !got_new
                && s.deferred.len() >= prev,
            (Phase::Polling, Reply::PollFailed(errno)) => errno != EINTR,
            (Phase::Reading(_), Reply::Event(EventRead::SystemError(errno))) => errno != EAGAIN,
            (Phase::Reading(_), Reply::Event(EventRead::Failed)) => true,
            _ => false,
        },
{
}

/// The trace holds what is recorded: a line is added when and only when an offset is,
/// no offset is recorded twice, and the counter counts the offsets.
pub proof fn law_trace_follows_record(s: HandlerState, reply: Reply)
    requires
        s.recorded is Some,
        s.recorded->0.no_duplicates(),
        counted(s.recorded, s.stats),
    ensures
        ({
            let t = handled(s, reply);
            &&& t.recorded is Some
            &&& t.recorded->0.no_duplicates()
            &&& counted(t.recorded, t.stats)
            &&& log_of(s.recorded->0) + log_growth(s.recorded, t.recorded) == log_of(t.recorded->0)
        }),
{
    let t = handled(s, reply);
    let before = s.recorded->0;
    let after = t.recorded->0;
    if t.recorded == s.recorded {
        assert(log_of(before) + Seq::<u8>::empty() =~= log_of(before));
    } else {
        let offset = after.last();
        assert(after =~= before.push(offset));
        assert(after.drop_last() =~= before);
    }
}

/// Without a recorder nothing is recorded or counted as recorded.
pub proof fn law_no_recorder_no_trace(s: HandlerState, reply: Reply)
    requires
        s.recorded is None,
    ensures
        handled(s, reply).recorded is None,
        handled(s, reply).stats.recorded_offsets == s.stats.recorded_offsets,
        log_growth(s.recorded, handled(s, reply).recorded) == Seq::<u8>::empty(),
{
}

/// The prefetch entries are taken in order, one at a time.
pub proof fn law_prefetch_in_order(s: HandlerState, reply: Reply)
    ensures
        handled(s, reply).prefetch == s.prefetch,
        handled(s, reply).cursor == s.cursor || handled(s, reply).cursor == s.cursor + 1,
        s.phase is Prefetching && reply is Copied ==> handled(s, reply).cursor == s.cursor + 1,
{
}

// ---- step by step ----

/// The poll returns at once while a page is left to prefetch, and else after 100 ms.
pub proof fn law_poll_timeout(s: HandlerState)
    requires
        s.phase is Polling,
    ensures
        action_of(s) == Action::Poll(0) <==> s.cursor < s.prefetch.len(),
        action_of(s) == Action::Poll(100) <==> s.cursor >= s.prefetch.len(),
{
}

/// For the fault that is being served or retried its own page is copied; one outside of all
/// regions is reported with the start of its page.
pub proof fn law_fault_gets_its_page(s: HandlerState, addr: u64, mode: Mode, k: nat)
    requires
        k < 64,
        s.memory.page_size == pow2(k),
        s.phase == Phase::Serving(addr, mode) || (s.phase == Phase::Retrying(mode) && s.retry.len()
            > 0 && s.retry[0] == addr),
    ensures
        match s.memory.fault_copy(addr) {
            Some(request) => action_of(s) == Action::Copy(request),
            None => action_of(s) == Action::ReportOutside(
                (addr - addr % (s.memory.page_size as u64)) as u64,
            ),
        },
{
    law_page_base_is_multiple(addr, s.memory.page_size, k);
}

/// What is done in each other phase.
pub proof fn law_other_actions(s: HandlerState)
    ensures
        s.phase is AskShutdown ==> action_of(s) == Action::CheckShutdown,
        s.phase is AskDrain ==> action_of(s) == Action::CheckDrain,
        s.phase is Reading ==> action_of(s) == Action::ReadEvent,
        s.phase is Prefetching ==> (s.memory.prefetch_copy(s.prefetch[s.cursor]) matches Some(
            request,
        ) ==> action_of(s) == Action::Copy(request)),
        s.phase matches Phase::Unregistering { start, len, mode } ==> action_of(s)
            == (Action::Unregister { start, len }),
        s.phase matches Phase::Misaligned { start, end, mode } ==> action_of(s)
            == (Action::ReportMisaligned { start, end }),
        s.phase is Acking ==> action_of(s) == Action::AckDrain,
        s.phase is Exited ==> action_of(s) == Action::Exit,
{
}

/// Which replies each action can have.
pub proof fn law_replies(action: Action, reply: Reply)
    ensures
        action is CheckShutdown || action is CheckDrain ==> (answers(action, reply) <==> reply
            is Flag),
        action is Poll ==> (answers(action, reply) <==> reply is Polled || reply is PollFailed),
        action is Copy ==> (answers(action, reply) <==> reply is Copied),
        action is ReadEvent ==> (answers(action, reply) <==> reply is Event),
        action is ReportOutside || action is Unregister || action is ReportMisaligned || action
            is AckDrain ==> (answers(action, reply) <==> reply is Done),
        action is Exit ==> !answers(action, reply),
{
}

/// A round without a shutdown or a drain comes to the poll, and nothing else changes on the
/// way.
pub proof fn law_round_comes_to_poll(s: HandlerState)
    ensures
        s.phase is AskShutdown ==> handled(s, Reply::Flag(false)) == (HandlerState {
            phase: Phase::AskDrain,
            ..s
        }),
        s.phase is AskDrain ==> handled(s, Reply::Flag(false)) == (HandlerState {
            phase: Phase::Polling,
            ..s
        }),
        s.phase is Acking ==> handled(s, Reply::Done) == (HandlerState {
            phase: Phase::Polling,
            ..s
        }),
{
}

/// A shutdown or a drain request starts a pass that first retries every deferred fault, in
/// order, and then reads events. Only for a drain request someone waits.
pub proof fn law_drain_retries_first(s: HandlerState)
    requires
        s.phase is AskShutdown || s.phase is AskDrain,
        s.deferred.len() <= usize::MAX,
    ensures
        ({
            let t = handled(s, Reply::Flag(true));
            let mode = Mode::Drain {
                ack: s.phase is AskDrain,
                prev: s.deferred.len() as usize,
                got_new: false,
            };
            &&& s.deferred.len() > 0 ==> t == (HandlerState {
                phase: Phase::Retrying(mode),
                retry: s.deferred,
                deferred: Seq::empty(),
                ..s
            })
            &&& s.deferred.len() == 0 ==> t == (HandlerState { phase: Phase::Reading(mode), ..s })
        }),
{
}

/// A poll that a signal interrupted (error 4) starts the round over, and one that failed in
/// another way ends the handler. After any other the deferred faults are retried, in order;
/// then the events are read if there are any, and else the next page is prefetched, or
/// skipped where no region holds it.
pub proof fn law_round_after_poll(s: HandlerState, errno: i32, n: u32)
    requires
        s.phase is Polling,
    ensures
        handled(s, Reply::PollFailed(errno)) == (HandlerState {
            phase: if errno == 4 {
                Phase::AskShutdown
            } else {
                Phase::Exited
            },
            ..s
        }),
        ({
            let t = handled(s, Reply::Polled(n));
            &&& s.deferred.len() > 0 ==> t == (HandlerState {
                phase: Phase::Retrying(Mode::Run { ready: n != 0 }),
                retry: s.deferred,
                deferred: Seq::empty(),
                ..s
            })
            &&& s.deferred.len() == 0 && n != 0 ==> t == (HandlerState {
                phase: Phase::Reading(Mode::Run { ready: true }),
                ..s
            })
            &&& s.deferred.len() == 0 && n == 0 && s.cursor >= s.prefetch.len() ==> t == (
            HandlerState { phase: Phase::AskShutdown, ..s })
            &&& s.deferred.len() == 0 && n == 0 && s.cursor < s.prefetch.len() ==> if s.memory.prefetch_copy(
                s.prefetch[s.cursor],
            ) is Some {
                t == (HandlerState { phase: Phase::Prefetching, ..s })
            } else {
                t == (HandlerState { phase: Phase::AskShutdown, cursor: s.cursor + 1, ..s })
            }
        }),
{
}

/// Reading goes on after a fault that an event brought. Of the faults to retry one is taken at
/// a time, from the front; after the last one the round goes on where it would have without
/// deferred faults.
pub proof fn law_pass_goes_on(s: HandlerState, mode: Mode, addr: u64, result: CopyResult)
    ensures
        s.phase == Phase::Serving(addr, mode) ==> {
            let t = handled(s, Reply::Copied(result));
            t.phase == Phase::Reading(mode) && t.retry == s.retry && t.cursor == s.cursor
        },
        s.phase == Phase::Retrying(mode) && s.retry.len() > 1 ==> {
            let t = handled(s, Reply::Copied(result));
            t.phase == s.phase && t.retry == s.retry.skip(1) && t.cursor == s.cursor
        },
        s.phase == Phase::Retrying(mode) && s.retry.len() == 1 ==> {
            let t = handled(s, Reply::Copied(result));
            &&& t.retry.len() == 0
            &&& mode is Drain || mode == (Mode::Run { ready: true }) ==> t.phase == Phase::Reading(
                mode,
            )
            &&& mode == (Mode::Run { ready: false }) ==> (t.phase is Prefetching || t.phase
                is AskShutdown) && (t.phase is Prefetching <==> s.cursor < s.prefetch.len()
                && s.memory.prefetch_copy(s.prefetch[s.cursor]) is Some)
        },
{
}

/// A copy for a fault counts once. When the page was copied or was there already (error 17)
/// the fault is served, and recorded; when the copy was stopped at no byte, or with error 11
/// in place of a size, the fault is deferred behind those that are; and in every other case
/// it has failed. No other counter changes.
pub proof fn law_fault_is_counted_once(s: HandlerState, addr: u64, mode: Mode, result: CopyResult)
    requires
        s.phase == Phase::Serving(addr, mode) || (s.phase == Phase::Retrying(mode) && s.retry.len()
            > 0 && s.retry[0] == addr),
    ensures
        ({
            let t = handled(s, Reply::Copied(result));
            let served = result == CopyResult::Copied || result == CopyResult::CopyFailed(17);
            let blocked = result matches CopyResult::PartiallyCopied(bytes) && (bytes == 0 || bytes
                + 11 == usize::MAX + 1);
            &&& t.stats.faults_served == if served {
                (s.stats.faults_served + 1) % 0x1_0000_0000_0000_0000
            } else {
                s.stats.faults_served as int
            }
            &&& t.stats.faults_deferred == if blocked {
                (s.stats.faults_deferred + 1) % 0x1_0000_0000_0000_0000
            } else {
                s.stats.faults_deferred as int
            }
            &&& t.stats.faults_failed_transient == if !served && !blocked {
                (s.stats.faults_failed_transient + 1) % 0x1_0000_0000_0000_0000
            } else {
                s.stats.faults_failed_transient as int
            }
            &&& t.stats.prefetch_served == s.stats.prefetch_served
            &&& t.stats.prefetch_eexist == s.stats.prefetch_eexist
            &&& t.stats.prefetch_eagain == s.stats.prefetch_eagain
            &&& t.stats.prefetch_failed == s.stats.prefetch_failed
            &&& t.deferred == if blocked {
                s.deferred.push(addr)
            } else {
                s.deferred
            }
            &&& t.recorded == if served {
                recorded_after(s.recorded, s.memory.regions@, s.memory.page_size, addr)
            } else {
                s.recorded
            }
            &&& t.stats.recorded_offsets == if t.recorded == s.recorded {
                s.stats.recorded_offsets as int
            } else {
                (s.stats.recorded_offsets + 1) % 0x1_0000_0000_0000_0000
            }
        }),
{
}

/// A fault outside of all regions has failed once it is reported, and nothing else changes.
pub proof fn law_fault_outside_fails(s: HandlerState, addr: u64, mode: Mode)
    requires
        s.phase == Phase::Serving(addr, mode),
    ensures
        ({
            let t = handled(s, Reply::Done);
            &&& t.stats == (Stats {
                faults_failed_transient: bump(s.stats.faults_failed_transient),
                ..s.stats
            })
            &&& t == (HandlerState { phase: Phase::Reading(mode), stats: t.stats, ..s })
        }),
{
}

/// A prefetch counts once, in the counter of its outcome: copied, there already (error 17),
/// stopped at no byte or with error 11 in place of a size, or failed. It takes its entry off
/// the list and starts the next round; nothing else changes.
pub proof fn law_prefetch_is_counted_once(s: HandlerState, result: CopyResult)
    requires
        s.phase is Prefetching,
    ensures
        ({
            let t = handled(s, Reply::Copied(result));
            let blocked = result matches CopyResult::PartiallyCopied(bytes) && (bytes == 0 || bytes
                + 11 == usize::MAX + 1);
            &&& t == (HandlerState {
                stats: t.stats,
                cursor: s.cursor + 1,
                phase: Phase::AskShutdown,
                ..s
            })
            &&& t.stats == if result == CopyResult::Copied {
                Stats { prefetch_served: bump(s.stats.prefetch_served), ..s.stats }
            } else if result == CopyResult::CopyFailed(17) {
                Stats { prefetch_eexist: bump(s.stats.prefetch_eexist), ..s.stats }
            } else if blocked {
                Stats { prefetch_eagain: bump(s.stats.prefetch_eagain), ..s.stats }
            } else {
                Stats { prefetch_failed: bump(s.stats.prefetch_failed), ..s.stats }
            }
        }),
{
}

/// An event is taken up at once: a fault is served; a removed range is given up if it is made
/// of whole pages, reported if it is not, and passed over if it is empty; and an event that
/// was not asked for is passed over. Reading goes on after it, and a drain takes note of it.
pub proof fn law_event_is_taken_up(
    s: HandlerState,
    mode: Mode,
    addr: u64,
    start: usize,
    end: usize,
)
    requires
        s.phase == Phase::Reading(mode),
        s.memory.page_size > 0,
    ensures
        ({
            let next = match mode {
                Mode::Run { ready } => mode,
                Mode::Drain { ack, prev, got_new } => Mode::Drain { ack, prev, got_new: true },
            };
            let ps = s.memory.page_size;
            let fault = handled(s, Reply::Event(EventRead::Pagefault(addr)));
            let other = handled(s, Reply::Event(EventRead::Unexpected));
            let removed = handled(s, Reply::Event(EventRead::Remove { start, end }));
            &&& fault == (HandlerState { phase: Phase::Serving(addr, next), ..s })
            &&& other == (HandlerState { phase: Phase::Reading(next), ..s })
            &&& removed == (HandlerState { phase: removed.phase, ..s })
            &&& end <= start ==> removed.phase == Phase::Reading(next)
            &&& start < end && start % ps == 0 && end % ps == 0 ==> removed.phase
                == (Phase::Unregistering { start, len: (end - start) as usize, mode: next })
            &&& start < end && !(start % ps == 0 && end % ps == 0) ==> removed.phase
                == (Phase::Misaligned { start, end, mode: next })
        }),
{
}

/// Reading goes on after a removed range was given up or reported.
pub proof fn law_reading_goes_on(s: HandlerState, start: usize, len: usize, end: usize, mode: Mode)
    ensures
        s.phase == (Phase::Unregistering { start, len, mode }) ==> handled(s, Reply::Done) == (
        HandlerState { phase: Phase::Reading(mode), ..s }),
        s.phase == (Phase::Misaligned { start, end, mode }) ==> handled(s, Reply::Done) == (
        HandlerState { phase: Phase::Reading(mode), ..s }),
{
}

/// In an ordinary round the next one starts when no event is queued any more, which error 11
/// says too; any other failure of the read ends the handler.
pub proof fn law_round_ends(s: HandlerState, ready: bool, errno: i32)
    requires
        s.phase == Phase::Reading(Mode::Run { ready }),
    ensures
        handled(s, Reply::Event(EventRead::Empty)) == (HandlerState {
            phase: Phase::AskShutdown,
            ..s
        }),
        handled(s, Reply::Event(EventRead::SystemError(errno))) == (HandlerState {
            phase: if errno == 11 {
                Phase::AskShutdown
            } else {
                Phase::Exited
            },
            ..s
        }),
        handled(s, Reply::Event(EventRead::Failed)) == (HandlerState { phase: Phase::Exited, ..s }),
{
}

/// A pass of a drain ends when no event is queued any more or the read fails. Another pass
/// follows if this one read an event or left fewer faults deferred than there were before it.
/// Otherwise the drain is over: it is acknowledged if someone waits for it, and else the
/// handler exits.
pub proof fn law_pass_of_drain_ends(
    s: HandlerState,
    ack: bool,
    prev: usize,
    got_new: bool,
    read: EventRead,
)
    requires
        s.phase == Phase::Reading(Mode::Drain { ack, prev, got_new }),
        read is Empty || read is SystemError || read is Failed,
        s.deferred.len() <= usize::MAX,
    ensures
        ({
            let t = handled(s, Reply::Event(read));
            let again = got_new || s.deferred.len() < prev;
            let mode = Mode::Drain { ack, prev: s.deferred.len() as usize, got_new: false };
            &&& again && s.deferred.len() > 0 ==> t == (HandlerState {
                phase: Phase::Retrying(mode),
                retry: s.deferred,
                deferred: Seq::empty(),
                ..s
            })
            &&& again && s.deferred.len() == 0 ==> t == (HandlerState {
                phase: Phase::Reading(mode),
                ..s
            })
            &&& !again ==> t == (HandlerState {
                phase: if ack {
                    Phase::Acking
                } else {
                    Phase::Exited
                },
                ..s
            })
        }),
{
}

/// What faults are served from, and the list of what to prefetch, never change.
pub proof fn law_memory_stays(s: HandlerState, reply: Reply)
    ensures
        handled(s, reply).memory == s.memory,
        handled(s, reply).prefetch == s.prefetch,
{
}

/// The counter of recorded offsets counts them, modulo 2^64.
pub proof fn law_recorded_offsets_are_counted(offsets: Seq<u64>, stats: Stats)
    ensures
        counted(Some(offsets), stats) <==> stats.recorded_offsets == offsets.len() as int
            % 0x1_0000_0000_0000_0000,
        counted(None, stats) <==> stats.recorded_offsets == 0,
{
}

/// A drain request has come to something exactly when it was delivered and acknowledged; one
/// that was not delivered found no handler.
pub proof fn law_drain_result(delivered: bool, acknowledged: bool, r: Result<(), DrainError>)
    requires
        call_ensures(drain_result, (delivered, acknowledged), r),
    ensures
        r is Ok <==> delivered && acknowledged,
        r == Err::<(), _>(DrainError::HandlerExited) <==> !delivered,
        r == Err::<(), _>(DrainError::NoAck) <==> delivered && !acknowledged,
{
}

} // verus!
