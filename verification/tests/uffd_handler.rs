use vmm::uffd_internal::handler::{
    drain_result, Action, DrainError, EventRead, Handler, Reply, POLL_TIMEOUT_MS,
};
use vmm::uffd_internal::presence::{Backing, Layer};
use vmm::uffd_internal::regions::layout_regions;
use vmm::uffd_internal::serve::{CopyRequest, CopyResult, Memory};

const BASE: u64 = 0x10_0000;

fn handler(prefetch: &[u64], record: bool) -> Handler {
    let memory = Memory::new(
        layout_regions(&[(BASE, 0x8000)], 4096),
        4096,
        Backing { present: None },
    );
    Handler::new(memory, prefetch.to_vec(), record)
}

fn copy(offset: u64) -> Action {
    Action::Copy(CopyRequest {
        layer: Layer::Overlay,
        src: offset,
        dst: BASE + offset,
        len: 4096,
    })
}

/// Hold the actions of `handler` against `script`, replying as it says.
fn play(handler: &mut Handler, log: &mut Vec<u8>, script: &[(Action, Reply)]) {
    for (i, (action, reply)) in script.iter().enumerate() {
        assert_eq!(handler.action(), *action, "step {i}");
        handler.handle(*reply, log);
    }
}

const NO: Reply = Reply::Flag(false);
const YES: Reply = Reply::Flag(true);
const EMPTY: Reply = Reply::Event(EventRead::Empty);
const COPIED: Reply = Reply::Copied(CopyResult::Copied);
const BLOCKED: Reply = Reply::Copied(CopyResult::PartiallyCopied(0));

fn fault(addr: u64) -> Reply {
    Reply::Event(EventRead::Pagefault(addr))
}

#[test]
fn a_fault_is_served_and_recorded() {
    let mut handler = handler(&[], true);
    let mut log = Vec::new();
    play(
        &mut handler,
        &mut log,
        &[
            (Action::CheckShutdown, NO),
            (Action::CheckDrain, NO),
            (Action::Poll(POLL_TIMEOUT_MS), Reply::Polled(1)),
            (Action::ReadEvent, fault(BASE + 0x1234)),
            (copy(0x1000), COPIED),
            (Action::ReadEvent, fault(BASE + 0x1fff)),
            (copy(0x1000), Reply::Copied(CopyResult::CopyFailed(17))),
            (Action::ReadEvent, fault(BASE + 0x3000)),
            (copy(0x3000), Reply::Copied(CopyResult::Failed)),
            (Action::ReadEvent, fault(BASE - 1)),
            (Action::ReportOutside(BASE - 0x1000), Reply::Done),
            (Action::ReadEvent, EMPTY),
            (Action::CheckShutdown, NO),
        ],
    );
    assert_eq!(log, b"4096\n");
    let stats = handler.stats();
    assert_eq!(stats.faults_served, 2);
    assert_eq!(stats.faults_failed_transient, 2);
    assert_eq!(stats.recorded_offsets, 1);
}

#[test]
fn a_blocked_fault_is_retried_in_the_next_round() {
    let mut handler = handler(&[], false);
    let mut log = Vec::new();
    play(
        &mut handler,
        &mut log,
        &[
            (Action::CheckShutdown, NO),
            (Action::CheckDrain, NO),
            (Action::Poll(100), Reply::Polled(1)),
            (Action::ReadEvent, fault(BASE)),
            (copy(0), BLOCKED),
            (Action::ReadEvent, fault(BASE + 0x2000)),
            (copy(0x2000), BLOCKED),
            (
                Action::ReadEvent,
                Reply::Event(EventRead::Remove { start: 0x4000, end: 0x6000 }),
            ),
            (Action::Unregister { start: 0x4000, len: 0x2000 }, Reply::Done),
            (Action::ReadEvent, Reply::Event(EventRead::SystemError(11))),
            (Action::CheckShutdown, NO),
            (Action::CheckDrain, NO),
            (Action::Poll(100), Reply::Polled(0)),
            (copy(0), COPIED),
            (copy(0x2000), BLOCKED),
            (Action::CheckShutdown, NO),
            (Action::CheckDrain, NO),
            (Action::Poll(100), Reply::Polled(1)),
            (copy(0x2000), COPIED),
            (Action::ReadEvent, Reply::Event(EventRead::Unexpected)),
            (
                Action::ReadEvent,
                Reply::Event(EventRead::Remove { start: 1, end: 0x6000 }),
            ),
            (Action::ReportMisaligned { start: 1, end: 0x6000 }, Reply::Done),
            (
                Action::ReadEvent,
                Reply::Event(EventRead::Remove { start: 0x6000, end: 0x6000 }),
            ),
            (Action::ReadEvent, EMPTY),
            (Action::CheckShutdown, NO),
        ],
    );
    assert_eq!(handler.stats().faults_served, 2);
    assert_eq!(handler.stats().faults_deferred, 3);
    assert!(log.is_empty());
}

#[test]
fn prefetch_goes_on_while_nothing_is_queued() {
    let mut handler = handler(&[0x1000, 0x9000, 0x2000, 0x3000, 0x4000], false);
    let mut log = Vec::new();
    play(
        &mut handler,
        &mut log,
        &[
            (Action::CheckShutdown, NO),
            (Action::CheckDrain, NO),
            (Action::Poll(0), Reply::Polled(0)),
            (copy(0x1000), COPIED),
            (Action::CheckShutdown, NO),
            (Action::CheckDrain, NO),
            // An offset outside of all regions is passed over.
            (Action::Poll(0), Reply::Polled(0)),
            (Action::CheckShutdown, NO),
            (Action::CheckDrain, NO),
            // A fault comes first.
            (Action::Poll(0), Reply::Polled(1)),
            (Action::ReadEvent, fault(BASE + 0x2000)),
            (copy(0x2000), COPIED),
            (Action::ReadEvent, EMPTY),
            (Action::CheckShutdown, NO),
            (Action::CheckDrain, NO),
            (Action::Poll(0), Reply::Polled(0)),
            (copy(0x2000), Reply::Copied(CopyResult::CopyFailed(17))),
            (Action::CheckShutdown, NO),
            (Action::CheckDrain, NO),
            (Action::Poll(0), Reply::Polled(0)),
            (copy(0x3000), BLOCKED),
            (Action::CheckShutdown, NO),
            (Action::CheckDrain, NO),
            (Action::Poll(0), Reply::Polled(0)),
            (copy(0x4000), Reply::Copied(CopyResult::Failed)),
            (Action::CheckShutdown, NO),
            (Action::CheckDrain, NO),
            (Action::Poll(100), Reply::Polled(0)),
            (Action::CheckShutdown, NO),
        ],
    );
    let stats = handler.stats();
    assert_eq!(
        (
            stats.prefetch_served,
            stats.prefetch_eexist,
            stats.prefetch_eagain,
            stats.prefetch_failed
        ),
        (1, 1, 1, 1)
    );
}

#[test]
fn a_drain_goes_on_until_nothing_moves() {
    let mut handler = handler(&[], false);
    let mut log = Vec::new();
    play(
        &mut handler,
        &mut log,
        &[
            (Action::CheckShutdown, NO),
            (Action::CheckDrain, YES),
            // A new event: another pass.
            (Action::ReadEvent, fault(BASE)),
            (copy(0), BLOCKED),
            (Action::ReadEvent, EMPTY),
            // The fault is retried; fewer are deferred: another pass.
            (copy(0), COPIED),
            (Action::ReadEvent, Reply::Event(EventRead::Failed)),
            // No event, nothing deferred: complete.
            (Action::ReadEvent, Reply::Event(EventRead::SystemError(22))),
            (Action::AckDrain, Reply::Done),
            (Action::Poll(100), Reply::Polled(0)),
            (Action::CheckShutdown, NO),
        ],
    );
}

#[test]
fn a_drain_ends_with_faults_that_stay_blocked() {
    let mut handler = handler(&[], false);
    let mut log = Vec::new();
    play(
        &mut handler,
        &mut log,
        &[
            (Action::CheckShutdown, YES),
            (Action::ReadEvent, fault(BASE)),
            (copy(0), BLOCKED),
            (Action::ReadEvent, EMPTY),
            (copy(0), BLOCKED),
            (Action::ReadEvent, EMPTY),
        ],
    );
    assert_eq!(handler.action(), Action::Exit);
}

#[test]
fn failures_end_the_handler_or_the_round() {
    let mut log = Vec::new();
    let to_poll = [(Action::CheckShutdown, NO), (Action::CheckDrain, NO)];

    let mut interrupted = handler(&[], false);
    play(&mut interrupted, &mut log, &to_poll);
    interrupted.handle(Reply::PollFailed(4), &mut log);
    assert_eq!(interrupted.action(), Action::CheckShutdown);

    let mut failed = handler(&[], false);
    play(&mut failed, &mut log, &to_poll);
    failed.handle(Reply::PollFailed(5), &mut log);
    assert_eq!(failed.action(), Action::Exit);

    for read in [EventRead::SystemError(22), EventRead::SystemError(5), EventRead::Failed] {
        let mut gone = handler(&[], false);
        play(&mut gone, &mut log, &to_poll);
        gone.handle(Reply::Polled(1), &mut log);
        gone.handle(Reply::Event(read), &mut log);
        assert_eq!(gone.action(), Action::Exit);
    }
}

#[test]
fn drain_requests_have_results() {
    assert_eq!(drain_result(true, true), Ok(()));
    assert_eq!(drain_result(true, false), Err(DrainError::NoAck));
    assert_eq!(drain_result(false, false), Err(DrainError::HandlerExited));
}
