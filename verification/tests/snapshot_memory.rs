use std::sync::{Arc, Mutex};

use vmm::snapshot::background_writer::{
    joined_result, status_after, wait_step, BackgroundWriteError, WaitStep, STATUS_COMPLETE,
    STATUS_ERROR, STATUS_WRITING,
};
use vmm::snapshot::write_protect::{
    wp_next, CowPages, FinishStep, SnapshotWriteProtect, UffdError, WpPhase, WpReply,
    WriteProtectError, MAX_COW_PAGES, PAGE_SIZE,
};

#[test]
fn test_cow_pages_type() {
    // Basic test that CowPages can be created and shared
    let pages = Arc::new(Mutex::new(CowPages::new()));
    let clone = Arc::clone(&pages);

    pages.lock().unwrap().insert(0x1000, vec![0xAA; PAGE_SIZE]);
    assert_eq!(clone.lock().unwrap().len(), 1);
}

#[test]
fn saved_pages_can_be_read_back() {
    let mut pages = CowPages::new();
    pages.save(0x1000, vec![1]);
    pages.save(0x2000, vec![2]);
    pages.save(0x1000, vec![3]);
    assert_eq!(pages.len(), 2);
    assert_eq!(pages.get(0x1000), Some(&vec![3]));
    assert_eq!(pages.get(0x2000), Some(&vec![2]));
    assert_eq!(pages.get(0x3000), None);
}

#[test]
fn no_more_pages_are_saved_than_the_cap() {
    assert_eq!(MAX_COW_PAGES, 256 * 1024);
    let mut pages = CowPages::new();
    for i in 0..MAX_COW_PAGES as u64 {
        pages.save(i * 4096, vec![]);
    }
    assert_eq!(pages.len(), MAX_COW_PAGES);
    pages.save(0, vec![7]);
    pages.save(u64::MAX, vec![7]);
    assert_eq!(pages.len(), MAX_COW_PAGES);
    assert_eq!(pages.get(0), Some(&vec![]));
    assert_eq!(pages.get(u64::MAX), None);
}

#[test]
fn protected_ranges_are_lifted_once() {
    let mut wp = SnapshotWriteProtect::new();
    assert_eq!(wp.protect(0x1000, 0x2000, Ok(())), Ok(()));
    assert_eq!(
        wp.protect(0x9000, 0x1000, Err(UffdError::SystemError(22))),
        Err(WriteProtectError::WriteProtect(UffdError::SystemError(22)))
    );
    assert_eq!(wp.protect(0x5000, 0x1000, Ok(())), Ok(()));
    assert_eq!(wp.start_handler(false), Err(WriteProtectError::HandlerPanicked));
    assert_eq!(wp.start_handler(true), Ok(()));
    wp.save_page(0x1000, vec![7]);
    assert_eq!(
        wp.finish(),
        vec![
            FinishStep::SignalStop,
            FinishStep::Lift { addr: 0x1000, len: 0x2000 },
            FinishStep::Lift { addr: 0x5000, len: 0x1000 },
            FinishStep::JoinHandler,
        ]
    );
    assert_eq!(wp.cow_pages().get(0x1000), Some(&vec![7]));
    assert_eq!(wp.finish(), vec![FinishStep::SignalStop]);
    assert_eq!(wp.cow_pages().len(), 1);
    assert_eq!(wp.cow_pages().get(0x1000), Some(&vec![7]));
}

#[test]
fn a_stopped_handler_exits_from_every_phase() {
    for start in [
        WpPhase::CheckStop,
        WpPhase::WaitEvent,
        WpPhase::ReadEvent,
        WpPhase::SavePage(0x1000),
        WpPhase::Unprotect(0x1000),
        WpPhase::Exited,
    ] {
        let mut phase = start;
        for _ in 0..5 {
            let reply = match phase {
                WpPhase::CheckStop => WpReply::Stop(true),
                WpPhase::WaitEvent => WpReply::Ready(true),
                WpPhase::ReadEvent => WpReply::Fault(0x1234),
                _ => WpReply::Done,
            };
            phase = wp_next(phase, reply);
        }
        assert_eq!(phase, WpPhase::Exited);
    }
}

#[test]
fn a_page_is_saved_before_it_is_unprotected() {
    let phase = wp_next(WpPhase::CheckStop, WpReply::Stop(false));
    assert_eq!(phase, WpPhase::WaitEvent);
    assert_eq!(wp_next(phase, WpReply::Ready(false)), WpPhase::CheckStop);
    let phase = wp_next(phase, WpReply::Ready(true));
    assert_eq!(phase, WpPhase::ReadEvent);
    let phase = wp_next(phase, WpReply::Fault(0x1234));
    assert_eq!(phase, WpPhase::SavePage(0x1000));
    let phase = wp_next(phase, WpReply::Done);
    assert_eq!(phase, WpPhase::Unprotect(0x1000));
    assert_eq!(wp_next(phase, WpReply::Done), WpPhase::CheckStop);
    for reply in [WpReply::NoEvent, WpReply::OtherEvent, WpReply::Failed] {
        assert_eq!(wp_next(WpPhase::ReadEvent, reply), WpPhase::CheckStop);
    }
    assert_eq!(wp_next(WpPhase::CheckStop, WpReply::Stop(true)), WpPhase::Exited);
}

#[test]
fn the_status_follows_the_dump() {
    assert_eq!(status_after(&Ok(())), STATUS_COMPLETE);
    assert_eq!(
        status_after(&Err(BackgroundWriteError::Write("disk full".to_string()))),
        STATUS_ERROR
    );
}

#[test]
fn a_waiting_caller_joins_sleeps_or_gives_up() {
    assert_eq!(wait_step(STATUS_COMPLETE, false, true, true), WaitStep::Join);
    assert_eq!(wait_step(STATUS_ERROR, false, true, false), WaitStep::Join);
    // A thread that ended without a final status panicked: joining it shows that.
    assert_eq!(wait_step(STATUS_WRITING, true, true, false), WaitStep::Join);
    assert_eq!(wait_step(STATUS_WRITING, true, true, true), WaitStep::Join);
    assert_eq!(
        wait_step(STATUS_COMPLETE, true, false, false),
        WaitStep::Fail(BackgroundWriteError::ThreadPanicked)
    );
    assert_eq!(
        wait_step(STATUS_WRITING, false, false, false),
        WaitStep::Fail(BackgroundWriteError::ThreadPanicked)
    );
    assert_eq!(
        wait_step(STATUS_WRITING, false, true, true),
        WaitStep::Fail(BackgroundWriteError::Timeout)
    );
    assert_eq!(wait_step(STATUS_WRITING, false, true, false), WaitStep::Sleep(10));
    assert_eq!(joined_result(None), Err(BackgroundWriteError::ThreadPanicked));
    assert_eq!(joined_result(Some(Ok(()))), Ok(()));
    let e = || BackgroundWriteError::Write("disk full".to_string());
    assert_eq!(joined_result(Some(Err(e()))), Err(e()));
}
