//! Background memory-snapshot writer.
//!
//! The dump of a diff snapshot runs on a thread of its own, so that the create call
//! returns at the snapshot point. What is decided here is how its status is kept and
//! how a caller waits for it.
use vstd::prelude::*;

verus! {

/// The write is running.
pub const STATUS_WRITING: u8 = 1;

/// The write finished successfully.
pub const STATUS_COMPLETE: u8 = 2;

/// The write failed.
pub const STATUS_ERROR: u8 = 3;

/// Milliseconds between two looks at the status.
pub const WAIT_INTERVAL_MS: u64 = 10;

/// Errors of the background snapshot writer.
#[derive(Debug, PartialEq, Eq)]
pub enum BackgroundWriteError {
    /// The writer could not be spawned.
    SpawnThread(String),
    /// The write failed.
    Write(String),
    /// The writer panicked.
    ThreadPanicked,
    /// The writer did not finish in time.
    Timeout,
}

/// The writer has finished, one way or the other.
pub open spec fn is_final(status: u8) -> bool {
    status == STATUS_COMPLETE || status == STATUS_ERROR
}

/// The status after the dump returned `result`.
pub fn status_after(result: &Result<(), BackgroundWriteError>) -> (status: u8)
    ensures
        status == if *result is Ok {
            STATUS_COMPLETE
        } else {
            STATUS_ERROR
        },
        is_final(status),
{
    match result {
        Ok(_) => STATUS_COMPLETE,
        Err(_) => STATUS_ERROR,
    }
}

/// What a waiting caller does next.
#[derive(Debug, PartialEq, Eq)]
pub enum WaitStep {
    /// Join the writer, and take its result.
    Join,
    /// Look again after this many milliseconds.
    Sleep(u64),
    /// Give up.
    Fail(BackgroundWriteError),
}

/// What a caller that waits does next, when the writer has `status`, its thread has
/// `finished` or not, there is still a writer to join or not, and the deadline has passed
/// or not. A thread that finished without a final status has panicked, which joining it
/// shows. A writer that did not finish in time is left running: it cannot be stopped in
/// the middle of a write.
pub fn wait_step(status: u8, finished: bool, joinable: bool, deadline_passed: bool) -> (step: WaitStep)
    ensures
        step == wait_step_of(status, finished, joinable, deadline_passed),
{
    if !joinable {
        WaitStep::Fail(BackgroundWriteError::ThreadPanicked)
    } else if status == STATUS_COMPLETE || status == STATUS_ERROR || finished {
        WaitStep::Join
    } else if deadline_passed {
        WaitStep::Fail(BackgroundWriteError::Timeout)
    } else {
        WaitStep::Sleep(WAIT_INTERVAL_MS)
    }
}

/// What a caller that waits does next.
pub open spec fn wait_step_of(
    status: u8,
    finished: bool,
    joinable: bool,
    deadline_passed: bool,
) -> WaitStep {
    if !joinable {
        WaitStep::Fail(BackgroundWriteError::ThreadPanicked)
    } else if is_final(status) || finished {
        WaitStep::Join
    } else if deadline_passed {
        WaitStep::Fail(BackgroundWriteError::Timeout)
    } else {
        WaitStep::Sleep(WAIT_INTERVAL_MS)
    }
}

/// The result of a joined writer; `None` if it panicked.
pub fn joined_result(result: Option<Result<(), BackgroundWriteError>>) -> (r: Result<
    (),
    BackgroundWriteError,
>)
    ensures
        r == joined_result_of(result),
{
    match result {
        Some(result) => result,
        None => Err(BackgroundWriteError::ThreadPanicked),
    }
}

/// The result of a joined writer; `None` if it panicked.
pub open spec fn joined_result_of(result: Option<Result<(), BackgroundWriteError>>) -> Result<
    (),
    BackgroundWriteError,
> {
    match result {
        Some(result) => result,
        None => Err(BackgroundWriteError::ThreadPanicked),
    }
}

/// A writer whose thread has ended is never waited for, nor given up on as too slow: it is
/// joined, and what comes out is what the dump returned, or that it panicked. That holds
/// whether or not the deadline has passed and whatever status a panic left behind.
pub proof fn law_ended_writer_is_joined(
    status: u8,
    deadline_passed: bool,
    result: Option<Result<(), BackgroundWriteError>>,
)
    ensures
        wait_step_of(status, true, true, deadline_passed) == WaitStep::Join,
        joined_result_of(None) == Err::<(), _>(BackgroundWriteError::ThreadPanicked),
        result is Some ==> joined_result_of(result) == result->0,
{
}

/// The writer is joined exactly when there is one and it has a final status (2 for complete,
/// 3 for failed) or its thread has ended. A caller that finds no writer is told that it
/// panicked; one that may still wait looks again after 10 ms; and any other is told that the
/// writer took too long.
pub proof fn law_wait_steps(status: u8, finished: bool, joinable: bool, deadline_passed: bool)
    ensures
        ({
            let step = wait_step_of(status, finished, joinable, deadline_passed);
            let ended = status == 2 || status == 3 || finished;
            &&& step == WaitStep::Join <==> joinable && ended
            &&& step == WaitStep::Fail(BackgroundWriteError::ThreadPanicked) <==> !joinable
            &&& step == WaitStep::Fail(BackgroundWriteError::Timeout) <==> joinable && !ended
                && deadline_passed
            &&& step == WaitStep::Sleep(10) <==> joinable && !ended && !deadline_passed
        }),
        is_final(status) <==> status == 2 || status == 3,
        STATUS_WRITING == 1,
        STATUS_COMPLETE == 2,
        STATUS_ERROR == 3,
{
}

/// A dump that succeeded leaves the status complete, and any other the status failed.
pub proof fn law_status_after_dump(result: Result<(), BackgroundWriteError>, status: u8)
    requires
        call_ensures(status_after, (&result,), status),
    ensures
        status == 2 <==> result is Ok,
        status == 3 <==> result is Err,
{
}

} // verus!
