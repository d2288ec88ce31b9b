//! Write-protect based copy-on-write for memory snapshots.
//!
//! Guest pages are write-protected while a snapshot is written. When the guest writes
//! to one, its old contents are saved before the protection is lifted.
use std::collections::HashMap;

use vstd::prelude::*;

use crate::uffd_internal::regions::{page_base, page_base_of};

verus! {

/// Size of a memory page.
pub const PAGE_SIZE: usize = 4096;

/// How many pages are saved at most. The guest's writes to further pages go ahead
/// without a copy of the old contents.
pub const MAX_COW_PAGES: usize = 262144;

/// Milliseconds for which the handler waits for an event before it looks for the signal
/// to stop again.
pub const EVENT_WAIT_MS: i32 = 10;

/// An error of the userfaultfd.
#[derive(Debug, Clone, Copy, PartialEq, Eq, Structural)]
pub enum UffdError {
    /// A system call failed with this error number.
    SystemError(i32),
    /// Another failure.
    Other,
}

/// Errors of write protection.
#[derive(Debug, Clone, Copy, PartialEq, Eq, Structural)]
pub enum WriteProtectError {
    /// The userfaultfd could not be created.
    UffdCreate(UffdError),
    /// Memory could not be registered.
    UffdRegister(UffdError),
    /// Pages could not be protected.
    WriteProtect(UffdError),
    /// The protection could not be lifted.
    RemoveProtection(UffdError),
    /// An event could not be read.
    ReadEvent(UffdError),
    /// The handler panicked.
    HandlerPanicked,
}

/// The old contents of the pages that the guest wrote to, by page address.
#[derive(Debug, Clone)]
pub struct CowPages {
    pages: HashMap<u64, Vec<u8>>,
}

impl View for CowPages {
    type V = Map<u64, Seq<u8>>;

    closed spec fn view(&self) -> Map<u64, Seq<u8>> {
        self.pages@.map_values(|page: Vec<u8>| page@)
    }
}

/// `pages` after the old contents `data` of the page at `page_addr` were saved, unless
/// as many pages are saved as may be.
pub open spec fn saved(pages: Map<u64, Seq<u8>>, page_addr: u64, data: Seq<u8>) -> Map<
    u64,
    Seq<u8>,
> {
    if pages.dom().len() < MAX_COW_PAGES {
        pages.insert(page_addr, data)
    } else {
        pages
    }
}

impl CowPages {
    /// The number of pages is that of the view.
    pub closed spec fn wf(&self) -> bool {
        self.pages@.dom().finite()
    }

    /// Finitely many pages are saved.
    pub proof fn lemma_wf(&self)
        requires
            self.wf(),
        ensures
            self@.dom().finite(),
    {
        assert(self@.dom() =~= self.pages@.dom());
    }

    /// No pages.
    pub fn new() -> (pages: Self)
        ensures
            pages.wf(),
            pages@ == Map::<u64, Seq<u8>>::empty(),
    {
        broadcast use vstd::std_specs::hash::group_hash_axioms;

        let pages = CowPages { pages: HashMap::new() };
        assert(pages@ =~= Map::<u64, Seq<u8>>::empty());
        pages
    }

    /// How many pages are saved.
    pub fn len(&self) -> (n: usize)
        ensures
            n == self@.dom().len(),
    {
        broadcast use vstd::std_specs::hash::group_hash_axioms;

        assert(self@.dom() =~= self.pages@.dom());
        self.pages.len()
    }

    /// Put `data` in as the page at `page_addr`.
    pub fn insert(&mut self, page_addr: u64, data: Vec<u8>)
        requires
            old(self).wf(),
        ensures
            final(self).wf(),
            final(self)@ == old(self)@.insert(page_addr, data@),
    {
        broadcast use vstd::std_specs::hash::group_hash_axioms;

        self.pages.insert(page_addr, data);
        assert(self@ =~= old(self)@.insert(page_addr, data@));
    }

    /// Save `data` as the old contents of the page at `page_addr`, unless as many pages
    /// are saved as may be.
    pub fn save(&mut self, page_addr: u64, data: Vec<u8>)
        requires
            old(self).wf(),
        ensures
            final(self).wf(),
            final(self)@ == saved(old(self)@, page_addr, data@),
    {
        if self.len() < MAX_COW_PAGES {
            self.insert(page_addr, data);
        }
    }

    /// The old contents of the page at `page_addr`, if they were saved.
    pub fn get(&self, page_addr: u64) -> (page: Option<&Vec<u8>>)
        ensures
            match page {
                Some(page) => self@.dom().contains(page_addr) && page@ == self@[page_addr],
                None => !self@.dom().contains(page_addr),
            },
    {
        broadcast use vstd::std_specs::hash::group_hash_axioms;

        self.pages.get(&page_addr)
    }
}

/// No more pages are ever saved than may be, and saving one leaves the others alone.
pub proof fn law_cow_pages_bounded(
    pages: Map<u64, Seq<u8>>,
    page_addr: u64,
    data: Seq<u8>,
    other: u64,
)
    requires
        pages.dom().finite(),
        pages.dom().len() <= MAX_COW_PAGES,
        other != page_addr,
    ensures
        saved(pages, page_addr, data).dom().finite(),
        saved(pages, page_addr, data).dom().len() <= MAX_COW_PAGES,
        saved(pages, page_addr, data).dom().contains(other) == pages.dom().contains(other),
        saved(pages, page_addr, data)[other] == pages[other],
{
}

/// A step of the end of write protection.
#[derive(Debug, Clone, Copy, PartialEq, Eq, Structural)]
pub enum FinishStep {
    /// Tell the handler to stop.
    SignalStop,
    /// Lift the protection from a range, and wake who waits for it.
    Lift { addr: u64, len: u64 },
    /// Wait until the handler has ended.
    JoinHandler,
}

/// The steps that end the protection of `ranges`, with a handler to stop or without.
pub open spec fn finish_steps(ranges: Seq<(u64, u64)>, handler: bool) -> Seq<FinishStep> {
    seq![FinishStep::SignalStop] + ranges.map_values(
        |range: (u64, u64)| FinishStep::Lift { addr: range.0, len: range.1 },
    ) + if handler {
        seq![FinishStep::JoinHandler]
    } else {
        Seq::empty()
    }
}

/// The write protection of a snapshot: what is protected, whether a handler is there, and
/// the pages that it saved.
#[derive(Debug)]
pub struct SnapshotWriteProtect {
    protected_ranges: Vec<(u64, u64)>,
    handler: bool,
    cow_pages: CowPages,
}

impl SnapshotWriteProtect {
    /// Address and length of each range that is protected, in order.
    pub closed spec fn ranges(&self) -> Seq<(u64, u64)> {
        self.protected_ranges@
    }

    /// A handler was started and not yet stopped.
    pub closed spec fn has_handler(&self) -> bool {
        self.handler
    }

    /// The pages that were saved.
    pub closed spec fn pages(&self) -> Map<u64, Seq<u8>> {
        self.cow_pages@
    }

    /// Finitely many pages are saved.
    pub closed spec fn wf(&self) -> bool {
        self.cow_pages.wf()
    }

    /// What every one has.
    pub proof fn lemma_wf(&self)
        requires
            self.wf(),
        ensures
            self.pages().dom().finite(),
    {
        self.cow_pages.lemma_wf();
    }

    /// Nothing is protected or saved, and no handler is there.
    pub fn new() -> (wp: Self)
        ensures
            wp.wf(),
            wp.ranges() == Seq::<(u64, u64)>::empty(),
            !wp.has_handler(),
            wp.pages() == Map::<u64, Seq<u8>>::empty(),
    {
        SnapshotWriteProtect {
            protected_ranges: Vec::new(),
            handler: false,
            cow_pages: CowPages::new(),
        }
    }

    /// Take note of `result`, what protecting `len` bytes at `addr` gave.
    pub fn protect(&mut self, addr: u64, len: u64, result: Result<(), UffdError>) -> (r: Result<
        (),
        WriteProtectError,
    >)
        requires
            old(self).wf(),
        ensures
            final(self).wf(),
            final(self).has_handler() == old(self).has_handler(),
            final(self).pages() == old(self).pages(),
            match result {
                Ok(_) => r == Ok::<(), WriteProtectError>(()) && final(self).ranges() == old(
                    self,
                ).ranges().push((addr, len)),
                Err(e) => r == Err::<(), _>(WriteProtectError::WriteProtect(e))
                    && final(self).ranges() == old(self).ranges(),
            },
    {
        match result {
            Ok(_) => {
                self.protected_ranges.push((addr, len));
                Ok(())
            },
            Err(e) => Err(WriteProtectError::WriteProtect(e)),
        }
    }

    /// Take note of whether the handler could be spawned.
    pub fn start_handler(&mut self, spawned: bool) -> (r: Result<(), WriteProtectError>)
        requires
            old(self).wf(),
        ensures
            final(self).wf(),
            final(self).ranges() == old(self).ranges(),
            final(self).pages() == old(self).pages(),
            final(self).has_handler() == (spawned || old(self).has_handler()),
            r == if spawned {
                Ok::<(), WriteProtectError>(())
            } else {
                Err(WriteProtectError::HandlerPanicked)
            },
    {
        if !spawned {
            return Err(WriteProtectError::HandlerPanicked);
        }
        self.handler = true;
        Ok(())
    }

    /// Save `data` as the old contents of the page at `page_addr`, unless as many pages
    /// are saved as may be.
    pub fn save_page(&mut self, page_addr: u64, data: Vec<u8>)
        requires
            old(self).wf(),
        ensures
            final(self).wf(),
            final(self).ranges() == old(self).ranges(),
            final(self).has_handler() == old(self).has_handler(),
            final(self).pages() == saved(old(self).pages(), page_addr, data@),
    {
        self.cow_pages.save(page_addr, data);
    }

    /// The pages that were saved.
    pub fn cow_pages(&self) -> (pages: &CowPages)
        ensures
            pages@ == self.pages(),
            self.wf() ==> pages.wf(),
    {
        &self.cow_pages
    }

    /// The steps that end the protection. Nothing is protected after that and no handler
    /// is there; the saved pages stay.
    pub fn finish(&mut self) -> (steps: Vec<FinishStep>)
        requires
            old(self).wf(),
        ensures
            final(self).wf(),
            steps@ == finish_steps(old(self).ranges(), old(self).has_handler()),
            final(self).ranges() == Seq::<(u64, u64)>::empty(),
            !final(self).has_handler(),
            final(self).pages() == old(self).pages(),
    {
        let mut ranges: Vec<(u64, u64)> = Vec::new();
        std::mem::swap(&mut ranges, &mut self.protected_ranges);
        assert(self.protected_ranges@ =~= Seq::<(u64, u64)>::empty());
        let ghost lifts = ranges@.map_values(
            |range: (u64, u64)| FinishStep::Lift { addr: range.0, len: range.1 },
        );
        let mut steps: Vec<FinishStep> = Vec::new();
        steps.push(FinishStep::SignalStop);
        let mut i: usize = 0;
        while i < ranges.len()
            invariant
                i <= ranges@.len(),
                lifts == ranges@.map_values(
                    |range: (u64, u64)| FinishStep::Lift { addr: range.0, len: range.1 },
                ),
                steps@ =~= seq![FinishStep::SignalStop] + lifts.take(i as int),
            decreases ranges@.len() - i,
        {
            let (addr, len) = ranges[i];
            steps.push(FinishStep::Lift { addr, len });
            i += 1;
        }
        if self.handler {
            steps.push(FinishStep::JoinHandler);
            self.handler = false;
        }
        assert(steps@ =~= finish_steps(ranges@, old(self).handler));
        steps
    }
}

/// Ending the protection tells the handler to stop, then lifts the protection from each
/// protected range, once, in order and from nothing else, and then waits for the handler
/// if there is one. Ending it again lifts nothing and waits for nothing.
pub proof fn law_finish_lifts_each_range_once(ranges: Seq<(u64, u64)>, handler: bool, i: int)
    requires
        0 <= i < ranges.len(),
    ensures
        finish_steps(ranges, handler).len() == 1 + ranges.len() + if handler {
            1int
        } else {
            0
        },
        finish_steps(ranges, handler)[0] == FinishStep::SignalStop,
        finish_steps(ranges, handler)[1 + i] == (FinishStep::Lift {
            addr: ranges[i].0,
            len: ranges[i].1,
        }),
        handler ==> finish_steps(ranges, handler)[1 + ranges.len() as int] == FinishStep::JoinHandler,
        finish_steps(Seq::empty(), false) == seq![FinishStep::SignalStop],
{
    assert(finish_steps(Seq::empty(), false) =~= seq![FinishStep::SignalStop]);
}

/// Where the loop that handles write faults stands.
#[derive(Debug, Clone, Copy, PartialEq, Eq, Structural)]
pub enum WpPhase {
    /// Look for the signal to stop; reply with `Stop`.
    CheckStop,
    /// Wait for an event for `EVENT_WAIT_MS` at most; reply with `Ready`.
    WaitEvent,
    /// Read an event; reply with `Fault`, `NoEvent`, `OtherEvent` or `Failed`.
    ReadEvent,
    /// Read the page at this address and save it; reply with `Done`.
    SavePage(u64),
    /// Lift the protection from the page at this address; reply with `Done`.
    Unprotect(u64),
    /// The loop is over.
    Exited,
}

/// The result of what the loop asked for.
#[derive(Debug, Clone, Copy, PartialEq, Eq, Structural)]
pub enum WpReply {
    /// Whether there was a signal to stop.
    Stop(bool),
    /// Whether there is an event to read.
    Ready(bool),
    /// The guest wrote to this address.
    Fault(u64),
    /// No event.
    NoEvent,
    /// An event of another kind.
    OtherEvent,
    /// The event could not be read.
    Failed,
    /// It was done, or could not be.
    Done,
}

/// The phase after `reply`.
pub open spec fn wp_next_of(phase: WpPhase, reply: WpReply) -> WpPhase {
    match (phase, reply) {
        (WpPhase::CheckStop, WpReply::Stop(stop)) => if stop {
            WpPhase::Exited
        } else {
            WpPhase::WaitEvent
        },
        (WpPhase::WaitEvent, WpReply::Ready(ready)) => if ready {
            WpPhase::ReadEvent
        } else {
            WpPhase::CheckStop
        },
        (WpPhase::ReadEvent, WpReply::Fault(addr)) => WpPhase::SavePage(
            page_base_of(addr, PAGE_SIZE),
        ),
        (WpPhase::ReadEvent, _) => WpPhase::CheckStop,
        (WpPhase::SavePage(page), _) => WpPhase::Unprotect(page),
        (WpPhase::Unprotect(_), _) => WpPhase::CheckStop,
        _ => phase,
    }
}

/// The phase after `reply`: the old contents of a page are saved before its protection
/// is lifted, and an event is read only when there is one, so that the loop never misses
/// the signal to stop.
pub fn wp_next(phase: WpPhase, reply: WpReply) -> (next: WpPhase)
    ensures
        next == wp_next_of(phase, reply),
{
    match phase {
        WpPhase::CheckStop => match reply {
            WpReply::Stop(stop) => if stop {
                WpPhase::Exited
            } else {
                WpPhase::WaitEvent
            },
            _ => phase,
        },
        WpPhase::WaitEvent => match reply {
            WpReply::Ready(ready) => if ready {
                WpPhase::ReadEvent
            } else {
                WpPhase::CheckStop
            },
            _ => phase,
        },
        WpPhase::ReadEvent => match reply {
            WpReply::Fault(addr) => WpPhase::SavePage(page_base(addr, PAGE_SIZE)),
            _ => WpPhase::CheckStop,
        },
        WpPhase::SavePage(page) => WpPhase::Unprotect(page),
        WpPhase::Unprotect(_) => WpPhase::CheckStop,
        WpPhase::Exited => phase,
    }
}

/// The protection of a page is lifted only after its old contents were saved.
pub proof fn law_saved_before_unprotected(phase: WpPhase, reply: WpReply, page: u64)
    requires
        wp_next_of(phase, reply) == WpPhase::Unprotect(page),
    ensures
        phase == WpPhase::SavePage(page),
{
}

/// `reply` is one that `phase` asks for, once there was the signal to stop.
pub open spec fn answers_stopped(phase: WpPhase, reply: WpReply) -> bool {
    match phase {
        WpPhase::CheckStop => reply == WpReply::Stop(true),
        WpPhase::WaitEvent => reply is Ready,
        _ => true,
    }
}

/// The phase after `replies`.
pub open spec fn wp_run(phase: WpPhase, replies: Seq<WpReply>) -> WpPhase
    decreases replies.len(),
{
    if replies.len() == 0 {
        phase
    } else {
        wp_run(wp_next_of(phase, replies[0]), replies.drop_first())
    }
}

/// All of `replies` are such that the phases ask for, once there was the signal to stop.
pub open spec fn all_answer_stopped(phase: WpPhase, replies: Seq<WpReply>) -> bool
    decreases replies.len(),
{
    replies.len() == 0 || (answers_stopped(phase, replies[0]) && all_answer_stopped(
        wp_next_of(phase, replies[0]),
        replies.drop_first(),
    ))
}

/// How many steps the loop makes at most once there was the signal to stop.
pub open spec fn steps_to_exit(phase: WpPhase) -> nat {
    match phase {
        WpPhase::Exited => 0,
        WpPhase::CheckStop => 1,
        WpPhase::Unprotect(_) => 2,
        WpPhase::SavePage(_) => 3,
        WpPhase::ReadEvent => 4,
        WpPhase::WaitEvent => 5,
    }
}

/// After the signal to stop, the loop is over within five steps, wherever it stood and
/// whatever events come. The step that waits is bounded in time, and no other waits.
pub proof fn law_stopped_handler_exits(phase: WpPhase, replies: Seq<WpReply>)
    requires
        all_answer_stopped(phase, replies),
        replies.len() >= steps_to_exit(phase),
    ensures
        steps_to_exit(phase) <= 5,
        wp_run(phase, replies) == WpPhase::Exited,
    decreases replies.len(),
{
    if replies.len() > 0 {
        law_stopped_handler_exits(wp_next_of(phase, replies[0]), replies.drop_first());
    }
}

/// The page that is saved for a write of the guest is the one that was written to: it starts
/// at a multiple of the page size, at or below the address and less than a page away. It is
/// the page that is saved whose protection is lifted next, and then the loop starts over.
pub proof fn law_written_page_is_saved(addr: u64, page: u64, reply: WpReply)
    ensures
        wp_next_of(WpPhase::ReadEvent, WpReply::Fault(addr)) matches WpPhase::SavePage(saved_page)
            && saved_page <= addr && addr - saved_page < 4096 && saved_page % 4096 == 0,
        wp_next_of(WpPhase::SavePage(page), reply) == WpPhase::Unprotect(page),
        wp_next_of(WpPhase::Unprotect(page), reply) == WpPhase::CheckStop,
{
    assert(addr & !4095u64 <= addr && addr - (addr & !4095u64) < 4096 && (addr & !4095u64) % 4096
        == 0) by (bit_vector);
}

/// The loop stops exactly when it finds the signal to stop, reads an event exactly when
/// there is one, and starts over after an event that is no write, or none.
pub proof fn law_wp_loop_steps(stop: bool, ready: bool, reply: WpReply)
    ensures
        wp_next_of(WpPhase::CheckStop, WpReply::Stop(stop)) == WpPhase::Exited <==> stop,
        wp_next_of(WpPhase::CheckStop, WpReply::Stop(stop)) == WpPhase::WaitEvent <==> !stop,
        wp_next_of(WpPhase::WaitEvent, WpReply::Ready(ready)) == WpPhase::ReadEvent <==> ready,
        wp_next_of(WpPhase::WaitEvent, WpReply::Ready(ready)) == WpPhase::CheckStop <==> !ready,
        !(reply is Fault) ==> wp_next_of(WpPhase::ReadEvent, reply) == WpPhase::CheckStop,
        wp_next_of(WpPhase::Exited, reply) == WpPhase::Exited,
{
}

/// The old contents of a page are kept as they were as long as fewer than 262144 pages are,
/// and from then on nothing changes.
pub proof fn law_cow_page_is_kept(pages: Map<u64, Seq<u8>>, page_addr: u64, data: Seq<u8>)
    ensures
        pages.dom().len() < 262144 ==> {
            &&& saved(pages, page_addr, data).dom().contains(page_addr)
            &&& saved(pages, page_addr, data)[page_addr] == data
            &&& saved(pages, page_addr, data).remove(page_addr) == pages.remove(page_addr)
        },
        pages.dom().len() >= 262144 ==> saved(pages, page_addr, data) == pages,
{
    if pages.dom().len() < 262144 {
        assert(saved(pages, page_addr, data).remove(page_addr) =~= pages.remove(page_addr));
    }
}

/// After a write of the guest the loop saves the page that holds the address.
pub proof fn law_next_saves_written_page(addr: u64, next: WpPhase)
    requires
        call_ensures(wp_next, (WpPhase::ReadEvent, WpReply::Fault(addr)), next),
    ensures
        next matches WpPhase::SavePage(page) && page <= addr && addr - page < 4096 && page % 4096
            == 0,
{
    law_written_page_is_saved(addr, 0, WpReply::Done);
}

} // verus!
