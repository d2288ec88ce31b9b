//! Serving one page: which bytes go where, and what the outcome means.
use vstd::arithmetic::power2::pow2;
use vstd::prelude::*;

use crate::io_error::{EAGAIN, EEXIST};
use crate::uffd_internal::presence::{
    law_layer_follows_presence_bit, law_present_pages_hold_data, scanned, Backing, Layer,
};
use crate::uffd_internal::regions::{
    find_by_addr, find_by_offset, laid_out, law_layout_is_one_to_one, law_page_base,
    law_page_base_is_multiple, law_region_at_addr, law_region_at_offset, page_base, page_base_of,
    region_at_addr, region_at_offset, regions_wf, sizes_below, GuestRegionUffdMapping,
};
use crate::uffd_internal::stats::Stats;
use crate::uffd_internal::trace::{log_line, Recorder};

verus! {

/// A page to copy into guest memory.
#[derive(Debug, Clone, Copy, PartialEq, Eq, Structural)]
pub struct CopyRequest {
    /// The file that holds it.
    pub layer: Layer,
    /// Where it stands in that file.
    pub src: u64,
    /// The host address that it goes to.
    pub dst: u64,
    /// Its size.
    pub len: usize,
}

/// What the kernel made of a copy.
#[derive(Debug, Clone, Copy, PartialEq, Eq, Structural)]
pub enum CopyResult {
    /// The page was copied.
    Copied,
    /// The copy stopped; the number is as the kernel reports it.
    PartiallyCopied(usize),
    /// The copy failed with this error number.
    CopyFailed(i32),
    /// It failed in another way.
    Failed,
}

/// Outcome of one attempt to serve a page fault.
#[derive(Debug, Clone, Copy, PartialEq, Eq, Structural)]
pub enum ServeOutcome {
    /// The page is resident in guest memory.
    Served,
    /// A removal is queued ahead: retry the address after the events behind it.
    Deferred,
    /// The page is not resident, and nothing can be done about it now.
    FailedTransient,
}

/// Outcome of one attempt to prefetch a page.
#[derive(Debug, Clone, Copy, PartialEq, Eq, Structural)]
pub enum PrefetchOutcome {
    /// The page is resident now.
    Served,
    /// A removal is queued ahead; the page is left to the guest.
    Eagain,
    /// The guest had faulted the page in already.
    Eexist,
    /// It failed in an unexpected way.
    Failed,
}

/// A copy that stopped at no byte, or reports `-EAGAIN` as its size, found a removal
/// queued ahead.
pub open spec fn blocked(bytes: usize) -> bool {
    bytes == 0 || bytes == usize::MAX + 1 - EAGAIN
}

/// What a copy means for the fault that it serves.
pub open spec fn serve_outcome_of(result: CopyResult) -> ServeOutcome {
    match result {
        CopyResult::Copied => ServeOutcome::Served,
        CopyResult::PartiallyCopied(bytes) if blocked(bytes) => ServeOutcome::Deferred,
        CopyResult::CopyFailed(errno) if errno == EEXIST => ServeOutcome::Served,
        _ => ServeOutcome::FailedTransient,
    }
}

/// What a copy means for a prefetch.
pub open spec fn prefetch_outcome_of(result: CopyResult) -> PrefetchOutcome {
    match result {
        CopyResult::Copied => PrefetchOutcome::Served,
        CopyResult::PartiallyCopied(bytes) if blocked(bytes) => PrefetchOutcome::Eagain,
        CopyResult::CopyFailed(errno) if errno == EEXIST => PrefetchOutcome::Eexist,
        _ => PrefetchOutcome::Failed,
    }
}

fn is_blocked(bytes: usize) -> (r: bool)
    ensures
        r == blocked(bytes),
{
    bytes == 0 || bytes == usize::MAX - (EAGAIN as usize - 1)
}

/// What a copy means for the fault that it serves.
pub fn serve_outcome(result: CopyResult) -> (outcome: ServeOutcome)
    ensures
        outcome == serve_outcome_of(result),
{
    match result {
        CopyResult::Copied => ServeOutcome::Served,
        CopyResult::PartiallyCopied(bytes) => if is_blocked(bytes) {
            ServeOutcome::Deferred
        } else {
            ServeOutcome::FailedTransient
        },
        CopyResult::CopyFailed(errno) => if errno == EEXIST {
            ServeOutcome::Served
        } else {
            ServeOutcome::FailedTransient
        },
        CopyResult::Failed => ServeOutcome::FailedTransient,
    }
}

/// What a copy means for a prefetch.
pub fn prefetch_outcome(result: CopyResult) -> (outcome: PrefetchOutcome)
    ensures
        outcome == prefetch_outcome_of(result),
{
    match result {
        CopyResult::Copied => PrefetchOutcome::Served,
        CopyResult::PartiallyCopied(bytes) => if is_blocked(bytes) {
            PrefetchOutcome::Eagain
        } else {
            PrefetchOutcome::Failed
        },
        CopyResult::CopyFailed(errno) => if errno == EEXIST {
            PrefetchOutcome::Eexist
        } else {
            PrefetchOutcome::Failed
        },
        CopyResult::Failed => PrefetchOutcome::Failed,
    }
}

/// What faults are served from: the regions, their page size and the files.
pub struct Memory {
    pub regions: Vec<GuestRegionUffdMapping>,
    pub page_size: usize,
    pub backing: Backing,
}

impl Memory {
    /// Addresses and offsets in the regions fit in 64 bits, and a page has bytes.
    pub open spec fn wf(&self) -> bool {
        &&& self.page_size > 0
        &&& regions_wf(self.regions@)
    }

    /// What faults are served from.
    pub fn new(regions: Vec<GuestRegionUffdMapping>, page_size: usize, backing: Backing) -> (memory:
        Self)
        requires
            page_size > 0,
            regions_wf(regions@),
        ensures
            memory.wf(),
            memory == (Memory { regions, page_size, backing }),
    {
        Memory { regions, page_size, backing }
    }

    /// The page that serves a fault at `addr`, if `addr` lies in a region.
    pub open spec fn fault_copy(&self, addr: u64) -> Option<CopyRequest> {
        let page = page_base_of(addr, self.page_size);
        match region_at_addr(self.regions@, page) {
            Some(region) => Some(
                CopyRequest {
                    layer: self.backing.layer_of(
                        region.file_offset(page) as int,
                        self.page_size as int,
                    ),
                    src: region.file_offset(page),
                    dst: page,
                    len: self.page_size,
                },
            ),
            None => None,
        }
    }

    /// The page at the file offset `offset`, if a region holds it.
    pub open spec fn prefetch_copy(&self, offset: u64) -> Option<CopyRequest> {
        match region_at_offset(self.regions@, offset) {
            Some(region) => {
                let inside = page_base_of((offset - region.offset) as u64, self.page_size);
                Some(
                    CopyRequest {
                        layer: self.backing.layer_of(
                            region.offset + inside,
                            self.page_size as int,
                        ),
                        src: (region.offset + inside) as u64,
                        dst: (region.base_host_virt_addr + inside) as u64,
                        len: self.page_size,
                    },
                )
            },
            None => None,
        }
    }

    /// The page that serves a fault at `addr`.
    pub fn plan_fault(&self, addr: u64) -> (r: Option<CopyRequest>)
        requires
            self.wf(),
        ensures
            r == self.fault_copy(addr),
    {
        let page = page_base(addr, self.page_size);
        proof {
            lemma_region_at_addr(self.regions@, page);
        }
        match find_by_addr(self.regions.as_slice(), page) {
            Some(region) => {
                let src = region.offset + (page - region.base_host_virt_addr);
                assert(region.holds_offset(src));
                Some(
                    CopyRequest {
                        layer: self.backing.layer(src, self.page_size),
                        src,
                        dst: page,
                        len: self.page_size,
                    },
                )
            },
            None => None,
        }
    }

    /// The page to prefetch at the file offset `offset`.
    pub fn plan_prefetch(&self, offset: u64) -> (r: Option<CopyRequest>)
        requires
            self.wf(),
        ensures
            r == self.prefetch_copy(offset),
    {
        proof {
            lemma_region_at_offset(self.regions@, offset);
        }
        match find_by_offset(self.regions.as_slice(), offset) {
            Some(region) => {
                let inside = page_base(offset - region.offset, self.page_size);
                let src = region.offset + inside;
                assert(region.holds_offset(src));
                Some(
                    CopyRequest {
                        layer: self.backing.layer(src, self.page_size),
                        src,
                        dst: region.base_host_virt_addr + inside,
                        len: self.page_size,
                    },
                )
            },
            None => None,
        }
    }
}

/// The file offset of the page that `addr` lies in, if it lies in a region.
pub open spec fn fault_offset(
    regions: Seq<GuestRegionUffdMapping>,
    page_size: usize,
    addr: u64,
) -> Option<u64> {
    let page = page_base_of(addr, page_size);
    match region_at_addr(regions, page) {
        Some(region) => Some(region.file_offset(page)),
        None => None,
    }
}

/// What is recorded after a fault at `addr` was served.
pub open spec fn recorded_after(
    recorded: Option<Seq<u64>>,
    regions: Seq<GuestRegionUffdMapping>,
    page_size: usize,
    addr: u64,
) -> Option<Seq<u64>> {
    match (recorded, fault_offset(regions, page_size, addr)) {
        (Some(offsets), Some(offset)) => if offsets.contains(offset) {
            recorded
        } else {
            Some(offsets.push(offset))
        },
        _ => recorded,
    }
}

/// The lines that a trace grows by when `after` is recorded in place of `before`.
pub open spec fn log_growth(before: Option<Seq<u64>>, after: Option<Seq<u64>>) -> Seq<u8> {
    if after is Some && before != after {
        log_line(after->0.last())
    } else {
        Seq::empty()
    }
}

/// The offsets that a recorder holds, if there is one.
pub open spec fn recorded_by(recorder: Option<Recorder>) -> Option<Seq<u64>> {
    match recorder {
        Some(recorder) => Some(recorder.offsets()),
        None => None,
    }
}

/// `n` plus one. A counter that overflows starts over.
pub open spec fn bump(n: u64) -> u64 {
    if n == u64::MAX {
        0
    } else {
        (n + 1) as u64
    }
}

/// Count one more.
pub fn count(n: u64) -> (r: u64)
    ensures
        r == bump(n),
{
    if n == u64::MAX {
        0
    } else {
        n + 1
    }
}

/// Record the file offset of the page that `addr` lies in, if a recorder is active.
/// Called only once the page is resident in guest memory.
pub fn record_fault(
    recorder: &mut Option<Recorder>,
    regions: &[GuestRegionUffdMapping],
    page_size: usize,
    addr: u64,
    stats: &mut Stats,
    log: &mut Vec<u8>,
)
    requires
        page_size > 0,
        regions_wf(regions@),
        *old(recorder) is Some ==> old(recorder)->0.wf(),
    ensures
        *final(recorder) is Some ==> final(recorder)->0.wf(),
        recorded_by(*final(recorder)) == recorded_after(
            recorded_by(*old(recorder)),
            regions@,
            page_size,
            addr,
        ),
        *final(stats) == (if recorded_by(*final(recorder)) == recorded_by(*old(recorder)) {
            *old(stats)
        } else {
            Stats { recorded_offsets: bump(old(stats).recorded_offsets), ..*old(stats) }
        }),
        final(log)@ == old(log)@ + log_growth(
            recorded_by(*old(recorder)),
            recorded_by(*final(recorder)),
        ),
{
    assert(log@ =~= old(log)@ + Seq::<u8>::empty());
    match recorder {
        Some(rec) => {
            let page = page_base(addr, page_size);
            match find_by_addr(regions, page) {
                Some(region) => {
                    let offset = region.offset + (page - region.base_host_virt_addr);
                    let ghost before = rec.offsets();
                    if rec.record(offset, log) {
                        assert(before.push(offset).len() != before.len());
                        stats.recorded_offsets = count(stats.recorded_offsets);
                    }
                },
                None => {},
            }
        },
        None => {},
    }
}

/// The region that is found is one of the regions.
proof fn lemma_region_at_addr(regions: Seq<GuestRegionUffdMapping>, addr: u64)
    ensures
        match region_at_addr(regions, addr) {
            Some(region) => region.holds_addr(addr) && exists|i: int|
                0 <= i < regions.len() && #[trigger] regions[i] == region,
            None => true,
        },
    decreases regions.len(),
{
    if regions.len() > 0 && !regions[0].holds_addr(addr) {
        lemma_region_at_addr(regions.skip(1), addr);
        if region_at_addr(regions.skip(1), addr) is Some {
            let region = region_at_addr(regions.skip(1), addr)->0;
            let i = choose|i: int|
                0 <= i < regions.skip(1).len() && #[trigger] regions.skip(1)[i] == region;
            assert(regions[i + 1] == region);
        }
    }
}

/// The region that is found is one of the regions.
proof fn lemma_region_at_offset(regions: Seq<GuestRegionUffdMapping>, offset: u64)
    ensures
        match region_at_offset(regions, offset) {
            Some(region) => exists|i: int| 0 <= i < regions.len() && #[trigger] regions[i] == region,
            None => true,
        },
    decreases regions.len(),
{
    if regions.len() > 0 && !regions[0].holds_offset(offset) {
        lemma_region_at_offset(regions.skip(1), offset);
        if region_at_offset(regions.skip(1), offset) is Some {
            let region = region_at_offset(regions.skip(1), offset)->0;
            let i = choose|i: int|
                0 <= i < regions.skip(1).len() && #[trigger] regions.skip(1)[i] == region;
            assert(regions[i + 1] == region);
        }
    }
}

/// What to do about a range of guest memory that was removed.
#[derive(Debug, Clone, Copy, PartialEq, Eq, Structural)]
pub enum RemoveAction {
    /// The range is empty.
    Nothing,
    /// The range does not consist of whole pages: report it.
    Misaligned,
    /// Stop serving faults for this many bytes.
    Unregister(usize),
}

/// What to do when `[start, end)` was removed.
pub open spec fn remove_action_of(start: usize, end: usize, page_size: usize) -> RemoveAction {
    if end <= start {
        RemoveAction::Nothing
    } else if start % page_size != 0 || end % page_size != 0 {
        RemoveAction::Misaligned
    } else {
        RemoveAction::Unregister((end - start) as usize)
    }
}

/// What to do when `[start, end)` was removed.
pub fn remove_action(start: usize, end: usize, page_size: usize) -> (action: RemoveAction)
    requires
        page_size > 0,
    ensures
        action == remove_action_of(start, end, page_size),
{
    if end <= start {
        RemoveAction::Nothing
    } else if start % page_size != 0 || end % page_size != 0 {
        RemoveAction::Misaligned
    } else {
        RemoveAction::Unregister(end - start)
    }
}

/// The page that serves a fault holds the address of the fault.
pub proof fn law_fault_copy_holds_address(memory: Memory, addr: u64)
    requires
        memory.wf(),
        memory.fault_copy(addr) is Some,
    ensures
        ({
            let request = memory.fault_copy(addr)->0;
            &&& request.dst <= addr
            &&& addr - request.dst < request.len
            &&& request.len == memory.page_size
            &&& Some(request.src) == fault_offset(memory.regions@, memory.page_size, addr)
        }),
{
    law_page_base(addr, memory.page_size);
}

/// Prefetching the offset that was recorded for a fault copies the very page that
/// served the fault.
pub proof fn law_prefetch_replays_fault(memory: Memory, regions: Seq<(u64, usize)>, addr: u64)
    requires
        memory.page_size > 0,
        memory.page_size & ((memory.page_size - 1) as usize) == 0,
        memory.regions@ == laid_out(regions, memory.page_size),
        sizes_below(regions, regions.len() as int) <= u64::MAX,
        forall|i: int|
            0 <= i < regions.len() ==> (#[trigger] regions[i]).0 & ((memory.page_size - 1) as u64)
                == 0,
        memory.fault_copy(addr) is Some,
    ensures
        fault_offset(memory.regions@, memory.page_size, addr) is Some,
        memory.prefetch_copy(fault_offset(memory.regions@, memory.page_size, addr)->0)
            == memory.fault_copy(addr),
{
    let page_size = memory.page_size;
    let page = page_base_of(addr, page_size);
    let all = memory.regions@;
    law_page_base(addr, page_size);
    lemma_region_at_addr(all, page);
    let region = region_at_addr(all, page)->0;
    let i = choose|i: int| 0 <= i < all.len() && #[trigger] all[i] == region;
    law_layout_is_one_to_one(regions, page_size, i, page);
    let base = region.base_host_virt_addr;
    assert(regions[i].0 == base);
    let mask = (page_size - 1) as u64;
    let size = page_size as u64;
    assert(page_size & ((page_size - 1) as usize) == 0 ==> size & ((size - 1) as u64) == 0);
    assert((page - base) as u64 & !mask == (page - base) as u64) by (bit_vector)
        requires
            mask == size - 1,
            size > 0,
            size & mask == 0,
            page & mask == 0,
            base & mask == 0,
            base <= page,
    ;
}

/// A fault is served with the page that its address lies in: the copy goes to the largest
/// multiple of the page size that is not above the address, and comes from as far into the
/// region in the file as the page lies into the region in memory. The region is the first
/// that holds the start of the page; where none does, nothing is copied.
pub proof fn law_fault_copies_its_page(memory: Memory, addr: u64, k: nat, i: int)
    requires
        memory.wf(),
        k < 64,
        memory.page_size == pow2(k),
        0 <= i < memory.regions@.len(),
    ensures
        ({
            let page = addr - addr % (memory.page_size as u64);
            let within = |j: int|
                memory.regions@[j].base_host_virt_addr <= page
                    < memory.regions@[j].base_host_virt_addr + memory.regions@[j].size;
            let region = memory.regions@[i];
            &&& within(i) && (forall|j: int| 0 <= j < i ==> !#[trigger] within(j)) ==> {
                &&& memory.fault_copy(addr) is Some
                &&& memory.fault_copy(addr)->0.dst == page
                &&& memory.fault_copy(addr)->0.src - region.offset == page
                    - region.base_host_virt_addr
                &&& memory.fault_copy(addr)->0.len == memory.page_size
                &&& memory.fault_copy(addr)->0.layer == memory.backing.layer_of(
                    memory.fault_copy(addr)->0.src as int,
                    memory.page_size as int,
                )
            }
            &&& (forall|j: int| 0 <= j < memory.regions@.len() ==> !#[trigger] within(j))
                ==> memory.fault_copy(addr) is None
        }),
{
    let page = page_base_of(addr, memory.page_size);
    law_page_base_is_multiple(addr, memory.page_size, k);
    law_region_at_addr(memory.regions@, page, i);
    let within = |j: int|
        memory.regions@[j].base_host_virt_addr <= page < memory.regions@[j].base_host_virt_addr
            + memory.regions@[j].size;
    let region = memory.regions@[i];
    assert(region.wf());
    if within(i) && (forall|j: int| 0 <= j < i ==> !#[trigger] within(j)) {
        assert(region_at_addr(memory.regions@, page) == Some(region));
    }
}

/// A fault is served from the overlay exactly when some data extent of the overlay file has
/// a byte in the page that the copy comes from, and else from the base. The overlay file
/// was scanned as a whole: it has data at each `pairs[k].0`, up to the hole at `pairs[k].1`
/// or, where that is negative, to its end.
pub proof fn law_fault_served_from_data(
    memory: Memory,
    addr: u64,
    pairs: Seq<(i64, i64)>,
    results: Seq<i64>,
    size: u64,
    page: int,
)
    requires
        memory.wf(),
        memory.fault_copy(addr) is Some,
        memory.backing.present is Some,
        memory.backing.present->0@ == scanned(size, memory.page_size as int, results).found,
        results.len() == 2 * pairs.len(),
        forall|k: int|
            0 <= k < pairs.len() ==> results[2 * k] == (#[trigger] pairs[k]).0 && results[2 * k + 1]
                == pairs[k].1,
        forall|k: int|
            0 <= k < pairs.len() ==> 0 <= (#[trigger] pairs[k]).0 < if pairs[k].1 < 0 {
                size as int
            } else {
                pairs[k].1 as int
            },
        forall|k: int| 0 <= k < pairs.len() - 1 ==> 0 <= (#[trigger] pairs[k]).1 < size,
        pairs.len() > 0 ==> size > 0,
        size <= usize::MAX,
        memory.fault_copy(addr)->0.src < size,
        page * memory.page_size <= memory.fault_copy(addr)->0.src < (page + 1) * memory.page_size,
    ensures
        ({
            let has_data = exists|k: int|
                0 <= k < pairs.len() && (#[trigger] pairs[k]).0 < (page + 1) * memory.page_size
                    && page * memory.page_size < if pairs[k].1 < 0 {
                    size as int
                } else {
                    pairs[k].1 as int
                };
            let layer = memory.fault_copy(addr)->0.layer;
            &&& layer == Layer::Overlay <==> has_data
            &&& layer == Layer::Base <==> !has_data
        }),
{
    let src = memory.fault_copy(addr)->0.src as int;
    let ps = memory.page_size as int;
    assert(0 <= page <= src) by (nonlinear_arith)
        requires
            ps > 0,
            0 <= src,
            page * ps <= src < (page + 1) * ps,
    ;
    law_layer_follows_presence_bit(memory.backing, src, ps, page);
    law_present_pages_hold_data(pairs, results, size, ps, page);
}

/// The page to prefetch is the one that the offset lies in, counted from the start of its
/// region, and it goes as far into the region in memory as it lies into it in the file. The
/// region is the first that holds the offset; where none does, nothing is copied.
pub proof fn law_prefetch_copies_its_page(memory: Memory, offset: u64, k: nat, i: int)
    requires
        memory.wf(),
        k < 64,
        memory.page_size == pow2(k),
        0 <= i < memory.regions@.len(),
    ensures
        ({
            let within = |j: int|
                memory.regions@[j].offset <= offset < memory.regions@[j].offset
                    + memory.regions@[j].size;
            let region = memory.regions@[i];
            let deep = offset - region.offset;
            &&& within(i) && (forall|j: int| 0 <= j < i ==> !#[trigger] within(j)) ==> {
                &&& memory.prefetch_copy(offset) is Some
                &&& memory.prefetch_copy(offset)->0.src == offset - deep
                    % memory.page_size as int
                &&& memory.prefetch_copy(offset)->0.dst - region.base_host_virt_addr
                    == memory.prefetch_copy(offset)->0.src - region.offset
                &&& memory.prefetch_copy(offset)->0.len == memory.page_size
                &&& memory.prefetch_copy(offset)->0.layer == memory.backing.layer_of(
                    memory.prefetch_copy(offset)->0.src as int,
                    memory.page_size as int,
                )
            }
            &&& (forall|j: int| 0 <= j < memory.regions@.len() ==> !#[trigger] within(j))
                ==> memory.prefetch_copy(offset) is None
        }),
{
    law_region_at_offset(memory.regions@, offset, i);
    let within = |j: int|
        memory.regions@[j].offset <= offset < memory.regions@[j].offset + memory.regions@[j].size;
    let region = memory.regions@[i];
    assert(region.wf());
    if within(i) && (forall|j: int| 0 <= j < i ==> !#[trigger] within(j)) {
        assert(region_at_offset(memory.regions@, offset) == Some(region));
        let deep = (offset - region.offset) as u64;
        law_page_base_is_multiple(deep, memory.page_size, k);
    }
}

/// A copy serves its fault when the page was copied or was there already (error 17). It is
/// tried again when the kernel stopped it at no byte or reports error 11 in place of a
/// size, and it has failed in every other case. A prefetch tells the page that was there
/// already apart.
pub proof fn law_copy_outcomes(result: CopyResult)
    ensures
        serve_outcome_of(result) == ServeOutcome::Served <==> result == CopyResult::Copied || result
            == CopyResult::CopyFailed(17),
        serve_outcome_of(result) == ServeOutcome::Deferred <==> (result matches
            CopyResult::PartiallyCopied(bytes) && (bytes == 0 || bytes + 11 == usize::MAX + 1)),
        prefetch_outcome_of(result) == PrefetchOutcome::Served <==> result == CopyResult::Copied,
        prefetch_outcome_of(result) == PrefetchOutcome::Eexist <==> result
            == CopyResult::CopyFailed(17),
        prefetch_outcome_of(result) == PrefetchOutcome::Eagain <==> (result matches
            CopyResult::PartiallyCopied(bytes) && (bytes == 0 || bytes + 11 == usize::MAX + 1)),
{
}

/// What is recorded for a fault is where its copy comes from, behind what was recorded
/// before, unless it is recorded already. Nothing is recorded for a fault outside the
/// regions, or without a recorder.
pub proof fn law_fault_is_recorded_once(memory: Memory, offsets: Seq<u64>, addr: u64)
    ensures
        ({
            let after = recorded_after(Some(offsets), memory.regions@, memory.page_size, addr);
            match memory.fault_copy(addr) {
                Some(request) => {
                    &&& offsets.contains(request.src) ==> after == Some(offsets)
                    &&& !offsets.contains(request.src) ==> after == Some(offsets.push(request.src))
                },
                None => after == Some(offsets),
            }
        }),
        recorded_after(None, memory.regions@, memory.page_size, addr) is None,
{
}

/// The trace grows by the line of an offset when that offset is recorded, and else by
/// nothing.
pub proof fn law_trace_grows_by_line(offsets: Seq<u64>, offset: u64)
    ensures
        log_growth(Some(offsets), Some(offsets.push(offset))) == log_line(offset),
        log_growth(Some(offsets), Some(offsets)).len() == 0,
        log_growth(None, None).len() == 0,
{
    assert(offsets.push(offset).len() != offsets.len());
    assert(offsets.push(offset).last() == offset);
}

/// A counter goes up by one, modulo 2^64.
pub proof fn law_counter_goes_up(n: u64)
    ensures
        bump(n) == (n + 1) % 0x1_0000_0000_0000_0000,
{
}

/// Faults are no longer served for exactly the bytes of a removed range that is not empty
/// and consists of whole pages; one that does not is reported.
pub proof fn law_removed_range(start: usize, end: usize, page_size: usize)
    requires
        page_size > 0,
    ensures
        remove_action_of(start, end, page_size) == RemoveAction::Nothing <==> end <= start,
        remove_action_of(start, end, page_size) == RemoveAction::Misaligned <==> start < end && !(
        start % page_size == 0 && end % page_size == 0),
        remove_action_of(start, end, page_size) matches RemoveAction::Unregister(len) ==> start
            + len == end,
{
}

/// Faults can be served for any regions whose addresses and offsets 64 bits hold, with any
/// page size but zero.
pub proof fn law_any_layout_is_served(memory: Memory)
    requires
        memory.page_size > 0,
        forall|i: int|
            0 <= i < memory.regions@.len() ==> (#[trigger] memory.regions@[i]).base_host_virt_addr
                + memory.regions@[i].size <= 0xffff_ffff_ffff_ffff && memory.regions@[i].offset
                + memory.regions@[i].size <= 0xffff_ffff_ffff_ffff,
    ensures
        memory.wf(),
{
}

} // verus!
