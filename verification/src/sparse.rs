//! Walking the allocated extents of a sparse file.
//!
//! The walks name the question to put to the file system next and take its answer.
use vstd::prelude::*;

use crate::io_error::ENXIO;

verus! {

/// A question about where a file has data.
#[derive(Debug, Clone, Copy, PartialEq, Eq, Structural)]
pub enum SeekRequest {
    /// The next data at or after this offset.
    Data(i64),
    /// The next hole at or after this offset.
    Hole(i64),
    /// Nothing is left to ask.
    Done,
}

/// Where a walk over the data extents of a file stands.
#[derive(Debug, Clone, Copy, PartialEq, Eq, Structural)]
pub struct DataExtents {
    /// How much of the file is walked.
    pub size: u64,
    /// The question that is open.
    pub request: SeekRequest,
}

/// The question at the offset `off` of the first `size` bytes.
pub open spec fn data_request(off: i64, size: u64) -> SeekRequest {
    if off < size {
        SeekRequest::Data(off)
    } else {
        SeekRequest::Done
    }
}

/// The part of `[data, hole)` that lies in the first `size` bytes, unless it is empty.
pub open spec fn extent_within(data: i64, hole: i64, size: u64) -> Option<(u64, u64)> {
    let end = if hole < size {
        hole as u64
    } else {
        size
    };
    if data < end {
        Some((data as u64, end))
    } else {
        None
    }
}

/// The question after `result`, the answer to `request`, and the extent that the answer
/// completes, or the failure.
pub open spec fn data_step(size: u64, request: SeekRequest, result: Result<i64, i32>) -> (
    SeekRequest,
    Result<Option<(u64, u64)>, i32>,
) {
    match (request, result) {
        (SeekRequest::Data(_), Ok(data)) => (SeekRequest::Hole(data), Ok(None)),
        (SeekRequest::Hole(data), Ok(hole)) => (
            data_request(hole, size),
            Ok(extent_within(data, hole, size)),
        ),
        (SeekRequest::Data(_), Err(errno)) if errno == ENXIO => (SeekRequest::Done, Ok(None)),
        (SeekRequest::Done, _) => (SeekRequest::Done, Ok(None)),
        (_, Err(errno)) => (SeekRequest::Done, Err(errno)),
    }
}

impl DataExtents {
    /// A walk over the first `size` bytes, at its start.
    pub fn new(size: u64) -> (walk: Self)
        ensures
            walk.size == size,
            walk.request == data_request(0, size),
    {
        let request = if size > 0 {
            SeekRequest::Data(0)
        } else {
            SeekRequest::Done
        };
        DataExtents { size, request }
    }

    /// Take the answer to the open question: an offset, or an error number. "No data
    /// left" ends the walk; any other failure is real, and is not mistaken for a file
    /// that was walked to its end. Gives the extent that the answer completes.
    pub fn answer(&mut self, result: Result<i64, i32>) -> (r: Result<Option<(u64, u64)>, i32>)
        requires
            !(old(self).request is Done),
            result is Ok ==> result->Ok_0 >= 0,
            old(self).request matches SeekRequest::Hole(data) ==> data >= 0,
        ensures
            final(self).size == old(self).size,
            (final(self).request, r) == data_step(old(self).size, old(self).request, result),
    {
        match self.request {
            SeekRequest::Data(_) => match result {
                Ok(data) => {
                    self.request = SeekRequest::Hole(data);
                    Ok(None)
                },
                Err(errno) => {
                    self.request = SeekRequest::Done;
                    if errno == ENXIO {
                        Ok(None)
                    } else {
                        Err(errno)
                    }
                },
            },
            SeekRequest::Hole(data) => match result {
                Ok(hole) => {
                    let in_file = (hole as u64) < self.size;
                    let end: u64 = if in_file {
                        hole as u64
                    } else {
                        self.size
                    };
                    self.request = if in_file {
                        SeekRequest::Data(hole)
                    } else {
                        SeekRequest::Done
                    };
                    if (data as u64) < end {
                        Ok(Some((data as u64, end)))
                    } else {
                        Ok(None)
                    }
                },
                Err(errno) => {
                    self.request = SeekRequest::Done;
                    Err(errno)
                },
            },
            SeekRequest::Done => Ok(None),
        }
    }
}

/// On a file system that answers with offsets at or after the one asked about, an
/// extent starts at or after where the walk stood, is not empty, ends in the file, and
/// the walk goes on at or after its end.
pub proof fn law_extents_ascend(off: i64, data: i64, hole: i64, size: u64)
    requires
        0 <= off <= data <= hole,
        extent_within(data, hole, size) is Some,
    ensures
        ({
            let (start, end) = extent_within(data, hole, size)->0;
            &&& off <= start < end <= size
            &&& data_request(hole, size) matches SeekRequest::Data(next) ==> next >= end
        }),
{
}

/// What a walk over data extents has come to.
pub struct DataWalk {
    /// The question that is open.
    pub request: SeekRequest,
    /// The extents that were given, in order.
    pub extents: Seq<(u64, u64)>,
    /// The failure that ended the walk.
    pub failure: Option<i32>,
}

/// What a walk over the first `size` bytes has come to after `results`.
pub open spec fn data_walk(size: u64, results: Seq<Result<i64, i32>>) -> DataWalk
    decreases results.len(),
{
    if results.len() == 0 {
        DataWalk { request: data_request(0, size), extents: Seq::empty(), failure: None }
    } else {
        let before = data_walk(size, results.drop_last());
        match data_step(size, before.request, results.last()) {
            (request, Ok(Some(extent))) => DataWalk {
                request,
                extents: before.extents.push(extent),
                ..before
            },
            (request, Ok(None)) => DataWalk { request, ..before },
            (request, Err(errno)) => DataWalk { request, failure: Some(errno), ..before },
        }
    }
}

/// The answers of a file with data at each `pairs[k].0`, up to the hole at `pairs[k].1`.
pub open spec fn pair_results(pairs: Seq<(i64, i64)>) -> Seq<Result<i64, i32>>
    decreases pairs.len(),
{
    if pairs.len() == 0 {
        Seq::empty()
    } else {
        pair_results(pairs.drop_last()).push(Ok(pairs.last().0)).push(Ok(pairs.last().1))
    }
}

/// Of the extents `pairs`, those that start in the first `size` bytes, each cut there.
pub open spec fn cut_extents(pairs: Seq<(i64, i64)>, size: u64) -> Seq<(u64, u64)>
    decreases pairs.len(),
{
    if pairs.len() == 0 {
        Seq::empty()
    } else {
        let (data, hole) = pairs.last();
        let front = cut_extents(pairs.drop_last(), size);
        if data < size {
            front.push(
                (
                    data as u64,
                    if hole < size {
                        hole as u64
                    } else {
                        size
                    },
                ),
            )
        } else {
            front
        }
    }
}

/// A whole walk over a file whose data and holes come in turn gives, in order, exactly the
/// extents that start in the first `size` bytes, each cut there, and fails nowhere. It goes
/// on at the last hole, or has ended at `size`.
pub proof fn law_data_walk_gives_extents(pairs: Seq<(i64, i64)>, size: u64)
    requires
        forall|k: int| 0 <= k < pairs.len() ==> 0 <= (#[trigger] pairs[k]).0 < pairs[k].1,
        forall|k: int| 0 <= k < pairs.len() - 1 ==> (#[trigger] pairs[k]).1 < size,
        pairs.len() > 0 ==> size > 0,
    ensures
        data_walk(size, pair_results(pairs)) == (DataWalk {
            request: data_request(
                if pairs.len() == 0 {
                    0
                } else {
                    pairs.last().1
                },
                size,
            ),
            extents: cut_extents(pairs, size),
            failure: None,
        }),
    decreases pairs.len(),
{
    if pairs.len() > 0 {
        let front = pairs.drop_last();
        let (data, hole) = pairs.last();
        let n = front.len() as int;
        assert(pairs[n] == (data, hole));
        assert forall|k: int| 0 <= k < n implies 0 <= (#[trigger] front[k]).0 < front[k].1 by {
            assert(front[k] == pairs[k]);
        }
        assert forall|k: int| 0 <= k < n - 1 implies (#[trigger] front[k]).1 < size by {
            assert(front[k] == pairs[k]);
        }
        law_data_walk_gives_extents(front, size);
        if n > 0 {
            assert(front.last() == pairs[n - 1]);
        }
        let all = pair_results(pairs);
        let first = all.drop_last();
        assert(first =~= pair_results(front).push(Ok(data)));
        assert(first.drop_last() =~= pair_results(front));
        assert(all.last() == Ok::<i64, i32>(hole) && first.last() == Ok::<i64, i32>(data));
        assert(data_walk(size, first).request == SeekRequest::Hole(data));
    }
}

/// A walk ends without a failure exactly when no data is left or a hole lies at or past
/// `size`. Any other failed answer, and no other answer, ends it with that failure.
pub proof fn law_data_walk_ends(size: u64, results: Seq<Result<i64, i32>>)
    requires
        results.len() > 0,
        !(data_walk(size, results.drop_last()).request is Done),
        data_walk(size, results.drop_last()).failure is None,
    ensures
        ({
            let before = data_walk(size, results.drop_last());
            let after = data_walk(size, results);
            &&& after.request is Done && after.failure is None <==> match results.last() {
                Ok(hole) => before.request is Hole && hole >= size,
                Err(errno) => before.request is Data && errno == ENXIO,
            }
            &&& after.failure == match results.last() {
                Err(errno) => if before.request is Data && errno == ENXIO {
                    None
                } else {
                    Some(errno)
                },
                Ok(_) => None,
            }
            &&& after.failure is Some ==> after.request is Done
        }),
{
}

// ---- the extent map ----

/// The extent is the last of the file.
pub const FIEMAP_EXTENT_LAST: u32 = 0x1;

/// The extent is preallocated: it reads as zeros, and is not data.
pub const FIEMAP_EXTENT_UNWRITTEN: u32 = 0x800;

/// An extent as the file system reports it.
#[derive(Debug, Clone, Copy, PartialEq, Eq, Structural)]
pub struct FiemapExtent {
    pub fe_logical: u64,
    pub fe_length: u64,
    pub fe_flags: u32,
}

/// Adjacent extents merged into one run: a file system reports a run that is
/// physically fragmented as several extents.
#[derive(Debug, Clone, Copy)]
pub struct Runs {
    /// The run that may still grow.
    pub pending: Option<(u64, u64)>,
}

/// The runs that are complete, and the one that may still grow.
pub struct RunsState {
    pub out: Seq<(u64, u64)>,
    pub pending: Option<(u64, u64)>,
}

/// The runs after the extent `[start, end)`.
pub open spec fn pushed(s: RunsState, start: u64, end: u64) -> RunsState {
    match s.pending {
        Some((a, b)) => if b == start {
            RunsState { out: s.out, pending: Some((a, end)) }
        } else {
            RunsState { out: s.out.push((a, b)), pending: Some((start, end)) }
        },
        None => RunsState { out: s.out, pending: Some((start, end)) },
    }
}

/// All runs, once no extent follows.
pub open spec fn finished(s: RunsState) -> Seq<(u64, u64)> {
    match s.pending {
        Some(run) => s.out.push(run),
        None => s.out,
    }
}

impl Runs {
    /// Add the extent `[start, end)`. A run that it does not continue is complete.
    pub fn push(&mut self, start: u64, end: u64, out: &mut Vec<(u64, u64)>)
        ensures
            ({
                let before = RunsState { out: old(out)@, pending: old(self).pending };
                let after = pushed(before, start, end);
                &&& final(self).pending == after.pending
                &&& final(out)@ == after.out
            }),
    {
        match self.pending {
            Some((a, b)) => {
                if b == start {
                    self.pending = Some((a, end));
                } else {
                    out.push((a, b));
                    self.pending = Some((start, end));
                }
            },
            None => {
                self.pending = Some((start, end));
            },
        }
    }

    /// No extent follows: the last run is complete.
    pub fn finish(self, out: &mut Vec<(u64, u64)>)
        ensures
            final(out)@ == finished(RunsState { out: old(out)@, pending: self.pending }),
    {
        match self.pending {
            Some(run) => {
                out.push(run);
            },
            None => {},
        }
    }
}

/// No run continues the one before it.
pub open spec fn maximal(runs: Seq<(u64, u64)>) -> bool {
    forall|i: int| 0 <= i < runs.len() - 1 ==> (#[trigger] runs[i]).1 != runs[i + 1].0
}

/// One of `runs` holds the byte `x`.
pub open spec fn covered(runs: Seq<(u64, u64)>, x: int) -> bool {
    exists|i: int| 0 <= i < runs.len() && (#[trigger] runs[i]).0 <= x < runs[i].1
}

/// Merging keeps the bytes that the extents cover, and leaves no run that continues the
/// one before it.
pub proof fn law_runs_merge(s: RunsState, start: u64, end: u64, x: int)
    requires
        maximal(finished(s)),
        s.pending matches Some((a, b)) ==> a <= b,
        s.pending is None ==> s.out.len() == 0,
        start <= end,
    ensures
        maximal(finished(pushed(s, start, end))),
        pushed(s, start, end).pending matches Some((a, b)) ==> a <= b,
        covered(finished(pushed(s, start, end)), x) <==> covered(finished(s), x) || start <= x < end,
{
    let t = pushed(s, start, end);
    let before = finished(s);
    let after = finished(t);
    match s.pending {
        Some((a, b)) => {
            let n = before.len() - 1;
            assert(before[n] == (a, b));
            if b == start {
                assert(after[n] == (a, end));
                assert forall|i: int| 0 <= i < after.len() - 1 implies (#[trigger] after[i]).1
                    != after[i + 1].0 by {
                    assert(before[i] == after[i]);
                    assert(before[i + 1].0 == after[i + 1].0);
                }
            } else {
                assert(after[n] == (a, b) && after[n + 1] == (start, end));
                assert forall|i: int| 0 <= i < after.len() - 1 implies (#[trigger] after[i]).1
                    != after[i + 1].0 by {
                    assert(before[i] == after[i]);
                    if i < n {
                        assert(before[i + 1] == after[i + 1]);
                    }
                }
            }
            if covered(before, x) {
                let i = choose|i: int|
                    0 <= i < before.len() && (#[trigger] before[i]).0 <= x < before[i].1;
                if i < n {
                    assert(after[i] == before[i]);
                }
            }
            if covered(after, x) {
                let i = choose|i: int|
                    0 <= i < after.len() && (#[trigger] after[i]).0 <= x < after[i].1;
                if i < n {
                    assert(after[i] == before[i]);
                }
            }
        },
        None => {
            assert(after[0] == (start, end));
        },
    }
}

/// `a + b`, held to 64 bits.
pub open spec fn saturated_sum(a: u64, b: u64) -> u64 {
    if a + b > u64::MAX {
        u64::MAX
    } else {
        (a + b) as u64
    }
}

/// The part of an extent that is data between `start` and `size`.
pub open spec fn written_part(e: FiemapExtent, start: u64, size: u64) -> Option<(u64, u64)> {
    let from = if e.fe_logical > start {
        e.fe_logical
    } else {
        start
    };
    let reach = saturated_sum(e.fe_logical, e.fe_length);
    let to = if reach < size {
        reach
    } else {
        size
    };
    if e.fe_flags & FIEMAP_EXTENT_UNWRITTEN == 0 && from < to {
        Some((from, to))
    } else {
        None
    }
}

/// The runs after `extents`, of which the written parts between `start` and `size`
/// count.
pub open spec fn absorbed(s: RunsState, extents: Seq<FiemapExtent>, start: u64, size: u64) -> RunsState
    decreases extents.len(),
{
    if extents.len() == 0 {
        s
    } else {
        let before = absorbed(s, extents.drop_last(), start, size);
        match written_part(extents.last(), start, size) {
            Some((from, to)) => pushed(before, from, to),
            None => before,
        }
    }
}

/// How far `extents` reach, but not below `start`.
pub open spec fn reach_of(extents: Seq<FiemapExtent>, start: u64) -> u64
    decreases extents.len(),
{
    if extents.len() == 0 {
        start
    } else {
        let before = reach_of(extents.drop_last(), start);
        let e = extents.last();
        let end = saturated_sum(e.fe_logical, e.fe_length);
        if end > before {
            end
        } else {
            before
        }
    }
}

/// One of `extents` is the last of the file.
pub open spec fn any_last(extents: Seq<FiemapExtent>) -> bool {
    exists|i: int|
        0 <= i < extents.len() && (#[trigger] extents[i]).fe_flags & FIEMAP_EXTENT_LAST != 0
}

/// The walk ends with the batch `extents`: it is empty, holds the last extent, reaches
/// the end, or does not get on.
pub open spec fn last_batch(extents: Seq<FiemapExtent>, start: u64, size: u64) -> bool {
    ||| extents.len() == 0
    ||| any_last(extents)
    ||| reach_of(extents, start) >= size
    ||| reach_of(extents, start) <= start
}

/// A walk over the runs of written data of a file, from the file system's own extent
/// map. Unlike a seek for data, which a file system may answer by calling every byte
/// data, the map reports real allocation, so that a hole is a hole.
#[derive(Debug, Clone, Copy)]
pub struct AllocatedExtents {
    /// How much of the file is walked.
    pub size: u64,
    /// Where the next batch starts.
    pub start: u64,
    /// The run that may still grow.
    pub runs: Runs,
}

impl AllocatedExtents {
    /// A walk over the first `size` bytes, at its start.
    pub fn new(size: u64) -> (walk: Self)
        ensures
            walk == (AllocatedExtents { size, start: 0, runs: Runs { pending: None } }),
    {
        AllocatedExtents { size, start: 0, runs: Runs { pending: None } }
    }

    /// The range to ask the map for: its start and its length.
    pub fn request(&self) -> (r: (u64, u64))
        ensures
            r.0 == self.start,
            r.1 == if self.start < self.size {
                self.size - self.start
            } else {
                0
            },
    {
        (self.start, self.size.saturating_sub(self.start))
    }

    /// Take a batch of extents. The runs that it completes are added to `out`; true if
    /// nothing is left to ask for.
    pub fn absorb(&mut self, extents: &[FiemapExtent], out: &mut Vec<(u64, u64)>) -> (done: bool)
        ensures
            ({
                let before = RunsState { out: old(out)@, pending: old(self).runs.pending };
                let after = absorbed(before, extents@, old(self).start, old(self).size);
                &&& done == last_batch(extents@, old(self).start, old(self).size)
                &&& final(self).size == old(self).size
                &&& if done {
                    &&& final(out)@ == finished(after)
                    &&& final(self).runs.pending is None
                    &&& final(self).start == old(self).start
                } else {
                    &&& final(out)@ == after.out
                    &&& final(self).runs.pending == after.pending
                    &&& final(self).start == reach_of(extents@, old(self).start)
                    &&& old(self).start < final(self).start < final(self).size
                }
            }),
    {
        let ghost before = RunsState { out: out@, pending: self.runs.pending };
        let start = self.start;
        let size = self.size;
        let mut last = false;
        let mut next = start;
        let mut i: usize = 0;
        while i < extents.len()
            invariant
                i <= extents@.len(),
                self.start == start,
                self.size == size,
                next == reach_of(extents@.take(i as int), start),
                last == any_last(extents@.take(i as int)),
                (RunsState { out: out@, pending: self.runs.pending }) == absorbed(
                    before,
                    extents@.take(i as int),
                    start,
                    size,
                ),
            decreases extents@.len() - i,
        {
            let e = extents[i];
            let ghost prev = extents@.take(i as int);
            let ghost now = extents@.take(i + 1);
            proof {
                assert(now.drop_last() =~= prev);
                assert(now.last() == e);
            }
            let from = if e.fe_logical > start {
                e.fe_logical
            } else {
                start
            };
            let reach = e.fe_logical.saturating_add(e.fe_length);
            let to = if reach < size {
                reach
            } else {
                size
            };
            if e.fe_flags & FIEMAP_EXTENT_UNWRITTEN == 0 && from < to {
                self.runs.push(from, to, out);
            }
            if reach > next {
                next = reach;
            }
            let ghost was_last = last;
            if e.fe_flags & FIEMAP_EXTENT_LAST != 0 {
                last = true;
            }
            proof {
                if was_last {
                    let k = choose|k: int|
                        0 <= k < prev.len() && (#[trigger] prev[k]).fe_flags & FIEMAP_EXTENT_LAST
                            != 0;
                    assert(now[k] == prev[k]);
                }
                if any_last(now) {
                    let k = choose|k: int|
                        0 <= k < now.len() && (#[trigger] now[k]).fe_flags & FIEMAP_EXTENT_LAST
                            != 0;
                    if k < i {
                        assert(prev[k] == now[k]);
                    }
                }
                assert(now[i as int] == e);
            }
            i += 1;
        }
        assert(extents@.take(i as int) =~= extents@);
        if extents.len() == 0 || last || next >= size || next <= start {
            self.runs.finish(out);
            self.runs = Runs { pending: None };
            true
        } else {
            self.start = next;
            false
        }
    }
}

/// One of `extents` has `x` in its written part.
pub open spec fn written_in(extents: Seq<FiemapExtent>, start: u64, size: u64, x: int) -> bool {
    exists|i: int|
        0 <= i < extents.len() && match written_part(#[trigger] extents[i], start, size) {
            Some((from, to)) => from <= x < to,
            None => false,
        }
}

/// The runs of a batch cover what was covered before and the written parts of its
/// extents, and no run continues the one before it.
pub proof fn law_runs_cover_written_parts(
    s: RunsState,
    extents: Seq<FiemapExtent>,
    start: u64,
    size: u64,
    x: int,
)
    requires
        maximal(finished(s)),
        s.pending matches Some((a, b)) ==> a <= b,
        s.pending is None ==> s.out.len() == 0,
    ensures
        ({
            let t = absorbed(s, extents, start, size);
            &&& maximal(finished(t))
            &&& t.pending matches Some((a, b)) ==> a <= b
            &&& t.pending is None ==> t.out.len() == 0
            &&& covered(finished(t), x) <==> covered(finished(s), x) || written_in(
                extents,
                start,
                size,
                x,
            )
        }),
    decreases extents.len(),
{
    if extents.len() > 0 {
        let front = extents.drop_last();
        law_runs_cover_written_parts(s, front, start, size, x);
        let before = absorbed(s, front, start, size);
        let n = extents.len() - 1;
        if let Some((from, to)) = written_part(extents.last(), start, size) {
            law_runs_merge(before, from, to, x);
        }
        if written_in(front, start, size, x) {
            let i = choose|i: int|
                0 <= i < front.len() && match written_part(#[trigger] front[i], start, size) {
                    Some((from, to)) => from <= x < to,
                    None => false,
                };
            assert(extents[i] == front[i]);
        }
        if written_in(extents, start, size, x) {
            let i = choose|i: int|
                0 <= i < extents.len() && match written_part(#[trigger] extents[i], start, size) {
                    Some((from, to)) => from <= x < to,
                    None => false,
                };
            if i < n {
                assert(front[i] == extents[i]);
            }
        }
        assert(extents[n] == extents.last());
    }
}

// ---- the whole walk ----

/// The runs of a walk that goes on from `s` at `start` and is handed `batches`.
pub open spec fn walked(
    s: RunsState,
    batches: Seq<Seq<FiemapExtent>>,
    start: u64,
    size: u64,
) -> Seq<(u64, u64)>
    decreases batches.len(),
{
    if batches.len() == 0 {
        finished(s)
    } else {
        let t = absorbed(s, batches[0], start, size);
        if last_batch(batches[0], start, size) {
            finished(t)
        } else {
            walked(t, batches.drop_first(), reach_of(batches[0], start), size)
        }
    }
}

/// A walk at `start` that is handed `batches` meets `x` in the written part of an extent.
pub open spec fn written_on_walk(
    batches: Seq<Seq<FiemapExtent>>,
    start: u64,
    size: u64,
    x: int,
) -> bool
    decreases batches.len(),
{
    batches.len() > 0 && (written_in(batches[0], start, size, x) || (!last_batch(
        batches[0],
        start,
        size,
    ) && written_on_walk(batches.drop_first(), reach_of(batches[0], start), size, x)))
}

/// No extent starts before the end of one that it follows.
pub open spec fn ascending(extents: Seq<FiemapExtent>) -> bool {
    forall|i: int, j: int|
        0 <= i < j < extents.len() ==> saturated_sum(
            (#[trigger] extents[i]).fe_logical,
            extents[i].fe_length,
        ) <= (#[trigger] extents[j]).fe_logical
}

/// The runs lie in the first `size` bytes, none is empty, and each starts after the end of
/// those before it, with a gap between.
pub open spec fn separated(runs: Seq<(u64, u64)>, size: u64) -> bool {
    &&& forall|i: int| 0 <= i < runs.len() ==> (#[trigger] runs[i]).0 < runs[i].1 <= size
    &&& forall|i: int, j: int|
        0 <= i < j < runs.len() ==> (#[trigger] runs[i]).1 < (#[trigger] runs[j]).0
}

/// No run ends after `bound`.
spec fn end_by(runs: Seq<(u64, u64)>, bound: u64) -> bool {
    forall|i: int| 0 <= i < runs.len() ==> (#[trigger] runs[i]).1 <= bound
}

/// Extents that end by `bound` reach no further than that.
proof fn lemma_reach_bounded(extents: Seq<FiemapExtent>, start: u64, bound: u64)
    requires
        start <= bound,
        forall|i: int|
            0 <= i < extents.len() ==> saturated_sum(
                (#[trigger] extents[i]).fe_logical,
                extents[i].fe_length,
            ) <= bound,
    ensures
        start <= reach_of(extents, start) <= bound,
    decreases extents.len(),
{
    if extents.len() > 0 {
        lemma_reach_bounded(extents.drop_last(), start, bound);
        let n = extents.len() - 1;
        assert(saturated_sum(extents[n].fe_logical, extents[n].fe_length) <= bound);
    }
}

/// An extent after all runs keeps them separated.
proof fn lemma_pushed_separated(s: RunsState, from: u64, to: u64, size: u64)
    requires
        separated(finished(s), size),
        end_by(finished(s), from),
        s.pending is None ==> s.out.len() == 0,
        from < to <= size,
    ensures
        separated(finished(pushed(s, from, to)), size),
        end_by(finished(pushed(s, from, to)), to),
{
    let before = finished(s);
    let after = finished(pushed(s, from, to));
    let n = before.len() as int;
    if let Some((a, b)) = s.pending {
        assert(before[n - 1] == (a, b));
        assert(forall|i: int| 0 <= i < n - 1 ==> #[trigger] after[i] == before[i]);
        if b != from {
            assert(after[n - 1] == (a, b));
        }
    }
}

/// The runs of a batch of ascending extents are separated.
proof fn lemma_absorbed_separated(
    s: RunsState,
    extents: Seq<FiemapExtent>,
    start: u64,
    size: u64,
)
    requires
        separated(finished(s), size),
        end_by(finished(s), start),
        s.pending is None ==> s.out.len() == 0,
        ascending(extents),
    ensures
        absorbed(s, extents, start, size).pending is None ==> absorbed(
            s,
            extents,
            start,
            size,
        ).out.len() == 0,
        separated(finished(absorbed(s, extents, start, size)), size),
        end_by(finished(absorbed(s, extents, start, size)), reach_of(extents, start)),
        start <= reach_of(extents, start),
    decreases extents.len(),
{
    if extents.len() > 0 {
        let front = extents.drop_last();
        let e = extents.last();
        let n = extents.len() - 1;
        assert forall|i: int, j: int| 0 <= i < j < front.len() implies saturated_sum(
            (#[trigger] front[i]).fe_logical,
            front[i].fe_length,
        ) <= (#[trigger] front[j]).fe_logical by {
            assert(front[i] == extents[i] && front[j] == extents[j]);
        }
        lemma_absorbed_separated(s, front, start, size);
        let before = absorbed(s, front, start, size);
        let bound = if e.fe_logical > start {
            e.fe_logical
        } else {
            start
        };
        assert forall|i: int| 0 <= i < front.len() implies saturated_sum(
            (#[trigger] front[i]).fe_logical,
            front[i].fe_length,
        ) <= bound by {
            assert(front[i] == extents[i] && extents[n] == e);
        }
        lemma_reach_bounded(front, start, bound);
        if let Some((from, to)) = written_part(e, start, size) {
            assert(end_by(finished(before), from));
            lemma_pushed_separated(before, from, to, size);
        }
    }
}

/// A walk that goes on keeps the runs separated and covers what it meets.
proof fn lemma_walked(
    s: RunsState,
    batches: Seq<Seq<FiemapExtent>>,
    start: u64,
    size: u64,
    x: int,
)
    requires
        separated(finished(s), size),
        end_by(finished(s), start),
        s.pending is None ==> s.out.len() == 0,
        forall|k: int| 0 <= k < batches.len() ==> ascending(#[trigger] batches[k]),
    ensures
        separated(walked(s, batches, start, size), size),
        covered(walked(s, batches, start, size), x) <==> covered(finished(s), x)
            || written_on_walk(batches, start, size, x),
    decreases batches.len(),
{
    if batches.len() > 0 {
        let extents = batches[0];
        lemma_absorbed_separated(s, extents, start, size);
        lemma_separated_is_maximal(finished(s), size);
        if let Some(run) = s.pending {
            assert(finished(s)[s.out.len() as int] == run);
        }
        law_runs_cover_written_parts(s, extents, start, size, x);
        if !last_batch(extents, start, size) {
            let t = absorbed(s, extents, start, size);
            let rest = batches.drop_first();
            assert forall|k: int| 0 <= k < rest.len() implies ascending(#[trigger] rest[k]) by {
                assert(rest[k] == batches[k + 1]);
            }
            lemma_walked(t, rest, reach_of(extents, start), size, x);
        }
    }
}

/// No run of separated runs continues the one before it.
proof fn lemma_separated_is_maximal(runs: Seq<(u64, u64)>, size: u64)
    requires
        separated(runs, size),
    ensures
        maximal(runs),
{
    assert forall|i: int| 0 <= i < runs.len() - 1 implies (#[trigger] runs[i]).1
        != runs[i + 1].0 by {
        assert(runs[i].1 < runs[i + 1].0);
    }
}

/// On a file system that reports ascending extents that do not overlap, the runs of a
/// whole walk lie within `size`, none is empty, each is separated from the one before it by
/// a gap, and together they cover exactly the written parts that the walk meets, over all
/// batches.
pub proof fn law_walk_covers_written_data(batches: Seq<Seq<FiemapExtent>>, size: u64, x: int)
    requires
        forall|k: int| 0 <= k < batches.len() ==> ascending(#[trigger] batches[k]),
    ensures
        ({
            let nothing = RunsState { out: Seq::empty(), pending: None };
            let runs = walked(nothing, batches, 0, size);
            &&& separated(runs, size)
            &&& covered(runs, x) <==> written_on_walk(batches, 0, size, x)
        }),
{
    let nothing = RunsState { out: Seq::empty(), pending: None };
    lemma_walked(nothing, batches, 0, size, x);
}

// ---- a walk over the map of a file ----

/// Where an extent ends.
pub open spec fn extent_end(e: FiemapExtent) -> u64 {
    saturated_sum(e.fe_logical, e.fe_length)
}

/// Only the last extent of the map says that it is the last.
pub open spec fn last_is_marked(map: Seq<FiemapExtent>) -> bool {
    forall|t: int|
        0 <= t < map.len() - 1 ==> (#[trigger] map[t]).fe_flags & FIEMAP_EXTENT_LAST == 0
}

/// `batch` is the part `[i, j)` of `map`, from the first extent on that ends after `start`.
pub open spec fn batch_is(
    map: Seq<FiemapExtent>,
    start: u64,
    batch: Seq<FiemapExtent>,
    i: int,
    j: int,
) -> bool {
    &&& 0 <= i <= j <= map.len()
    &&& batch == map.subrange(i, j)
    &&& forall|t: int| 0 <= t < i ==> extent_end(#[trigger] map[t]) <= start
    &&& forall|t: int| i <= t < map.len() ==> extent_end(#[trigger] map[t]) > start
}

/// A file with the extents `map` answers `batch` when it is asked for those from `start`
/// to `size`: the first of them, as many as it likes, and none only if there are none.
pub open spec fn batch_of(
    map: Seq<FiemapExtent>,
    start: u64,
    size: u64,
    batch: Seq<FiemapExtent>,
) -> bool {
    exists|i: int, j: int| #[trigger]
        batch_is(map, start, batch, i, j) && (i == j ==> i == map.len() || map[i].fe_logical
            >= size)
}

/// `batches` are the answers of a file with the extents `map` to a whole walk from
/// `start` on.
pub open spec fn walk_of(
    map: Seq<FiemapExtent>,
    batches: Seq<Seq<FiemapExtent>>,
    start: u64,
    size: u64,
) -> bool
    decreases batches.len(),
{
    &&& batches.len() > 0
    &&& batch_of(map, start, size, batches[0])
    &&& if last_batch(batches[0], start, size) {
        batches.len() == 1
    } else {
        walk_of(map, batches.drop_first(), reach_of(batches[0], start), size)
    }
}

/// The byte `x` lies in an extent of `map` that is written.
pub open spec fn written_in_map(map: Seq<FiemapExtent>, x: int) -> bool {
    exists|t: int|
        0 <= t < map.len() && (#[trigger] map[t]).fe_flags & FIEMAP_EXTENT_UNWRITTEN == 0
            && map[t].fe_logical <= x < extent_end(map[t])
}

/// The reach of some extents is where one of them ends, or the start.
proof fn lemma_reach_reached(extents: Seq<FiemapExtent>, start: u64, t: int)
    requires
        0 <= t < extents.len(),
    ensures
        reach_of(extents, start) >= extent_end(extents[t]),
    decreases extents.len(),
{
    if t < extents.len() - 1 {
        assert(extents.drop_last()[t] == extents[t]);
        lemma_reach_reached(extents.drop_last(), start, t);
    }
}

/// The batches of a walk over ascending extents are ascending.
proof fn lemma_walk_ascending(
    map: Seq<FiemapExtent>,
    batches: Seq<Seq<FiemapExtent>>,
    start: u64,
    size: u64,
    k: int,
)
    requires
        ascending(map),
        walk_of(map, batches, start, size),
        0 <= k < batches.len(),
    ensures
        ascending(batches[k]),
    decreases batches.len(),
{
    if k == 0 {
        let batch = batches[0];
        let (i, j) = choose|i: int, j: int| #[trigger]
            batch_is(map, start, batch, i, j) && (i == j ==> i == map.len() || map[i].fe_logical
                >= size);
        assert forall|a: int, b: int| 0 <= a < b < batch.len() implies saturated_sum(
            (#[trigger] batch[a]).fe_logical,
            batch[a].fe_length,
        ) <= (#[trigger] batch[b]).fe_logical by {
            assert(batch[a] == map[i + a] && batch[b] == map[i + b]);
        }
    } else {
        lemma_walk_ascending(
            map,
            batches.drop_first(),
            reach_of(batches[0], start),
            size,
            k - 1,
        );
    }
}

/// A walk meets each written byte of the map from `start` on.
proof fn lemma_walk_meets(
    map: Seq<FiemapExtent>,
    batches: Seq<Seq<FiemapExtent>>,
    start: u64,
    size: u64,
    x: int,
    t: int,
)
    requires
        ascending(map),
        last_is_marked(map),
        walk_of(map, batches, start, size),
        0 <= t < map.len(),
        map[t].fe_flags & FIEMAP_EXTENT_UNWRITTEN == 0,
        map[t].fe_logical <= x < extent_end(map[t]),
        start <= x < size,
    ensures
        written_on_walk(batches, start, size, x),
    decreases batches.len(),
{
    let batch = batches[0];
    let (i, j) = choose|i: int, j: int| #[trigger]
        batch_is(map, start, batch, i, j) && (i == j ==> i == map.len() || map[i].fe_logical
            >= size);
    assert(i <= t);
    if t < j {
        assert(batch[t - i] == map[t]);
        assert(written_part(batch[t - i], start, size) is Some);
        assert(written_in(batch, start, size, x));
    } else {
        if i == j {
            assert(i < t ==> extent_end(map[i]) <= map[t].fe_logical);
            assert(map[i].fe_logical <= extent_end(map[i]));
        }
        assert(i < j);
        assert(batch[j - 1 - i] == map[j - 1]);
        lemma_reach_reached(batch, start, j - 1 - i);
        assert(extent_end(map[j - 1]) <= map[t].fe_logical);
        assert forall|a: int| 0 <= a < batch.len() implies extent_end(#[trigger] batch[a])
            <= map[t].fe_logical && batch[a].fe_flags & FIEMAP_EXTENT_LAST == 0 by {
            assert(batch[a] == map[i + a]);
        }
        let bound = if map[t].fe_logical > start {
            map[t].fe_logical
        } else {
            start
        };
        lemma_reach_bounded(batch, start, bound);
        assert(!last_batch(batch, start, size));
        lemma_walk_meets(map, batches.drop_first(), reach_of(batch, start), size, x, t);
    }
}

/// A walk meets nothing but written bytes of the map below `size`.
proof fn lemma_walk_meets_only(
    map: Seq<FiemapExtent>,
    batches: Seq<Seq<FiemapExtent>>,
    start: u64,
    size: u64,
    x: int,
)
    requires
        walk_of(map, batches, start, size),
        written_on_walk(batches, start, size, x),
    ensures
        0 <= x < size,
        written_in_map(map, x),
    decreases batches.len(),
{
    let batch = batches[0];
    if written_in(batch, start, size, x) {
        let (i, j) = choose|i: int, j: int| #[trigger]
            batch_is(map, start, batch, i, j) && (i == j ==> i == map.len() || map[i].fe_logical
                >= size);
        let a = choose|a: int|
            0 <= a < batch.len() && match written_part(#[trigger] batch[a], start, size) {
                Some((from, to)) => from <= x < to,
                None => false,
            };
        assert(map[i + a] == batch[a]);
    } else {
        lemma_walk_meets_only(map, batches.drop_first(), reach_of(batch, start), size, x);
    }
}

/// A whole walk over a file gives the written data of its extent map. Whatever batches
/// the map is handed out in, a byte lies in a run exactly when it lies below `size` in a
/// written extent of the map; and the runs lie within `size`, none is empty, and each is
/// separated from the one before it by a gap.
pub proof fn law_walk_gives_written_map(
    map: Seq<FiemapExtent>,
    batches: Seq<Seq<FiemapExtent>>,
    size: u64,
    x: int,
)
    requires
        ascending(map),
        last_is_marked(map),
        walk_of(map, batches, 0, size),
    ensures
        ({
            let nothing = RunsState { out: Seq::empty(), pending: None };
            let runs = walked(nothing, batches, 0, size);
            &&& separated(runs, size)
            &&& covered(runs, x) <==> 0 <= x < size && written_in_map(map, x)
        }),
{
    assert forall|k: int| 0 <= k < batches.len() implies ascending(#[trigger] batches[k]) by {
        lemma_walk_ascending(map, batches, 0, size, k);
    }
    law_walk_covers_written_data(batches, size, x);
    if written_on_walk(batches, 0, size, x) {
        lemma_walk_meets_only(map, batches, 0, size, x);
    }
    if 0 <= x < size && written_in_map(map, x) {
        let t = choose|t: int|
            0 <= t < map.len() && (#[trigger] map[t]).fe_flags & FIEMAP_EXTENT_UNWRITTEN == 0
                && map[t].fe_logical <= x < extent_end(map[t]);
        lemma_walk_meets(map, batches, 0, size, x, t);
    }
}

// ---- the walks in terms of bytes ----

/// A batch adds to the bytes that lie in a run exactly those between `start` and `size`
/// that lie in one of its extents, unless the extent is preallocated (flag 0x800). An
/// extent holds the bytes from `fe_logical` to the sum of `fe_logical` and `fe_length`.
pub proof fn law_batch_adds_written_bytes(
    s: RunsState,
    extents: Seq<FiemapExtent>,
    start: u64,
    size: u64,
    x: int,
)
    requires
        s.pending matches Some((a, b)) ==> a <= b,
    ensures
        ({
            let before = finished(s);
            let after = finished(absorbed(s, extents, start, size));
            &&& (exists|i: int| 0 <= i < after.len() && (#[trigger] after[i]).0 <= x < after[i].1)
                <==> (exists|i: int|
                0 <= i < before.len() && (#[trigger] before[i]).0 <= x < before[i].1) || (start <= x
                < size && exists|t: int|
                0 <= t < extents.len() && (#[trigger] extents[t]).fe_flags & 0x800 == 0
                    && extents[t].fe_logical <= x < extents[t].fe_logical + extents[t].fe_length)
            &&& absorbed(s, extents, start, size).pending matches Some((a, b)) ==> a <= b
        }),
    decreases extents.len(),
{
    if extents.len() > 0 {
        let front = extents.drop_last();
        let n = extents.len() - 1;
        let e = extents.last();
        law_batch_adds_written_bytes(s, front, start, size, x);
        let mid = absorbed(s, front, start, size);
        let before = finished(mid);
        let after = finished(absorbed(s, extents, start, size));
        assert(extents[n] == e);
        assert(forall|t: int| 0 <= t < n ==> #[trigger] extents[t] == front[t]);
        assert(forall|t: int| 0 <= t < n ==> #[trigger] front[t] == extents[t]);
        if let Some((from, to)) = written_part(e, start, size) {
            lemma_pushed_bytes(mid, from, to, x);
        }
    }
}

/// An extent adds its bytes to those that lie in a run.
proof fn lemma_pushed_bytes(s: RunsState, start: u64, end: u64, x: int)
    requires
        s.pending matches Some((a, b)) ==> a <= b,
        start <= end,
    ensures
        ({
            let before = finished(s);
            let after = finished(pushed(s, start, end));
            &&& (exists|i: int| 0 <= i < after.len() && (#[trigger] after[i]).0 <= x < after[i].1)
                <==> (exists|i: int|
                0 <= i < before.len() && (#[trigger] before[i]).0 <= x < before[i].1) || start <= x
                < end
            &&& pushed(s, start, end).pending matches Some((a, b)) ==> a <= b
        }),
{
    let before = finished(s);
    let after = finished(pushed(s, start, end));
    let n = s.out.len() as int;
    assert(forall|i: int| 0 <= i < n ==> #[trigger] before[i] == s.out[i]);
    assert(forall|i: int| 0 <= i < n ==> #[trigger] after[i] == s.out[i]);
    assert(forall|i: int| 0 <= i < n ==> #[trigger] after[i] == before[i]);
    assert(forall|i: int| 0 <= i < n ==> #[trigger] before[i] == after[i]);
    assert(after[after.len() - 1].1 == end);
    if let Some((a, b)) = s.pending {
        assert(before[n] == (a, b));
        assert(after[n].0 == a);
    }
}

/// The reach of a batch is the furthest end of its extents, held to 64 bits, or `start` if
/// none ends after it.
pub proof fn law_reach_is_furthest_end(extents: Seq<FiemapExtent>, start: u64, t: int)
    ensures
        start <= reach_of(extents, start),
        0 <= t < extents.len() ==> extents[t].fe_logical + extents[t].fe_length <= reach_of(
            extents,
            start,
        ) || reach_of(extents, start) == u64::MAX,
        reach_of(extents, start) == start || reach_of(extents, start) == u64::MAX || exists|i: int|
            0 <= i < extents.len() && (#[trigger] extents[i]).fe_logical + extents[i].fe_length
                == reach_of(extents, start),
        (forall|i: int|
            0 <= i < extents.len() ==> (#[trigger] extents[i]).fe_logical + extents[i].fe_length
                < u64::MAX) && start < u64::MAX ==> reach_of(extents, start) < u64::MAX,
    decreases extents.len(),
{
    if extents.len() > 0 {
        let front = extents.drop_last();
        let n = extents.len() - 1;
        assert(forall|i: int| 0 <= i < n ==> #[trigger] extents[i] == front[i]);
        assert(forall|i: int| 0 <= i < n ==> #[trigger] front[i] == extents[i]);
        assert(extents[n] == extents.last());
        law_reach_is_furthest_end(front, start, t);
    }
}

/// A walk is over after a batch exactly when the batch is empty, holds the last extent of
/// the file (flag 0x1), reaches `size`, or does not get past `start`.
pub proof fn law_walk_is_over(extents: Seq<FiemapExtent>, start: u64, size: u64)
    ensures
        last_batch(extents, start, size) <==> {
            ||| extents.len() == 0
            ||| exists|i: int| 0 <= i < extents.len() && (#[trigger] extents[i]).fe_flags & 0x1 != 0
            ||| !(start < reach_of(extents, start) < size)
        },
{
}

/// Runs are kept in order: one that is complete stays as it is, and the one that may still
/// grow comes last. An extent that starts where the last run ends makes it longer, and any
/// other starts a run of its own.
pub proof fn law_runs_grow_at_the_end(s: RunsState, start: u64, end: u64)
    ensures
        s.pending is None ==> finished(s) == s.out && finished(pushed(s, start, end)) == s.out.push(
            (start, end),
        ),
        s.pending matches Some((a, b)) ==> {
            &&& finished(s) == s.out.push((a, b))
            &&& b == start ==> finished(pushed(s, start, end)) == s.out.push((a, end))
            &&& b != start ==> finished(pushed(s, start, end)) == finished(s).push((start, end))
        },
{
}

/// `x` lies in a written extent of the part `[from, to)` of `map`.
spec fn written_between(map: Seq<FiemapExtent>, from: int, to: int, x: int) -> bool {
    exists|t: int|
        from <= t < to && (#[trigger] map[t]).fe_flags & 0x800 == 0 && map[t].fe_logical <= x
            < map[t].fe_logical + map[t].fe_length
}

/// A piece of a map from which on the extents start at or after `start`.
proof fn lemma_piece_written(
    map: Seq<FiemapExtent>,
    from: int,
    to: int,
    start: u64,
    size: u64,
    x: int,
)
    requires
        0 <= from <= to <= map.len(),
        forall|t: int| from <= t < to ==> start <= (#[trigger] map[t]).fe_logical,
    ensures
        written_in(map.subrange(from, to), start, size, x) <==> x < size && written_between(
            map,
            from,
            to,
            x,
        ),
{
    let batch = map.subrange(from, to);
    if written_in(batch, start, size, x) {
        let a = choose|a: int|
            0 <= a < batch.len() && match written_part(#[trigger] batch[a], start, size) {
                Some((from, to)) => from <= x < to,
                None => false,
            };
        assert(map[from + a] == batch[a]);
    }
    if x < size && written_between(map, from, to, x) {
        let t = choose|t: int|
            from <= t < to && (#[trigger] map[t]).fe_flags & 0x800 == 0 && map[t].fe_logical <= x
                < map[t].fe_logical + map[t].fe_length;
        assert(batch[t - from] == map[t]);
        assert(written_part(batch[t - from], start, size) is Some);
    }
}

/// A piece of a map that others follow reaches to the end of its last extent, and the walk
/// goes on there unless it is over by the size.
proof fn lemma_piece_reach(
    map: Seq<FiemapExtent>,
    from: int,
    to: int,
    start: u64,
    size: u64,
)
    requires
        0 <= from < to < map.len(),
        forall|i: int, j: int|
            0 <= i < j < map.len() ==> (#[trigger] map[i]).fe_logical + map[i].fe_length <= (
            #[trigger] map[j]).fe_logical,
        forall|i: int| 0 <= i < map.len() ==> (#[trigger] map[i]).fe_length > 0,
        forall|i: int| 0 <= i < map.len() - 1 ==> (#[trigger] map[i]).fe_flags & 0x1 == 0,
        start <= map[from].fe_logical,
    ensures
        reach_of(map.subrange(from, to), start) == map[to - 1].fe_logical + map[to - 1].fe_length,
        last_batch(map.subrange(from, to), start, size) <==> reach_of(
            map.subrange(from, to),
            start,
        ) >= size,
{
    let batch = map.subrange(from, to);
    let last = map[to - 1];
    assert(batch[to - 1 - from] == last);
    assert(last.fe_logical + last.fe_length <= map[to].fe_logical);
    assert(from < to - 1 ==> map[from].fe_logical + map[from].fe_length <= last.fe_logical);
    assert forall|a: int| 0 <= a < batch.len() implies saturated_sum(
        (#[trigger] batch[a]).fe_logical,
        batch[a].fe_length,
    ) <= last.fe_logical + last.fe_length by {
        assert(batch[a] == map[from + a]);
        if from + a < to - 1 {
            assert(map[from + a].fe_logical + map[from + a].fe_length <= last.fe_logical);
        }
    }
    lemma_reach_bounded(batch, start, (last.fe_logical + last.fe_length) as u64);
    lemma_reach_reached(batch, start, to - 1 - from);
    assert forall|a: int| 0 <= a < batch.len() implies (#[trigger] batch[a]).fe_flags & 0x1
        == 0 by {
        assert(batch[a] == map[from + a]);
    }
}

/// The walk over a map that is handed out piece by piece, from the piece `k` on, meets
/// exactly the written bytes from there on.
proof fn lemma_cut_walk(
    map: Seq<FiemapExtent>,
    cuts: Seq<int>,
    batches: Seq<Seq<FiemapExtent>>,
    k: int,
    start: u64,
    size: u64,
    x: int,
)
    requires
        forall|i: int, j: int|
            0 <= i < j < map.len() ==> (#[trigger] map[i]).fe_logical + map[i].fe_length <= (
            #[trigger] map[j]).fe_logical,
        forall|i: int| 0 <= i < map.len() ==> (#[trigger] map[i]).fe_length > 0,
        forall|i: int| 0 <= i < map.len() - 1 ==> (#[trigger] map[i]).fe_flags & 0x1 == 0,
        cuts.len() == batches.len() + 1,
        cuts[0] == 0,
        cuts[batches.len() as int] == map.len(),
        forall|a: int, b: int|
            0 <= a < b < cuts.len() ==> #[trigger] cuts[a] < #[trigger] cuts[b],
        forall|b: int|
            0 <= b < batches.len() ==> #[trigger] batches[b] == map.subrange(cuts[b], cuts[b + 1]),
        0 <= k <= batches.len(),
        cuts[k] == 0 ==> start == 0,
        cuts[k] > 0 ==> start == map[cuts[k] - 1].fe_logical + map[cuts[k] - 1].fe_length,
    ensures
        written_on_walk(batches.skip(k), start, size, x) <==> x < size && written_between(
            map,
            cuts[k],
            map.len() as int,
            x,
        ),
    decreases batches.len() - k,
{
    let rest = batches.skip(k);
    let n = map.len() as int;
    if k < batches.len() {
        let (from, to) = (cuts[k], cuts[k + 1]);
        let batch = batches[k];
        assert(0 <= from < to <= n);
        assert(rest[0] == batch && rest.drop_first() =~= batches.skip(k + 1));
        assert forall|t: int| from <= t < to implies start <= (#[trigger] map[t]).fe_logical by {
            if from > 0 {
                assert(map[from - 1].fe_logical + map[from - 1].fe_length <= map[t].fe_logical);
            }
        }
        lemma_piece_written(map, from, to, start, size, x);
        lemma_between_splits(map, from, to, n, x);
        if to < n {
            assert(start <= map[from].fe_logical);
            lemma_piece_reach(map, from, to, start, size);
            let reach = reach_of(batch, start);
            if reach >= size && x < size && written_between(map, to, n, x) {
                let t = choose|t: int|
                    to <= t < n && (#[trigger] map[t]).fe_flags & 0x800 == 0 && map[t].fe_logical
                        <= x < map[t].fe_logical + map[t].fe_length;
                assert(map[to - 1].fe_logical + map[to - 1].fe_length <= map[t].fe_logical);
            }
            lemma_cut_walk(map, cuts, batches, k + 1, reach, size, x);
        } else {
            assert(k + 1 == batches.len());
            assert(batches.skip(k + 1) =~= Seq::empty());
            assert(!written_on_walk(batches.skip(k + 1), reach_of(batch, start), size, x));
        }
    }
}

/// What lies in the part `[from, end)` of a map lies before `to` or from there on.
proof fn lemma_between_splits(map: Seq<FiemapExtent>, from: int, to: int, end: int, x: int)
    requires
        from <= to <= end,
    ensures
        written_between(map, from, end, x) <==> written_between(map, from, to, x)
            || written_between(map, to, end, x),
{
}

/// A whole walk over the extent map of a file gives its written data. The map is in order,
/// its extents neither are empty nor overlap, only its last one may say that it is the last
/// (flag 0x1), and it is handed out in pieces of any size. Then a byte lies in a run exactly
/// when it lies below `size` and in an extent that is not preallocated (flag 0x800), that is
/// from `fe_logical` on and below the sum of `fe_logical` and `fe_length`. The runs are in
/// order, with a gap between any two; none is empty, and none goes past `size`.
pub proof fn law_runs_hold_written_bytes(
    map: Seq<FiemapExtent>,
    cuts: Seq<int>,
    batches: Seq<Seq<FiemapExtent>>,
    size: u64,
    x: int,
)
    requires
        forall|i: int, j: int|
            0 <= i < j < map.len() ==> (#[trigger] map[i]).fe_logical + map[i].fe_length <= (
            #[trigger] map[j]).fe_logical,
        forall|i: int| 0 <= i < map.len() ==> (#[trigger] map[i]).fe_length > 0,
        forall|i: int| 0 <= i < map.len() - 1 ==> (#[trigger] map[i]).fe_flags & 0x1 == 0,
        cuts.len() == batches.len() + 1,
        cuts[0] == 0,
        cuts[batches.len() as int] == map.len(),
        forall|a: int, b: int|
            0 <= a < b < cuts.len() ==> #[trigger] cuts[a] < #[trigger] cuts[b],
        forall|b: int|
            0 <= b < batches.len() ==> #[trigger] batches[b] == map.subrange(cuts[b], cuts[b + 1]),
    ensures
        ({
            let runs = walked(RunsState { out: Seq::empty(), pending: None }, batches, 0, size);
            &&& (exists|i: int| 0 <= i < runs.len() && (#[trigger] runs[i]).0 <= x < runs[i].1)
                <==> x < size && exists|t: int|
                0 <= t < map.len() && (#[trigger] map[t]).fe_flags & 0x800 == 0
                    && map[t].fe_logical <= x < map[t].fe_logical + map[t].fe_length
            &&& forall|i: int| 0 <= i < runs.len() ==> (#[trigger] runs[i]).0 < runs[i].1 <= size
            &&& forall|i: int, j: int|
                0 <= i < j < runs.len() ==> (#[trigger] runs[i]).1 < (#[trigger] runs[j]).0
        }),
{
    let nothing = RunsState { out: Seq::empty(), pending: None };
    assert forall|k: int| 0 <= k < batches.len() implies ascending(#[trigger] batches[k]) by {
        let batch = batches[k];
        assert forall|i: int, j: int| 0 <= i < j < batch.len() implies saturated_sum(
            (#[trigger] batch[i]).fe_logical,
            batch[i].fe_length,
        ) <= (#[trigger] batch[j]).fe_logical by {
            assert(batch[i] == map[cuts[k] + i] && batch[j] == map[cuts[k] + j]);
        }
    }
    law_walk_covers_written_data(batches, size, x);
    lemma_cut_walk(map, cuts, batches, 0, 0, size, x);
    assert(batches.skip(0) =~= batches);
}

/// A walk over data extents starts with the data at zero, unless there is nothing to walk.
/// Data is followed by its hole; a hole below `size` by the data after it, and any other
/// ends the walk. The answer for a hole completes the extent from the data to the hole or
/// to `size`, whichever comes first, unless that is empty. Error 6 for data ends the walk,
/// and any other error is passed on.
pub proof fn law_data_walk_steps(size: u64, off: i64, offset: i64, errno: i32)
    requires
        0 <= off,
        0 <= offset,
    ensures
        data_request(0, size) == if size == 0 {
            SeekRequest::Done
        } else {
            SeekRequest::Data(0)
        },
        data_step(size, SeekRequest::Data(off), Ok(offset)) == (
            SeekRequest::Hole(offset),
            Ok::<_, i32>(None::<(u64, u64)>),
        ),
        ({
            let (next, r) = data_step(size, SeekRequest::Hole(off), Ok(offset));
            &&& offset < size ==> next == SeekRequest::Data(offset)
            &&& offset >= size ==> next == SeekRequest::Done
            &&& r is Ok
            &&& r->Ok_0 is None <==> off >= offset || off >= size
            &&& r->Ok_0 matches Some((from, to)) ==> from == off && to <= offset && to <= size && (to
                == offset || to == size)
        }),
        data_step(size, SeekRequest::Data(off), Err(errno)) == (
            SeekRequest::Done,
            if errno == 6 {
                Ok(None::<(u64, u64)>)
            } else {
                Err(errno)
            },
        ),
        data_step(size, SeekRequest::Hole(off), Err(errno)) == (
            SeekRequest::Done,
            Err::<Option<(u64, u64)>, _>(errno),
        ),
{
}

/// The map is asked for what is left of the file, from where the next batch starts.
pub proof fn law_request_is_the_rest(walk: AllocatedExtents, r: (u64, u64))
    requires
        call_ensures(AllocatedExtents::request, (&walk,), r),
    ensures
        r.0 == walk.start,
        walk.start <= walk.size ==> r.0 + r.1 == walk.size,
        walk.start > walk.size ==> r.1 == 0,
{
}

} // verus!
