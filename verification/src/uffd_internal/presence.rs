//! Which pages an overlay file holds.
use vstd::prelude::*;

use crate::bits::{bit_at, lemma_set_bit, lemma_zero_word};
use crate::dirty_bitmap::words_for;
use crate::disk_bitmap::{div_up, lemma_touched_blocks, touches};
use crate::sparse::SeekRequest;

verus! {

/// One bit per guest page: set if the page is present in the overlay (diff) file,
/// clear if it must be served from the base. The view has a bit for each place in the
/// words, so it may be longer than there are pages.
#[derive(Debug)]
pub struct PresenceBitmap {
    bits: Vec<u64>,
}

impl View for PresenceBitmap {
    type V = Seq<bool>;

    closed spec fn view(&self) -> Seq<bool> {
        Seq::new((64 * self.bits@.len()) as nat, |i: int| bit_at(self.bits@[i / 64], i % 64))
    }
}

impl PresenceBitmap {
    /// A bitmap for `n` pages, none present.
    pub fn with_pages(n: usize) -> (bitmap: Self)
        ensures
            bitmap@ == Seq::new((64 * words_for(n as int)) as nat, |i: int| false),
    {
        let words = n / 64 + if n % 64 == 0 {
            0
        } else {
            1
        };
        let bitmap = PresenceBitmap { bits: vec![0; words] };
        proof {
            assert forall|i: int| #[trigger] bit_at(0, i) == false by {
                lemma_zero_word(i);
            }
            assert(bitmap@ =~= Seq::new((64 * words_for(n as int)) as nat, |i: int| false));
        }
        bitmap
    }

    /// Mark page `i` as present.
    pub fn set(&mut self, i: usize)
        requires
            i < old(self)@.len(),
        ensures
            final(self)@ == old(self)@.update(i as int, true),
    {
        let w = i / 64;
        let b = (i % 64) as u64;
        let word = self.bits[w];
        self.bits[w] = word | (1u64 << b);
        proof {
            assert forall|k: int| #[trigger] bit_at(word | (1u64 << b), k) == (bit_at(word, k) || k
                == b) by {
                lemma_set_bit(word, b, k);
            }
            assert(self@ =~= old(self)@.update(i as int, true));
        }
    }

    /// Whether there is a bit for page `i`.
    pub fn has_bit(&self, i: usize) -> (r: bool)
        ensures
            r == (i < self@.len()),
    {
        i / 64 < self.bits.len()
    }

    /// Whether page `i` is present.
    pub fn is_set(&self, i: usize) -> (present: bool)
        requires
            i < self@.len(),
        ensures
            present == self@[i as int],
    {
        (self.bits[i / 64] >> ((i % 64) as u64)) & 1 == 1
    }
}

/// `pages` of which those that `[data, hole)` overlaps are present, of `n` pages.
pub open spec fn pages_marked(pages: Seq<bool>, n: int, page_size: int, data: int, hole: int) -> Seq<
    bool,
> {
    Seq::new(
        pages.len(),
        |p: int| pages[p] || (data / page_size <= p < div_up(hole, page_size) && p < n),
    )
}

/// What a scan has come to.
#[verifier::ext_equal]
pub struct ScanState {
    /// The question that is open.
    pub request: SeekRequest,
    /// The pages found.
    pub found: Seq<bool>,
}

/// Where the data ends for the answer `result`: without a next hole it runs to the end of
/// the file.
pub open spec fn hole_of(result: i64, size: u64) -> int {
    if result < 0 {
        size as int
    } else {
        result as int
    }
}

/// What a scan has come to after `result`, the answer to the open question; a negative one
/// says that there is no more data, or no next hole.
pub open spec fn scan_step(size: u64, page_size: int, s: ScanState, result: i64) -> ScanState {
    match s.request {
        SeekRequest::Data(_) => ScanState {
            request: if result < 0 {
                SeekRequest::Done
            } else {
                SeekRequest::Hole(result)
            },
            ..s
        },
        SeekRequest::Hole(data) => {
            let hole = hole_of(result, size);
            ScanState {
                request: if hole < size {
                    SeekRequest::Data(hole as i64)
                } else {
                    SeekRequest::Done
                },
                found: pages_marked(
                    s.found,
                    div_up(size as int, page_size),
                    page_size,
                    data as int,
                    hole,
                ),
            }
        },
        SeekRequest::Done => s,
    }
}

/// A scan of a file of `size` bytes, at its start.
pub open spec fn scan_start(size: u64, page_size: int) -> ScanState {
    ScanState {
        request: if size > 0 {
            SeekRequest::Data(0)
        } else {
            SeekRequest::Done
        },
        found: Seq::new((64 * words_for(div_up(size as int, page_size))) as nat, |i: int| false),
    }
}

/// What a scan of a file of `size` bytes has come to after `results`.
pub open spec fn scanned(size: u64, page_size: int, results: Seq<i64>) -> ScanState
    decreases results.len(),
{
    if results.len() == 0 {
        scan_start(size, page_size)
    } else {
        scan_step(size, page_size, scanned(size, page_size, results.drop_last()), results.last())
    }
}

/// A scan of an overlay file for the pages that overlap data. A data extent is an
/// overlay page, a hole is one that falls through to the base.
pub struct PresenceScan {
    size: u64,
    page_size: u64,
    pages: usize,
    off: i64,
    data: Option<i64>,
    stopped: bool,
    present: PresenceBitmap,
}

impl PresenceScan {
    /// Size of the file.
    pub closed spec fn file_size(&self) -> u64 {
        self.size
    }

    /// Bytes per page.
    pub closed spec fn granularity(&self) -> u64 {
        self.page_size
    }

    /// The pages found.
    pub closed spec fn found(&self) -> Seq<bool> {
        self.present@
    }

    /// The question that is open.
    pub closed spec fn request(&self) -> SeekRequest {
        match self.data {
            Some(data) => SeekRequest::Hole(data),
            None => if self.stopped || self.off >= self.size {
                SeekRequest::Done
            } else {
                SeekRequest::Data(self.off)
            },
        }
    }

    /// What the scan has come to.
    pub open spec fn state(&self) -> ScanState {
        ScanState { request: self.request(), found: self.found() }
    }

    /// There is a bit for each page.
    pub closed spec fn wf(&self) -> bool {
        &&& self.page_size > 0
        &&& self.size <= i64::MAX
        &&& self.pages == div_up(self.size as int, self.page_size as int)
        &&& self.present@.len() == 64 * words_for(self.pages as int)
        &&& self.off >= 0
        &&& self.data is Some ==> self.data->0 >= 0 && !self.stopped
    }

    /// A scan of a file of `size` bytes, at its start.
    pub fn new(size: u64, page_size: usize) -> (scan: Self)
        requires
            page_size > 0,
            size <= i64::MAX,
            size <= usize::MAX,
        ensures
            scan.wf(),
            scan.file_size() == size,
            scan.granularity() == page_size,
            scan.state() == scan_start(size, page_size as int),
    {
        let pages = pages_of(size, page_size as u64);
        proof {
            lemma_pages_bounded(size as int, page_size as int);
        }
        PresenceScan {
            size,
            page_size: page_size as u64,
            pages: pages as usize,
            off: 0,
            data: None,
            stopped: false,
            present: PresenceBitmap::with_pages(pages as usize),
        }
    }

    /// The question to ask next.
    pub fn next(&self) -> (request: SeekRequest)
        ensures
            request == self.request(),
    {
        match self.data {
            Some(data) => SeekRequest::Hole(data),
            None => if self.stopped || self.off as i128 >= self.size as i128 {
                SeekRequest::Done
            } else {
                SeekRequest::Data(self.off)
            },
        }
    }

    /// Take the answer to the open question; a negative one says that there is no more
    /// data, or no next hole. Without a next hole the data runs to the
    /// end of the file.
    pub fn answer(&mut self, result: i64)
        requires
            old(self).wf(),
            !(old(self).request() is Done),
        ensures
            final(self).wf(),
            final(self).file_size() == old(self).file_size(),
            final(self).granularity() == old(self).granularity(),
            final(self).state() == scan_step(
                old(self).file_size(),
                old(self).granularity() as int,
                old(self).state(),
                result,
            ),
    {
        match self.data {
            None => if result < 0 {
                self.stopped = true;
            } else {
                self.data = Some(result);
            },
            Some(data) => {
                let hole: i64 = if result < 0 {
                    self.size as i64
                } else {
                    result
                };
                self.mark(data as u64, hole as u64);
                self.off = hole;
                self.data = None;
            },
        }
    }

    /// Mark the pages that `[data, hole)` overlaps.
    fn mark(&mut self, data: u64, hole: u64)
        requires
            old(self).wf(),
        ensures
            final(self).present@ == pages_marked(
                old(self).present@,
                old(self).pages as int,
                old(self).page_size as int,
                data as int,
                hole as int,
            ),
            final(self).size == old(self).size,
            final(self).page_size == old(self).page_size,
            final(self).pages == old(self).pages,
            final(self).off == old(self).off,
            final(self).data == old(self).data,
            final(self).stopped == old(self).stopped,
    {
        let start = data / self.page_size;
        let last = pages_of(hole, self.page_size);
        let end: u64 = if last < self.pages as u64 {
            last
        } else {
            self.pages as u64
        };
        let mut p = start;
        while p < end
            invariant
                start <= p,
                p <= end || p == start,
                end <= self.pages,
                self.pages <= self.present@.len(),
                self.size == old(self).size,
                self.page_size == old(self).page_size,
                self.pages == old(self).pages,
                self.off == old(self).off,
                self.data == old(self).data,
                self.stopped == old(self).stopped,
                self.present@ =~= Seq::new(
                    old(self).present@.len(),
                    |k: int| old(self).present@[k] || (start <= k < p),
                ),
            decreases end - p,
        {
            self.present.set(p as usize);
            p += 1;
        }
        assert(self.present@ =~= pages_marked(
            old(self).present@,
            old(self).pages as int,
            old(self).page_size as int,
            data as int,
            hole as int,
        ));
    }

    /// The pages found.
    pub fn finish(self) -> (present: PresenceBitmap)
        ensures
            present@ == self.found(),
    {
        self.present
    }
}

/// How many pages `size` bytes take.
fn pages_of(size: u64, page_size: u64) -> (n: u64)
    requires
        page_size > 0,
    ensures
        n == div_up(size as int, page_size as int),
{
    proof {
        let (s, p) = (size as int, page_size as int);
        assert((s + p - 1) / p == s / p + if s % p == 0 {
            0int
        } else {
            1int
        }) by (nonlinear_arith)
            requires
                p > 0,
                s >= 0,
        ;
        assert(s / p <= s && (s % p != 0 ==> s / p < s || s == 0)) by (nonlinear_arith)
            requires
                p > 0,
                s >= 0,
        ;
    }
    if size % page_size == 0 {
        size / page_size
    } else {
        size / page_size + 1
    }
}

/// There are no more pages than bytes.
proof fn lemma_pages_bounded(size: int, page_size: int)
    requires
        page_size > 0,
        size >= 0,
    ensures
        0 <= div_up(size, page_size) <= size,
{
    assert(0 <= (size + page_size - 1) / page_size <= size) by (nonlinear_arith)
        requires
            page_size > 0,
            size >= 0,
    ;
}

/// Where a page is served from.
#[derive(Debug, Clone, Copy, PartialEq, Eq, Structural)]
pub enum Layer {
    /// The overlay (diff) file, or the only file.
    Overlay,
    /// The base (template) file.
    Base,
    /// Neither: the presence bitmap has no bit for the page, so that it cannot be told
    /// which file holds it. An overlay file that is smaller than guest memory has such
    /// pages, and nothing can be copied for them.
    Unknown,
}

/// What backs a restore: one file, or with `present` an overlay over a base.
#[derive(Debug)]
pub struct Backing {
    pub present: Option<PresenceBitmap>,
}

impl Backing {
    /// Whether there is a bit for page `page`, if one is needed.
    pub fn has_page(&self, page: u64) -> (r: bool)
        ensures
            r == (self.present is Some ==> page < self.present->0@.len() && page <= usize::MAX),
    {
        match &self.present {
            Some(present) => page <= usize::MAX as u64 && present.has_bit(page as usize),
            None => true,
        }
    }

    /// There is a bit for the page at `file_offset`.
    pub open spec fn covers(&self, file_offset: int, page_size: int) -> bool {
        self.present is Some ==> {
            &&& file_offset / page_size < self.present->0@.len()
            &&& file_offset / page_size <= usize::MAX
        }
    }

    /// The layer of the page at `file_offset`.
    pub open spec fn layer_of(&self, file_offset: int, page_size: int) -> Layer {
        match self.present {
            None => Layer::Overlay,
            Some(present) => if !self.covers(file_offset, page_size) {
                Layer::Unknown
            } else if present@[file_offset / page_size] {
                Layer::Overlay
            } else {
                Layer::Base
            },
        }
    }

    /// The layer that serves the page at `file_offset`: the overlay if the page is
    /// present there or there is no base, else the base.
    pub fn layer(&self, file_offset: u64, page_size: usize) -> (layer: Layer)
        requires
            page_size > 0,
        ensures
            layer == self.layer_of(file_offset as int, page_size as int),
    {
        match &self.present {
            Some(present) => {
                let page = file_offset / page_size as u64;
                if !self.has_page(page) {
                    Layer::Unknown
                } else if present.is_set(page as usize) {
                    Layer::Overlay
                } else {
                    Layer::Base
                }
            },
            None => Layer::Overlay,
        }
    }
}

/// A page is found when and only when it was found before or a byte of the extent lies
/// in it.
pub proof fn law_page_found_iff_data(
    pages: Seq<bool>,
    n: int,
    page_size: int,
    data: int,
    hole: int,
    p: int,
)
    requires
        page_size > 0,
        0 <= data < hole,
        0 <= p < n <= pages.len(),
    ensures
        pages_marked(pages, n, page_size, data, hole)[p] <==> pages[p] || touches(
            p,
            page_size,
            data,
            hole - data,
        ),
{
    lemma_touched_blocks(p, page_size, data, hole - data);
    assert((hole + page_size - 1) / page_size == (hole - 1) / page_size + 1) by (nonlinear_arith)
        requires
            page_size > 0,
            hole > 0,
    ;
}

/// The answers of a file with data at each `pairs[k].0`, up to the hole at `pairs[k].1`.
pub open spec fn scan_results(pairs: Seq<(i64, i64)>) -> Seq<i64>
    decreases pairs.len(),
{
    if pairs.len() == 0 {
        Seq::empty()
    } else {
        scan_results(pairs.drop_last()).push(pairs.last().0).push(pairs.last().1)
    }
}

/// One of the data extents `pairs` of a file of `size` bytes has a byte in page `p`.
pub open spec fn page_has_data(pairs: Seq<(i64, i64)>, size: u64, page_size: int, p: int) -> bool {
    exists|k: int|
        0 <= k < pairs.len() && touches(
            p,
            page_size,
            (#[trigger] pairs[k]).0 as int,
            hole_of(pairs[k].1, size) - pairs[k].0,
        )
}

/// After a whole scan of a file whose data and holes come in turn, a page of the file is
/// present exactly when some data extent has a byte in it, and no place past the pages of
/// the file is. The scan goes on at the last hole, or has ended at the end of the file; no
/// more data ends it and changes nothing.
pub proof fn law_scan_finds_data_pages(
    pairs: Seq<(i64, i64)>,
    size: u64,
    page_size: int,
    p: int,
)
    requires
        page_size > 0,
        forall|k: int|
            0 <= k < pairs.len() ==> 0 <= (#[trigger] pairs[k]).0 < hole_of(pairs[k].1, size),
        forall|k: int| 0 <= k < pairs.len() - 1 ==> hole_of((#[trigger] pairs[k]).1, size) < size,
        pairs.len() > 0 ==> size > 0,
        0 <= p < 64 * words_for(div_up(size as int, page_size)),
    ensures
        ({
            let s = scanned(size, page_size, scan_results(pairs));
            &&& s.found.len() == 64 * words_for(div_up(size as int, page_size))
            &&& s.found[p] <==> p < div_up(size as int, page_size) && page_has_data(
                pairs,
                size,
                page_size,
                p,
            )
            &&& s.request == if pairs.len() == 0 {
                scan_start(size, page_size).request
            } else if hole_of(pairs.last().1, size) < size {
                SeekRequest::Data(hole_of(pairs.last().1, size) as i64)
            } else {
                SeekRequest::Done
            }
            &&& s.request is Data ==> scan_step(size, page_size, s, (-1int) as i64) == (ScanState {
                request: SeekRequest::Done,
                ..s
            })
        }),
    decreases pairs.len(),
{
    if pairs.len() > 0 {
        let front = pairs.drop_last();
        let (data, hole) = pairs.last();
        let m = front.len() as int;
        let n = div_up(size as int, page_size);
        assert(pairs[m] == (data, hole));
        assert forall|k: int| 0 <= k < m implies 0 <= (#[trigger] front[k]).0 < hole_of(
            front[k].1,
            size,
        ) by {
            assert(front[k] == pairs[k]);
        }
        assert forall|k: int| 0 <= k < m - 1 implies hole_of((#[trigger] front[k]).1, size)
            < size by {
            assert(front[k] == pairs[k]);
        }
        law_scan_finds_data_pages(front, size, page_size, p);
        if m > 0 {
            assert(front.last() == pairs[m - 1]);
        }
        let all = scan_results(pairs);
        let first = all.drop_last();
        assert(first =~= scan_results(front).push(data));
        assert(first.drop_last() =~= scan_results(front));
        assert(all.last() == hole && first.last() == data);
        let before = scanned(size, page_size, scan_results(front));
        let asked = scanned(size, page_size, first);
        assert(asked.request == SeekRequest::Hole(data) && asked.found == before.found);
        let end = hole_of(hole, size);
        assert(scanned(size, page_size, all).found == pages_marked(
            before.found,
            n,
            page_size,
            data as int,
            end,
        ));
        if p < n {
            law_page_found_iff_data(before.found, n, page_size, data as int, end, p);
        }
        if page_has_data(front, size, page_size, p) {
            let k = choose|k: int|
                0 <= k < front.len() && touches(
                    p,
                    page_size,
                    (#[trigger] front[k]).0 as int,
                    hole_of(front[k].1, size) - front[k].0,
                );
            assert(pairs[k] == front[k]);
        }
        if page_has_data(pairs, size, page_size, p) {
            let k = choose|k: int|
                0 <= k < pairs.len() && touches(
                    p,
                    page_size,
                    (#[trigger] pairs[k]).0 as int,
                    hole_of(pairs[k].1, size) - pairs[k].0,
                );
            if k < m {
                assert(front[k] == pairs[k]);
            }
        }
    }
}

/// A page below the size of the overlay file that was scanned has a layer: with layers of
/// the same size as guest memory every page can be served.
pub proof fn law_layer_is_known(backing: Backing, size: u64, page_size: int, file_offset: int)
    requires
        page_size > 0,
        backing.present is Some ==> backing.present->0@.len() == 64 * words_for(
            div_up(size as int, page_size),
        ),
        size <= usize::MAX,
        0 <= file_offset < size,
    ensures
        backing.layer_of(file_offset, page_size) != Layer::Unknown,
{
    let n = div_up(size as int, page_size);
    let s = size as int;
    assert(0 <= file_offset / page_size < n && file_offset / page_size <= file_offset) by (
    nonlinear_arith)
        requires
            page_size > 0,
            0 <= file_offset < s,
            n == (s + page_size - 1) / page_size,
    ;
}

/// With a presence bitmap that has a bit for a page, each byte of the page is served from
/// the overlay exactly when the bit of that very page is set, and from the base exactly
/// when it is clear. Without a bit for the page it is served from neither, and without a
/// bitmap every page from the only file.
pub proof fn law_layer_follows_presence_bit(
    backing: Backing,
    file_offset: int,
    page_size: int,
    page: int,
)
    requires
        page_size > 0,
        0 <= file_offset,
        page * page_size <= file_offset < (page + 1) * page_size,
    ensures
        backing.present is None ==> backing.layer_of(file_offset, page_size) == Layer::Overlay,
        backing.present matches Some(present) ==> {
            let has_bit = page < present@.len() && page <= usize::MAX;
            let layer = backing.layer_of(file_offset, page_size);
            &&& layer == Layer::Overlay <==> has_bit && present@[page]
            &&& layer == Layer::Base <==> has_bit && !present@[page]
            &&& layer == Layer::Unknown <==> !has_bit
        },
{
    assert(file_offset / page_size == page) by (nonlinear_arith)
        requires
            page_size > 0,
            page * page_size <= file_offset < (page + 1) * page_size,
    ;
}

/// Answers that give data and hole in turn are those of `pairs`.
proof fn lemma_results_of_pairs(pairs: Seq<(i64, i64)>, results: Seq<i64>)
    requires
        results.len() == 2 * pairs.len(),
        forall|k: int|
            0 <= k < pairs.len() ==> results[2 * k] == (#[trigger] pairs[k]).0 && results[2 * k + 1]
                == pairs[k].1,
    ensures
        results == scan_results(pairs),
    decreases pairs.len(),
{
    if pairs.len() > 0 {
        let n = pairs.len() - 1;
        let front = pairs.drop_last();
        let less = results.take(2 * n);
        assert forall|k: int| 0 <= k < front.len() implies less[2 * k] == (#[trigger] front[k]).0
            && less[2 * k + 1] == front[k].1 by {
            assert(front[k] == pairs[k]);
        }
        lemma_results_of_pairs(front, less);
        assert(pairs[n] == pairs.last());
        assert(results =~= less.push(results[2 * n]).push(results[2 * n + 1]));
    } else {
        assert(results =~= scan_results(pairs));
    }
}

/// After a whole scan a page of the file is present exactly when some data extent of the
/// file has a byte in it: the extent starts before the end of the page and ends after its
/// start. A negative answer for the hole says that the extent runs to the end of the file.
pub proof fn law_present_pages_hold_data(
    pairs: Seq<(i64, i64)>,
    results: Seq<i64>,
    size: u64,
    page_size: int,
    page: int,
)
    requires
        page_size > 0,
        results.len() == 2 * pairs.len(),
        forall|k: int|
            0 <= k < pairs.len() ==> results[2 * k] == (#[trigger] pairs[k]).0 && results[2 * k + 1]
                == pairs[k].1,
        forall|k: int|
            0 <= k < pairs.len() ==> 0 <= (#[trigger] pairs[k]).0 < if pairs[k].1 < 0 {
                size as int
            } else {
                pairs[k].1 as int
            },
        forall|k: int|
            0 <= k < pairs.len() - 1 ==> 0 <= (#[trigger] pairs[k]).1 < size,
        pairs.len() > 0 ==> size > 0,
        0 <= page,
        page * page_size < size,
    ensures
        page < scanned(size, page_size, results).found.len(),
        scanned(size, page_size, results).found[page] <==> exists|k: int|
            0 <= k < pairs.len() && (#[trigger] pairs[k]).0 < (page + 1) * page_size && page
                * page_size < if pairs[k].1 < 0 {
                size as int
            } else {
                pairs[k].1 as int
            },
{
    lemma_results_of_pairs(pairs, results);
    let (s, n) = (size as int, div_up(size as int, page_size));
    assert(page < n) by (nonlinear_arith)
        requires
            page_size > 0,
            page * page_size < s,
            n == (s + page_size - 1) / page_size,
    ;
    law_scan_finds_data_pages(pairs, size, page_size, page);
    if page_has_data(pairs, size, page_size, page) {
        let k = choose|k: int|
            0 <= k < pairs.len() && touches(
                page,
                page_size,
                (#[trigger] pairs[k]).0 as int,
                hole_of(pairs[k].1, size) - pairs[k].0,
            );
        assert(pairs[k].0 < (page + 1) * page_size);
    }
}

/// A scan starts with the data at zero, unless the file is empty. Data is followed by its
/// hole, and a hole in the file by the data after it; the scan is over when there is no
/// more data, or the hole lies at the end of the file or past it.
pub proof fn law_scan_asks_in_turn(size: u64, page_size: int, s: ScanState, off: i64, result: i64)
    ensures
        scan_start(size, page_size).request == if size == 0 {
            SeekRequest::Done
        } else {
            SeekRequest::Data(0)
        },
        s.request == SeekRequest::Data(off) ==> {
            let t = scan_step(size, page_size, s, result);
            &&& t.found == s.found
            &&& result >= 0 ==> t.request == SeekRequest::Hole(result)
            &&& result < 0 ==> t.request == SeekRequest::Done
        },
        s.request == SeekRequest::Hole(off) ==> {
            let t = scan_step(size, page_size, s, result);
            &&& t.request == if 0 <= result && result < size {
                SeekRequest::Data(result)
            } else {
                SeekRequest::Done
            }
            &&& t.found.len() == s.found.len()
        },
{
}

/// The layer of a page with a bit is the overlay exactly when the bit of that page is set, and
/// the base exactly when it is clear.
pub proof fn law_layer_is_that_of_the_page(
    backing: Backing,
    file_offset: u64,
    page_size: usize,
    page: int,
    layer: Layer,
)
    requires
        call_ensures(Backing::layer, (&backing, file_offset, page_size), layer),
        page_size > 0,
        backing.present is Some,
        page * page_size <= file_offset < (page + 1) * page_size,
        page < backing.present->0@.len(),
        page <= usize::MAX,
    ensures
        layer == Layer::Overlay <==> backing.present->0@[page],
        layer == Layer::Base <==> !backing.present->0@[page],
{
    law_layer_follows_presence_bit(backing, file_offset as int, page_size as int, page);
}

} // verus!
