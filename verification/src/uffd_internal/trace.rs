//! Page-access traces: recorded at template build, replayed as prefetch at restore.
use std::collections::HashSet;

use vstd::arithmetic::power2::{lemma_pow2_pos, pow2};
use vstd::bits::{lemma_u64_low_bits_mask_is_mod, low_bits_mask};
use vstd::prelude::*;
use vstd::slice::slice_subrange;
use vstd::utf8::{
    decode_utf8, encode_utf8, encode_utf8_decode_utf8, encode_utf8_valid_utf8, valid_utf8,
};

use crate::text::{
    decimal, decode, is_digit, law_decimal_digit_by_digit, law_parse_decimal, lemma_encode_push,
    parse_u64, parsed_u64, push_decimal, trim_bounds, trimmed,
};

verus! {

/// The line of `offset` in a trace.
pub open spec fn log_line(offset: u64) -> Seq<u8> {
    encode_utf8(decimal(offset as nat)).push(10u8)
}

/// The trace of `offsets`.
pub open spec fn log_of(offsets: Seq<u64>) -> Seq<u8>
    decreases offsets.len(),
{
    if offsets.len() == 0 {
        Seq::empty()
    } else {
        log_of(offsets.drop_last()) + log_line(offsets.last())
    }
}

/// Records each offset once, in first-touch order, as a line of a trace.
pub struct Recorder {
    seen: HashSet<u64>,
    order: Ghost<Seq<u64>>,
}

impl Recorder {
    /// The offsets recorded, in first-touch order.
    pub closed spec fn offsets(&self) -> Seq<u64> {
        self.order@
    }

    /// No offset is recorded twice.
    pub closed spec fn wf(&self) -> bool {
        &&& self.order@.no_duplicates()
        &&& self.seen@ == self.order@.to_set()
    }

    /// What every recorder has.
    pub proof fn lemma_wf(&self)
        requires
            self.wf(),
        ensures
            self.offsets().no_duplicates(),
    {
    }

    /// A recorder that has seen nothing.
    pub fn new() -> (recorder: Self)
        ensures
            recorder.wf(),
            recorder.offsets() == Seq::<u64>::empty(),
    {
        broadcast use vstd::std_specs::hash::group_hash_axioms;

        let recorder = Recorder { seen: HashSet::new(), order: Ghost(Seq::empty()) };
        assert(recorder.seen@ =~= recorder.order@.to_set());
        recorder
    }

    /// True when `offset` is new: its line was appended to `log`.
    pub fn record(&mut self, offset: u64, log: &mut Vec<u8>) -> (new: bool)
        requires
            old(self).wf(),
        ensures
            final(self).wf(),
            new == !old(self).offsets().contains(offset),
            final(self).offsets() == if new {
                old(self).offsets().push(offset)
            } else {
                old(self).offsets()
            },
            final(log)@ == if new {
                old(log)@ + log_line(offset)
            } else {
                old(log)@
            },
    {
        broadcast use vstd::std_specs::hash::group_hash_axioms;

        if self.seen.insert(offset) {
            self.order = Ghost(self.order@.push(offset));
            push_decimal(log, offset);
            log.push(10);
            assert(log@ =~= old(log)@ + log_line(offset));
            proof {
                let before = old(self).order@;
                lemma_push_to_set(before, offset);
                assert(!before.to_set().contains(offset));
            }
            true
        } else {
            assert(self.seen@ =~= old(self).seen@);
            false
        }
    }
}

// ---- replaying ----

/// Where the first line of `bytes` ends.
pub open spec fn line_end(bytes: Seq<u8>) -> int
    decreases bytes.len(),
{
    if bytes.len() == 0 || bytes[0] == 10u8 {
        0
    } else {
        1 + line_end(bytes.skip(1))
    }
}

/// The lines of `bytes`, without their newlines. The last one need not have one.
pub open spec fn log_lines(bytes: Seq<u8>) -> Seq<Seq<u8>>
    decreases bytes.len(),
    via log_lines_decreases
{
    if bytes.len() == 0 {
        Seq::empty()
    } else if line_end(bytes) >= bytes.len() {
        seq![bytes]
    } else {
        seq![bytes.take(line_end(bytes))] + log_lines(bytes.skip(line_end(bytes) + 1))
    }
}

#[via_fn]
proof fn log_lines_decreases(bytes: Seq<u8>) {
    lemma_line_end(bytes);
}

/// The end of a line is its first newline, or the end of the bytes.
pub proof fn lemma_line_end(bytes: Seq<u8>)
    ensures
        0 <= line_end(bytes) <= bytes.len(),
        line_end(bytes) < bytes.len() ==> bytes[line_end(bytes)] == 10u8,
        forall|i: int| 0 <= i < line_end(bytes) ==> #[trigger] bytes[i] != 10u8,
    decreases bytes.len(),
{
    if bytes.len() > 0 && bytes[0] != 10u8 {
        let rest = bytes.skip(1);
        lemma_line_end(rest);
        assert forall|i: int| 0 <= i < line_end(bytes) implies #[trigger] bytes[i] != 10u8 by {
            if i > 0 {
                assert(rest[i - 1] == bytes[i]);
            }
        }
        if line_end(bytes) < bytes.len() {
            assert(rest[line_end(rest)] == bytes[line_end(bytes)]);
        }
    }
}

/// `offset` is a multiple of the page size, a power of two.
pub open spec fn page_aligned(offset: u64, page_size: usize) -> bool {
    offset & ((page_size - 1) as u64) == 0
}

/// The offset that a line of text holds: none in a blank line, a comment, a line that
/// is no number, and one whose number is misaligned.
pub open spec fn entry(line: Seq<char>, page_size: usize) -> Option<u64> {
    let text = trimmed(line);
    if text.len() == 0 || text[0] == '#' {
        None
    } else {
        match parsed_u64(text) {
            Some(offset) if page_aligned(offset, page_size) => Some(offset),
            _ => None,
        }
    }
}

/// `found`, and the offsets of `lines` that it does not hold yet, in order. What
/// follows a line that is not UTF-8 is not read.
pub open spec fn loaded(lines: Seq<Seq<u8>>, page_size: usize, found: Seq<u64>) -> Seq<u64>
    decreases lines.len(),
{
    if lines.len() == 0 || !valid_utf8(lines[0]) {
        found
    } else {
        match entry(decode_utf8(lines[0]), page_size) {
            Some(offset) if !found.contains(offset) => loaded(
                lines.skip(1),
                page_size,
                found.push(offset),
            ),
            _ => loaded(lines.skip(1), page_size, found),
        }
    }
}

/// The offset in the line `chars`.
fn parse_entry(chars: &[char], page_size: usize) -> (r: Option<u64>)
    requires
        page_size > 0,
    ensures
        r == entry(chars@, page_size),
{
    let (from, to) = trim_bounds(chars);
    let ghost text = chars@.subrange(from as int, to as int);
    if from == to {
        return None;
    }
    assert(text[0] == chars@[from as int]);
    if chars[from] == '#' {
        return None;
    }
    match parse_u64(chars, from, to) {
        Some(offset) => {
            let page_mask = page_size as u64 - 1;
            if offset & page_mask != 0 {
                None
            } else {
                Some(offset)
            }
        },
        None => None,
    }
}

/// Parse an access log: one decimal offset per line, blank lines and lines starting
/// with `#` skipped, misaligned offsets dropped. The offsets come in file order, so
/// that prefetch replays the first-touch sequence.
pub fn load_prefetch_offsets(log: &[u8], page_size: usize) -> (offsets: Vec<u64>)
    requires
        page_size > 0,
    ensures
        offsets@ == loaded(log_lines(log@), page_size, Seq::empty()),
{
    broadcast use vstd::std_specs::hash::group_hash_axioms;

    let mut out: Vec<u64> = Vec::new();
    let mut seen: HashSet<u64> = HashSet::new();
    let mut pos: usize = 0;
    assert(log@.skip(0) =~= log@);
    assert(out@ =~= Seq::<u64>::empty());
    assert(seen@ =~= out@.to_set());
    while pos < log.len()
        invariant
            page_size > 0,
            pos <= log.len(),
            seen@ == out@.to_set(),
            loaded(log_lines(log@.skip(pos as int)), page_size, out@) == loaded(
                log_lines(log@),
                page_size,
                Seq::empty(),
            ),
        decreases log.len() - pos,
    {
        let ghost rest = log@.skip(pos as int);
        let end = find_line_end(log, pos);
        let line = slice_subrange(log, pos, end);
        let ghost lines = log_lines(rest);
        proof {
            lemma_line_end(rest);
            let n = line_end(rest);
            if n < rest.len() {
                assert(line@ =~= rest.take(n));
                assert(rest.skip(n + 1) =~= log@.skip(end + 1));
                assert(lines.skip(1) =~= log_lines(log@.skip(end + 1)));
            } else {
                assert(line@ =~= rest);
                assert(lines.skip(1) =~= Seq::<Seq<u8>>::empty());
            }
            assert(lines[0] == line@);
        }
        match decode(line) {
            None => {
                return out;
            },
            Some(chars) => match parse_entry(chars.as_slice(), page_size) {
                Some(offset) => {
                    let ghost before = out@;
                    if seen.insert(offset) {
                        out.push(offset);
                        proof {
                            lemma_push_to_set(before, offset);
                        }
                    }
                },
                None => {},
            },
        }
        if end < log.len() {
            pos = end + 1;
        } else {
            assert(log@.skip(log@.len() as int) =~= Seq::<u8>::empty());
            assert(log_lines(log@.skip(log@.len() as int)) =~= lines.skip(1));
            pos = log.len();
        }
    }
    assert(log@.skip(pos as int) =~= Seq::<u8>::empty());
    out
}

/// Where the line that starts at `pos` ends.
fn find_line_end(log: &[u8], pos: usize) -> (end: usize)
    requires
        pos <= log@.len(),
    ensures
        end == pos + line_end(log@.skip(pos as int)),
        pos <= end <= log@.len(),
{
    let mut end = pos;
    while end < log.len() && log[end] != 10
        invariant
            pos <= end <= log@.len(),
            line_end(log@.skip(pos as int)) == end - pos + line_end(log@.skip(end as int)),
        decreases log@.len() - end,
    {
        assert(log@.skip(end as int).skip(1) =~= log@.skip(end + 1));
        end += 1;
    }
    end
}

/// The elements of a sequence that grew by one.
proof fn lemma_push_to_set(s: Seq<u64>, x: u64)
    ensures
        s.push(x).to_set() == s.to_set().insert(x),
{
    let now = s.push(x);
    assert forall|y: u64| s.to_set().insert(x).contains(y) == now.to_set().contains(y) by {
        if s.contains(y) {
            assert(now[s.index_of(y)] == y);
        }
        assert(now[s.len() as int] == x);
        if now.contains(y) && y != x {
            assert(s[now.index_of(y)] == y);
        }
    }
    assert(now.to_set() =~= s.to_set().insert(x));
}

/// A number in decimal has no newline.
proof fn lemma_decimal_bytes(n: nat)
    ensures
        forall|i: int|
            0 <= i < encode_utf8(decimal(n)).len() ==> #[trigger] encode_utf8(decimal(n))[i] != 10u8,
    decreases n,
{
    let d = (n % 10) as int;
    let c = crate::text::digit_char(d);
    assert(c as u8 == 0x30 + d);
    if n < 10 {
        assert(decimal(n) =~= Seq::<char>::empty().push(c));
        lemma_encode_push(Seq::empty(), c);
        assert(encode_utf8(Seq::<char>::empty()) =~= Seq::<u8>::empty());
    } else {
        lemma_decimal_bytes(n / 10);
        lemma_encode_push(decimal(n / 10), c);
    }
}

/// The lines of a line that is followed by more.
proof fn lemma_lines_cons(line: Seq<u8>, rest: Seq<u8>)
    requires
        forall|i: int| 0 <= i < line.len() ==> #[trigger] line[i] != 10u8,
    ensures
        log_lines(line.push(10u8) + rest) == seq![line] + log_lines(rest),
{
    let all = line.push(10u8) + rest;
    lemma_line_end(all);
    let n = line_end(all);
    assert(all[line.len() as int] == 10u8);
    if n < line.len() {
        assert(all[n] == line[n]);
    }
    assert(n == line.len());
    assert(all.take(n) =~= line);
    assert(all.skip(n + 1) =~= rest);
}

/// The first line of a trace, and the rest.
proof fn lemma_log_cons(offsets: Seq<u64>)
    requires
        offsets.len() > 0,
    ensures
        log_of(offsets) == log_line(offsets[0]) + log_of(offsets.skip(1)),
    decreases offsets.len(),
{
    let front = offsets.drop_last();
    let tail = offsets.skip(1);
    if offsets.len() == 1 {
        assert(front =~= Seq::<u64>::empty());
        assert(tail =~= Seq::<u64>::empty());
        reveal_with_fuel(log_of, 2);
        assert(log_of(offsets) =~= log_line(offsets[0]) + log_of(tail));
    } else {
        lemma_log_cons(front);
        assert(front.skip(1) =~= tail.drop_last());
        assert(log_of(offsets) =~= log_line(offsets[0]) + log_of(tail));
    }
}

proof fn lemma_replay(offsets: Seq<u64>, page_size: usize, found: Seq<u64>)
    requires
        (found + offsets).no_duplicates(),
        forall|i: int| 0 <= i < offsets.len() ==> page_aligned(#[trigger] offsets[i], page_size),
    ensures
        loaded(log_lines(log_of(offsets)), page_size, found) == found + offsets,
    decreases offsets.len(),
{
    if offsets.len() == 0 {
        assert(found + offsets =~= found);
    } else {
        let first = offsets[0];
        let tail = offsets.skip(1);
        let text = decimal(first as nat);
        let line = encode_utf8(text);
        lemma_log_cons(offsets);
        lemma_decimal_bytes(first as nat);
        lemma_lines_cons(line, log_of(tail));
        let lines = log_lines(log_of(offsets));
        assert(lines[0] == line);
        assert(lines.skip(1) =~= log_lines(log_of(tail)));
        encode_utf8_valid_utf8(text);
        encode_utf8_decode_utf8(text);
        law_parse_decimal(first);
        assert(is_digit(text[0]));
        let all = found + offsets;
        assert(all[found.len() as int] == first);
        if found.contains(first) {
            let i = found.index_of(first);
            assert(all[i] == first);
        }
        assert(found.push(first) + tail =~= all);
        assert forall|i: int| 0 <= i < tail.len() implies page_aligned(
            #[trigger] tail[i],
            page_size,
        ) by {
            assert(tail[i] == offsets[i + 1]);
        }
        lemma_replay(tail, page_size, found.push(first));
    }
}

/// Loading the trace of page offsets gives them back, in first-touch order.
pub proof fn law_replay_recorded(offsets: Seq<u64>, page_size: usize)
    requires
        offsets.no_duplicates(),
        forall|i: int| 0 <= i < offsets.len() ==> page_aligned(#[trigger] offsets[i], page_size),
    ensures
        loaded(log_lines(log_of(offsets)), page_size, Seq::empty()) == offsets,
{
    assert(Seq::<u64>::empty() + offsets =~= offsets);
    lemma_replay(offsets, page_size, Seq::empty());
}

/// What a trace that lost its last lines loads is a prefix of what the whole one loads.
pub proof fn law_truncated_trace_loads_prefix(
    lines: Seq<Seq<u8>>,
    n: int,
    page_size: usize,
    found: Seq<u64>,
)
    requires
        0 <= n <= lines.len(),
    ensures
        loaded(lines.take(n), page_size, found).is_prefix_of(loaded(lines, page_size, found)),
    decreases lines.len(),
{
    let cut = lines.take(n);
    if n == 0 {
        lemma_loaded_grows(lines, page_size, found);
    } else if valid_utf8(lines[0]) {
        assert(cut.skip(1) =~= lines.skip(1).take(n - 1));
        let next = match entry(decode_utf8(lines[0]), page_size) {
            Some(offset) if !found.contains(offset) => found.push(offset),
            _ => found,
        };
        law_truncated_trace_loads_prefix(lines.skip(1), n - 1, page_size, next);
    }
}

/// Loading keeps what was found.
proof fn lemma_loaded_grows(lines: Seq<Seq<u8>>, page_size: usize, found: Seq<u64>)
    ensures
        found.is_prefix_of(loaded(lines, page_size, found)),
    decreases lines.len(),
{
    if lines.len() > 0 && valid_utf8(lines[0]) {
        let next = match entry(decode_utf8(lines[0]), page_size) {
            Some(offset) if !found.contains(offset) => found.push(offset),
            _ => found,
        };
        lemma_loaded_grows(lines.skip(1), page_size, next);
        assert(found.is_prefix_of(next));
    }
}

/// No trace loads an offset twice, or one that is misaligned.
pub proof fn law_loaded_offsets(lines: Seq<Seq<u8>>, page_size: usize, found: Seq<u64>)
    requires
        found.no_duplicates(),
        forall|i: int| 0 <= i < found.len() ==> page_aligned(#[trigger] found[i], page_size),
    ensures
        loaded(lines, page_size, found).no_duplicates(),
        forall|i: int|
            0 <= i < loaded(lines, page_size, found).len() ==> page_aligned(
                #[trigger] loaded(lines, page_size, found)[i],
                page_size,
            ),
    decreases lines.len(),
{
    if lines.len() > 0 && valid_utf8(lines[0]) {
        let next = match entry(decode_utf8(lines[0]), page_size) {
            Some(offset) if !found.contains(offset) => found.push(offset),
            _ => found,
        };
        law_loaded_offsets(lines.skip(1), page_size, next);
    }
}

/// The line of an offset is its decimal digits in ASCII, most significant first, and a
/// newline.
pub proof fn law_log_line_digit_by_digit(n: u64, d: u64)
    requires
        d < 10,
        10 * n + d <= u64::MAX,
    ensures
        log_line(d) == seq![(48 + d) as u8, 10u8],
        n > 0 ==> log_line((10 * n + d) as u64) == log_line(n).drop_last().push(
            (48 + d) as u8,
        ).push(10u8),
{
    let c = (48 + d) as char;
    law_decimal_digit_by_digit(n as nat, d as nat);
    assert(decimal(d as nat) =~= Seq::<char>::empty().push(c));
    lemma_encode_push(Seq::empty(), c);
    assert(encode_utf8(Seq::<char>::empty()) =~= Seq::<u8>::empty());
    assert(log_line(d) =~= seq![(48 + d) as u8, 10u8]);
    if n > 0 {
        lemma_encode_push(decimal(n as nat), c);
        assert(log_line(n).drop_last() =~= encode_utf8(decimal(n as nat)));
    }
}

/// A trace has the lines of its offsets in their order.
pub proof fn law_log_line_by_line(offsets: Seq<u64>, offset: u64)
    ensures
        log_of(Seq::empty()).len() == 0,
        log_of(offsets.push(offset)) == log_of(offsets) + log_line(offset),
{
    assert(offsets.push(offset).drop_last() =~= offsets);
}

/// The lines of a log: each newline ends one, and what follows the last newline is one more
/// unless it is empty.
pub proof fn law_lines_end_at_newlines(line: Seq<u8>, rest: Seq<u8>)
    requires
        forall|i: int| 0 <= i < line.len() ==> #[trigger] line[i] != 10u8,
    ensures
        log_lines(Seq::empty()).len() == 0,
        line.len() > 0 ==> log_lines(line) == seq![line],
        log_lines(line.push(10u8) + rest) == seq![line] + log_lines(rest),
{
    lemma_lines_cons(line, rest);
    lemma_line_end(line);
    if line_end(line) < line.len() {
        assert(line[line_end(line)] == 10u8);
    }
}

/// With a page size that is a power of two, an offset is aligned when it is a multiple of it.
pub proof fn law_aligned_offsets(offset: u64, page_size: usize, k: nat)
    requires
        k < 64,
        page_size == pow2(k),
    ensures
        page_aligned(offset, page_size) <==> offset % (page_size as u64) == 0,
{
    lemma_u64_low_bits_mask_is_mod(offset, k);
    lemma_pow2_pos(k);
    assert(low_bits_mask(k) == page_size - 1) by {
        reveal(low_bits_mask);
    }
}

/// A line gives the number that its text reads as, without the white space around it, if that
/// is a multiple of the page size. It gives nothing when it is blank, starts with `#`, or does
/// not read as a number.
pub proof fn law_line_gives_offset(line: Seq<char>, page_size: usize, k: nat)
    requires
        k < 64,
        page_size == pow2(k),
    ensures
        trimmed(line).len() == 0 ==> entry(line, page_size) is None,
        trimmed(line).len() > 0 && trimmed(line)[0] as int == 35 ==> entry(line, page_size) is None,
        trimmed(line).len() > 0 && trimmed(line)[0] as int != 35 ==> match parsed_u64(
            trimmed(line),
        ) {
            Some(offset) => if offset % (page_size as u64) == 0 {
                entry(line, page_size) == Some(offset)
            } else {
                entry(line, page_size) is None
            },
            None => entry(line, page_size) is None,
        },
{
    if let Some(offset) = parsed_u64(trimmed(line)) {
        law_aligned_offsets(offset, page_size, k);
    }
}

/// A log is loaded line by line: a further line adds its offset at the end, if it gives one
/// that is not there yet. From the first line on that is not UTF-8 nothing is added.
pub proof fn law_loaded_line_by_line(
    lines: Seq<Seq<u8>>,
    line: Seq<u8>,
    page_size: usize,
    found: Seq<u64>,
)
    ensures
        loaded(Seq::empty(), page_size, found) == found,
        ({
            let before = loaded(lines, page_size, found);
            let after = loaded(lines.push(line), page_size, found);
            let readable = forall|i: int|
                0 <= i < lines.push(line).len() ==> valid_utf8(#[trigger] lines.push(line)[i]);
            &&& !readable ==> after == before
            &&& readable ==> match entry(decode_utf8(line), page_size) {
                Some(offset) => if before.contains(offset) {
                    after == before
                } else {
                    after == before.push(offset)
                },
                None => after == before,
            }
        }),
    decreases lines.len(),
{
    let all = lines.push(line);
    if lines.len() == 0 {
        assert(all.skip(1) =~= Seq::<Seq<u8>>::empty());
        reveal_with_fuel(loaded, 3);
        assert(all[0] == line);
    } else if valid_utf8(lines[0]) {
        assert(all[0] == lines[0]);
        let rest = lines.skip(1);
        assert(all.skip(1) =~= rest.push(line));
        let next = match entry(decode_utf8(lines[0]), page_size) {
            Some(offset) if !found.contains(offset) => found.push(offset),
            _ => found,
        };
        law_loaded_line_by_line(rest, line, page_size, next);
        let tail = rest.push(line);
        assert(forall|i: int| 0 <= i < tail.len() ==> #[trigger] tail[i] == all[i + 1]);
        if forall|i: int| 0 <= i < all.len() ==> valid_utf8(#[trigger] all[i]) {
            assert forall|i: int| 0 <= i < tail.len() implies valid_utf8(#[trigger] tail[i]) by {
                assert(valid_utf8(all[i + 1]));
            }
        }
        if forall|i: int| 0 <= i < tail.len() ==> valid_utf8(#[trigger] tail[i]) {
            assert forall|i: int| 0 <= i < all.len() implies valid_utf8(#[trigger] all[i]) by {
                if i > 0 {
                    assert(tail[i - 1] == all[i]);
                }
            }
        }
    } else {
        assert(all[0] == lines[0]);
    }
}

} // verus!
