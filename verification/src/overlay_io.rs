//! Copy-on-write overlay engine.
//!
//! Reads are routed between a shared read-only base image and the overlay of one VM by
//! the dirty bitmap. Writes always go to the overlay; where one covers a clean block in
//! part, the rest of the block is copied there from the base first. `plan_read`,
//! `plan_write` and `discard_range` make the decisions; `OverlayFileEngine` carries them
//! out on images in memory.
use vstd::prelude::*;
use vstd::slice::slice_subrange;

use crate::delta::{
    applied, delta_file, delta_stats, dirty_within, law_apply_written_delta, merged, offsets_fit,
};
use crate::delta::{DeltaError, DeltaStats};
use crate::disk_bitmap::{
    block_dirty, div_up, lemma_touched_blocks, packed, range_uniform, touches, valid_block_size,
    DirtyBitmapError, DiskBitmap,
};
use crate::image::{image_write, read_image, write_image};
use crate::io_error::{IoError, EINVAL};

verus! {

/// An address in guest memory.
#[derive(Debug, Clone, Copy, PartialEq, Eq, Structural)]
pub struct GuestAddress(pub u64);

/// Why bytes could not be moved to or from guest memory.
#[derive(Debug, Clone, Copy, PartialEq, Eq, Structural)]
pub enum GuestMemoryError {
    /// No memory at this address.
    InvalidGuestAddress(GuestAddress),
    /// The range does not end in the memory that it starts in.
    InvalidBackendAddress,
    /// The file failed.
    IOError(IoError),
}

/// Why the engine could not serve a request.
#[derive(Debug, Clone, Copy, PartialEq, Eq, Structural)]
pub enum OverlayIoError {
    /// Seeking in the base.
    BaseSeek(IoError),
    /// Reading from the base.
    BaseTransfer(GuestMemoryError),
    /// Seeking in the overlay.
    OverlaySeek(IoError),
    /// Reading from the overlay.
    OverlayReadTransfer(GuestMemoryError),
    /// Writing to the overlay.
    OverlayWriteTransfer(GuestMemoryError),
    /// Flushing the overlay.
    OverlayFlush(IoError),
    /// Syncing the overlay.
    OverlaySync(IoError),
    /// The overlay is not as large as the base.
    SizeMismatch { base_size: u64, overlay_size: u64 },
    /// An overlay takes two files.
    NotConstructibleFromFile,
    /// The bitmap could not be made.
    Bitmap(DirtyBitmapError),
}

/// A part of a read that one file serves.
#[derive(Debug, Clone, Copy, PartialEq, Eq, Structural)]
pub struct ReadRun {
    /// Whether the overlay serves it, or the base.
    pub dirty: bool,
    /// Where it starts, in either file.
    pub offset: u64,
    /// Its length.
    pub len: u32,
}

// ---- planning a read ----

/// Whether the byte at `offset` lies in a dirty block.
pub open spec fn byte_dirty(bits: Seq<bool>, block_size: int, offset: int) -> bool {
    block_dirty(bits, offset / block_size)
}

/// Where the run that starts at `offset` ends: at the first block boundary at which
/// the source changes, or at `end`.
pub open spec fn run_end(bits: Seq<bool>, block_size: int, offset: int, end: int) -> int
    decreases end - offset,
    when block_size > 0
    via run_end_decreases
{
    let boundary = (offset / block_size + 1) * block_size;
    if boundary >= end {
        end
    } else if byte_dirty(bits, block_size, boundary) != byte_dirty(bits, block_size, offset) {
        boundary
    } else {
        run_end(bits, block_size, boundary, end)
    }
}

#[via_fn]
proof fn run_end_decreases(bits: Seq<bool>, block_size: int, offset: int, end: int) {
    assert(offset < (offset / block_size + 1) * block_size) by (nonlinear_arith)
        requires
            block_size > 0,
    ;
}

/// A run ends after its start, and not past `end`.
proof fn lemma_run_end(bits: Seq<bool>, block_size: int, offset: int, end: int)
    requires
        block_size > 0,
        offset < end,
    ensures
        offset < run_end(bits, block_size, offset, end) <= end,
    decreases end - offset,
{
    let boundary = (offset / block_size + 1) * block_size;
    assert(offset < boundary) by (nonlinear_arith)
        requires
            block_size > 0,
            boundary == (offset / block_size + 1) * block_size,
    ;
    if boundary < end {
        lemma_run_end(bits, block_size, boundary, end);
    }
}

/// The runs of `[offset, end)`, in order.
pub open spec fn runs(bits: Seq<bool>, block_size: int, offset: int, end: int) -> Seq<ReadRun>
    decreases end - offset,
    when block_size > 0
    via runs_decreases
{
    if offset >= end {
        Seq::empty()
    } else {
        let next = run_end(bits, block_size, offset, end);
        seq![
            ReadRun {
                dirty: byte_dirty(bits, block_size, offset),
                offset: offset as u64,
                len: (next - offset) as u32,
            },
        ] + runs(bits, block_size, next, end)
    }
}

#[via_fn]
proof fn runs_decreases(bits: Seq<bool>, block_size: int, offset: int, end: int) {
    if offset < end {
        lemma_run_end(bits, block_size, offset, end);
    }
}

/// The runs of a read of `count` bytes. An empty read is one empty run of the base.
pub open spec fn read_plan(bits: Seq<bool>, block_size: int, offset: int, count: int) -> Seq<
    ReadRun,
> {
    if count == 0 {
        seq![ReadRun { dirty: false, offset: offset as u64, len: 0 }]
    } else {
        runs(bits, block_size, offset, offset + count)
    }
}

/// A range that no source change divides is one run.
proof fn lemma_uniform_run(
    bits: Seq<bool>,
    block_size: int,
    start: int,
    offset: int,
    end: int,
    dirty: bool,
)
    requires
        block_size > 0,
        0 <= start <= offset < end,
        range_uniform(bits, block_size, start, end - start) == Some(dirty),
    ensures
        byte_dirty(bits, block_size, offset) == dirty,
        run_end(bits, block_size, offset, end) == end,
    decreases end - offset,
{
    let b = offset / block_size;
    let boundary = (b + 1) * block_size;
    assert(b * block_size <= offset < boundary) by (nonlinear_arith)
        requires
            block_size > 0,
            b == offset / block_size,
            boundary == (b + 1) * block_size,
    ;
    assert(touches(b, block_size, start, end - start));
    if boundary < end {
        lemma_uniform_run(bits, block_size, start, boundary, end, dirty);
    }
}

/// Split a read of `count` bytes at `offset` into runs that one file serves each.
pub fn plan_read(bitmap: &DiskBitmap, offset: u64, count: u32) -> (plan: Vec<ReadRun>)
    requires
        bitmap.wf(),
        range_uniform(bitmap@, bitmap.granularity() as int, offset as int, count as int) is None
            ==> offset + count <= u64::MAX,
    ensures
        plan@ == read_plan(bitmap@, bitmap.granularity() as int, offset as int, count as int),
{
    proof {
        bitmap.lemma_wf();
    }
    match bitmap.is_range_uniform(offset, count) {
        Some(dirty) => {
            proof {
                if count > 0 {
                    let bs = bitmap.granularity() as int;
                    let end = offset + count;
                    lemma_uniform_run(bitmap@, bs, offset as int, offset as int, end, dirty);
                    assert(runs(bitmap@, bs, end, end) =~= Seq::empty());
                }
            }
            let mut plan: Vec<ReadRun> = Vec::new();
            plan.push(ReadRun { dirty, offset, len: count });
            assert(plan@ =~= read_plan(
                bitmap@,
                bitmap.granularity() as int,
                offset as int,
                count as int,
            ));
            plan
        },
        None => plan_mixed(bitmap, offset, count),
    }
}

/// The runs of a read that spans dirty and clean blocks.
fn plan_mixed(bitmap: &DiskBitmap, offset: u64, count: u32) -> (plan: Vec<ReadRun>)
    requires
        bitmap.wf(),
        count > 0,
        offset + count <= u64::MAX,
    ensures
        plan@ == runs(bitmap@, bitmap.granularity() as int, offset as int, offset + count),
{
    proof {
        bitmap.lemma_wf();
    }
    let block_size = bitmap.block_size() as u64;
    let end_offset = offset + count as u64;
    let last_block = (end_offset - 1) / block_size;
    let ghost bits = bitmap@;
    let ghost bs = block_size as int;
    let mut plan: Vec<ReadRun> = Vec::new();
    let mut current_offset = offset;
    assert(plan@ + runs(bits, bs, offset as int, end_offset as int) =~= runs(
        bits,
        bs,
        offset as int,
        end_offset as int,
    ));
    while current_offset < end_offset
        invariant
            bitmap.wf(),
            bits == bitmap@,
            bs == block_size == bitmap.granularity(),
            block_size > 0,
            end_offset == offset + count,
            offset <= current_offset <= end_offset,
            last_block == (end_offset - 1) / bs,
            plan@ + runs(bits, bs, current_offset as int, end_offset as int) == runs(
                bits,
                bs,
                offset as int,
                end_offset as int,
            ),
        decreases end_offset - current_offset,
    {
        let current_block = current_offset / block_size;
        let is_dirty = bitmap.is_set(current_block);
        let ghost target = run_end(bits, bs, current_offset as int, end_offset as int);
        let mut run_end_block = current_block;
        let mut run_byte_end = end_offset;
        // The offset at which the last block of the run starts, in the request.
        let ghost mut at = current_offset as int;
        proof {
            let (c, e, q, l) = (
                current_offset as int,
                end_offset as int,
                current_block as int,
                last_block as int,
            );
            assert(q <= l) by (nonlinear_arith)
                requires
                    bs > 0,
                    c < e,
                    q == c / bs,
                    l == (e - 1) / bs,
            ;
            if q == l {
                lemma_last_run(bits, bs, c, e);
            }
        }
        while run_end_block < last_block
            invariant_except_break
                run_byte_end == end_offset,
                run_end(bits, bs, at, end_offset as int) == target,
                run_end_block == last_block ==> target == end_offset,
            invariant
                bitmap.wf(),
                bits == bitmap@,
                bs == block_size == bitmap.granularity(),
                block_size > 0,
                last_block == (end_offset - 1) / bs,
                current_offset < end_offset,
                run_end_block <= last_block,
                run_end_block == at / bs,
                at < end_offset,
                is_dirty == byte_dirty(bits, bs, at),
            ensures
                run_byte_end == target,
            decreases last_block - run_end_block,
        {
            let ghost boundary = (run_end_block + 1) * bs;
            proof {
                let (e, r, l) = (end_offset as int, run_end_block as int, last_block as int);
                assert(boundary < e && boundary / bs == r + 1) by (nonlinear_arith)
                    requires
                        bs > 0,
                        r + 1 <= l,
                        l == (e - 1) / bs,
                        boundary == (r + 1) * bs,
                ;
            }
            if bitmap.is_set(run_end_block + 1) != is_dirty {
                run_byte_end = (run_end_block + 1) * block_size;
                break;
            }
            run_end_block += 1;
            proof {
                at = boundary;
                if run_end_block == last_block {
                    lemma_last_run(bits, bs, at, end_offset as int);
                }
            }
        }
        proof {
            lemma_run_end(bits, bs, current_offset as int, end_offset as int);
        }
        let run = ReadRun {
            dirty: is_dirty,
            offset: current_offset,
            len: (run_byte_end - current_offset) as u32,
        };
        let ghost before = plan@;
        plan.push(run);
        proof {
            let rest = runs(bits, bs, run_byte_end as int, end_offset as int);
            assert(plan@ + rest =~= before + runs(
                bits,
                bs,
                current_offset as int,
                end_offset as int,
            ));
        }
        current_offset = run_byte_end;
    }
    assert(plan@ =~= plan@ + runs(bits, bs, current_offset as int, end_offset as int));
    plan
}

/// In the last block of a request the run ends with the request.
proof fn lemma_last_run(bits: Seq<bool>, block_size: int, offset: int, end: int)
    requires
        block_size > 0,
        offset < end,
        offset / block_size == (end - 1) / block_size,
    ensures
        run_end(bits, block_size, offset, end) == end,
{
    let b = offset / block_size;
    assert((b + 1) * block_size >= end) by (nonlinear_arith)
        requires
            block_size > 0,
            b == (end - 1) / block_size,
    ;
}

// ---- planning a write ----

/// A range of the base to copy to the same place of the overlay; empty for none.
#[derive(Debug, Clone, Copy, PartialEq, Eq, Structural)]
pub struct KeptRange {
    pub offset: u64,
    pub len: u64,
}

/// What to copy from the base before a write.
#[derive(Debug, Clone, Copy, PartialEq, Eq, Structural)]
pub struct WritePlan {
    /// Of the first block of the write, what comes before it.
    pub head: KeptRange,
    /// Of the last block of the write, what comes after it.
    pub tail: KeptRange,
}

/// Block `b` exists and is clean.
pub open spec fn block_clean(bits: Seq<bool>, b: int) -> bool {
    0 <= b < bits.len() && !bits[b]
}

/// How many of the `len` bytes from `start` on a file of `size` bytes holds.
pub open spec fn held_len(size: int, start: int, len: int) -> int {
    if start + len <= size {
        len
    } else if start <= size {
        size - start
    } else {
        0
    }
}

/// How much of a base of `base_size` bytes a write keeps in front of it: of a clean
/// block, what precedes `offset`.
pub open spec fn head_len(
    bits: Seq<bool>,
    block_size: int,
    base_size: int,
    offset: int,
    count: int,
) -> int {
    let first = offset / block_size;
    if count > 0 && block_clean(bits, first) {
        held_len(base_size, first * block_size, offset - first * block_size)
    } else {
        0
    }
}

/// How much of a base of `base_size` bytes a write keeps behind it: of a clean block,
/// what follows the last byte that is written.
pub open spec fn tail_len(
    bits: Seq<bool>,
    block_size: int,
    base_size: int,
    offset: int,
    count: int,
) -> int {
    let end = offset + count;
    let last = (end - 1) / block_size;
    if count > 0 && block_clean(bits, last) {
        held_len(base_size, end, (last + 1) * block_size - end)
    } else {
        0
    }
}

fn held_bytes(size: u64, start: u64, len: u64) -> (n: u64)
    ensures
        n == held_len(size as int, start as int, len as int),
{
    if start >= size {
        0
    } else if len <= size - start {
        len
    } else {
        size - start
    }
}

/// What a write of `count` bytes at `offset` must copy from a base of `base_size` bytes
/// first, so that no byte beside it changes.
pub fn plan_write(bitmap: &DiskBitmap, base_size: u64, offset: u64, count: u32) -> (plan: WritePlan)
    requires
        bitmap.wf(),
        offset + count <= u64::MAX,
    ensures
        ({
            let bs = bitmap.granularity() as int;
            let size = base_size as int;
            &&& plan.head.offset == offset as int / bs * bs
            &&& plan.head.len == head_len(bitmap@, bs, size, offset as int, count as int)
            &&& plan.tail.offset == offset + count
            &&& plan.tail.len == tail_len(bitmap@, bs, size, offset as int, count as int)
            &&& plan.head.offset + plan.head.len <= offset
            &&& plan.tail.len < bs
            &&& plan.head.len > 0 ==> plan.head.offset + plan.head.len <= base_size
            &&& plan.tail.len > 0 ==> plan.tail.offset + plan.tail.len <= base_size
        }),
{
    proof {
        bitmap.lemma_wf();
    }
    let block_size = bitmap.block_size() as u64;
    let ghost bs = block_size as int;
    let first = offset / block_size;
    proof {
        let (o, f) = (offset as int, first as int);
        assert(0 <= f * bs <= o) by (nonlinear_arith)
            requires
                bs > 0,
                0 <= o,
                f == o / bs,
        ;
    }
    let start = first * block_size;
    let end = offset + count as u64;
    let mut plan = WritePlan {
        head: KeptRange { offset: start, len: 0 },
        tail: KeptRange { offset: end, len: 0 },
    };
    if count == 0 {
        return plan;
    }
    let last = (end - 1) / block_size;
    let within = (end - 1) % block_size;
    proof {
        let (e, l, w) = (end - 1, last as int, within as int);
        assert((l + 1) * bs - (e + 1) == bs - 1 - w && 0 <= w < bs) by (nonlinear_arith)
            requires
                bs > 0,
                0 <= e,
                l == e / bs,
                w == e % bs,
        ;
    }
    if first < bitmap.total_blocks() && !bitmap.is_set(first) {
        plan.head.len = held_bytes(base_size, start, offset - start);
    }
    if last < bitmap.total_blocks() && !bitmap.is_set(last) {
        plan.tail.len = held_bytes(base_size, end, block_size - 1 - within);
    }
    plan
}

// ---- carrying a request out ----

/// Guest memory of `size` bytes, from address zero on, holds `count` bytes at `addr`, or
/// the reason why it does not.
pub open spec fn guest_slice(size: int, addr: GuestAddress, count: int) -> Option<GuestMemoryError> {
    if addr.0 >= size {
        Some(GuestMemoryError::InvalidGuestAddress(addr))
    } else if addr.0 + count > size {
        Some(GuestMemoryError::InvalidBackendAddress)
    } else {
        None
    }
}

/// A failed seek in the overlay or in the base.
pub open spec fn seek_error(dirty: bool, e: IoError) -> OverlayIoError {
    if dirty {
        OverlayIoError::OverlaySeek(e)
    } else {
        OverlayIoError::BaseSeek(e)
    }
}

/// A failed read from the overlay or from the base.
pub open spec fn read_error(dirty: bool, e: GuestMemoryError) -> OverlayIoError {
    if dirty {
        OverlayIoError::OverlayReadTransfer(e)
    } else {
        OverlayIoError::BaseTransfer(e)
    }
}

/// The bytes of `image` from `offset` on, `count` of them or as many as there are.
pub open spec fn bytes_from(image: Seq<u8>, offset: int, count: int) -> Seq<u8> {
    Seq::new(held_len(image.len() as int, offset, count) as nat, |i: int| image[offset + i])
}

/// Guest memory `mem` after `run` was read to `addr`, and what went wrong.
pub open spec fn run_read(
    base: Seq<u8>,
    overlay: Seq<u8>,
    run: ReadRun,
    mem: Seq<u8>,
    addr: GuestAddress,
) -> (Seq<u8>, Option<OverlayIoError>) {
    if run.offset > i64::MAX {
        (mem, Some(seek_error(run.dirty, IoError::Os(EINVAL))))
    } else {
        match guest_slice(mem.len() as int, addr, run.len as int) {
            Some(e) => (mem, Some(read_error(run.dirty, e))),
            None => {
                let image = if run.dirty {
                    overlay
                } else {
                    base
                };
                let data = bytes_from(image, run.offset as int, run.len as int);
                let e = GuestMemoryError::IOError(IoError::UnexpectedEof);
                (
                    image_write(mem, addr.0 as int, data),
                    if data.len() < run.len {
                        Some(read_error(run.dirty, e))
                    } else {
                        None
                    },
                )
            },
        }
    }
}

/// Guest memory `mem` after the runs of `plan` were read to `addr` one after the
/// other, up to the first that failed.
pub open spec fn plan_carried_out(
    base: Seq<u8>,
    overlay: Seq<u8>,
    plan: Seq<ReadRun>,
    mem: Seq<u8>,
    addr: GuestAddress,
) -> (Seq<u8>, Option<OverlayIoError>)
    decreases plan.len(),
{
    if plan.len() == 0 {
        (mem, None)
    } else {
        match run_read(base, overlay, plan[0], mem, addr) {
            (mem, Some(e)) => (mem, Some(e)),
            (mem, None) => plan_carried_out(
                base,
                overlay,
                plan.drop_first(),
                mem,
                GuestAddress((addr.0 + plan[0].len) as u64),
            ),
        }
    }
}

/// What keeps a write of `count` bytes, with `tail` bytes of the base behind it, from the
/// overlay.
pub open spec fn write_refused(
    mem_size: int,
    offset: int,
    addr: GuestAddress,
    count: int,
    tail: int,
) -> Option<OverlayIoError> {
    if offset > i64::MAX {
        Some(OverlayIoError::OverlaySeek(IoError::Os(EINVAL)))
    } else {
        match guest_slice(mem_size, addr, count) {
            Some(e) => Some(OverlayIoError::OverlayWriteTransfer(e)),
            None => if offset + count + tail > isize::MAX {
                Some(
                    OverlayIoError::OverlayWriteTransfer(
                        GuestMemoryError::IOError(IoError::FileTooLarge),
                    ),
                )
            } else {
                None
            },
        }
    }
}

/// `overlay` after `data` was written at `offset`, and before it what the write keeps of
/// the base.
pub open spec fn written(
    base: Seq<u8>,
    overlay: Seq<u8>,
    bits: Seq<bool>,
    block_size: int,
    offset: int,
    data: Seq<u8>,
) -> Seq<u8> {
    let size = base.len() as int;
    let count = data.len() as int;
    let start = offset / block_size * block_size;
    let end = offset + count;
    let head = bytes_from(base, start, head_len(bits, block_size, size, offset, count));
    let tail = bytes_from(base, end, tail_len(bits, block_size, size, offset, count));
    image_write(image_write(image_write(overlay, start, head), end, tail), offset, data)
}

/// `bits` after a write of `count` bytes at `offset`.
pub open spec fn marked(bits: Seq<bool>, block_size: int, offset: int, count: int) -> Seq<bool> {
    Seq::new(bits.len(), |b: int| bits[b] || touches(b, block_size, offset, count))
}

/// A discard of `len` bytes at `offset` touches block `b`. The sum is held to 64 bits.
pub open spec fn discards(b: int, block_size: int, offset: int, len: int) -> bool {
    let end = if offset + len <= u64::MAX {
        offset + len
    } else {
        u64::MAX as int
    };
    len > 0 && offset / block_size <= b <= (end - 1) / block_size
}

/// `bits` after `len` bytes at `offset` were discarded.
pub open spec fn unmarked(bits: Seq<bool>, block_size: int, offset: int, len: int) -> Seq<bool> {
    Seq::new(bits.len(), |b: int| bits[b] && !discards(b, block_size, offset, len))
}

/// `image` with a hole at `[offset, offset + len)`. No hole is punched past the largest
/// offset of a file.
pub open spec fn punched(image: Seq<u8>, offset: int, len: int) -> Seq<u8> {
    if offset + len > i64::MAX {
        image
    } else {
        Seq::new(
            image.len(),
            |i: int|
                if offset <= i < offset + len {
                    0
                } else {
                    image[i]
                },
        )
    }
}

/// The blocks from `start` to `end`, both with them, that a discard makes clean.
#[derive(Debug, Clone, Copy, PartialEq, Eq, Structural)]
pub struct BlockRange {
    pub start: u64,
    pub end: u64,
}

/// The blocks that a discard of `len` bytes at `offset` makes clean, if there are any.
pub fn discard_range(bitmap: &DiskBitmap, offset: u64, len: u64) -> (range: Option<BlockRange>)
    requires
        bitmap.wf(),
    ensures
        match range {
            None => unmarked(bitmap@, bitmap.granularity() as int, offset as int, len as int)
                == bitmap@,
            Some(range) => {
                &&& range.start <= range.end < bitmap@.len()
                &&& unmarked(bitmap@, bitmap.granularity() as int, offset as int, len as int)
                    == Seq::new(
                    bitmap@.len(),
                    |b: int| bitmap@[b] && !(range.start <= b <= range.end),
                )
            },
        },
{
    proof {
        bitmap.lemma_wf();
    }
    let ghost bs = bitmap.granularity() as int;
    if len == 0 {
        assert(unmarked(bitmap@, bs, offset as int, len as int) =~= bitmap@);
        return None;
    }
    let block_size = bitmap.block_size() as u64;
    let start = offset / block_size;
    let end_offset = offset.saturating_add(len).saturating_sub(1);
    let end_block = end_offset / block_size;
    let last_block = bitmap.total_blocks() - 1;
    let clamped_end = if end_block < last_block {
        end_block
    } else {
        last_block
    };
    proof {
        let want = unmarked(bitmap@, bs, offset as int, len as int);
        if start > clamped_end {
            assert(want =~= bitmap@);
        } else {
            assert(want =~= Seq::new(
                bitmap@.len(),
                |b: int| bitmap@[b] && !(start <= b <= clamped_end),
            ));
        }
    }
    if start <= clamped_end {
        Some(BlockRange { start, end: clamped_end })
    } else {
        None
    }
}

/// A read-only base image below a writable overlay.
#[derive(Debug)]
pub struct OverlayFileEngine {
    base: Vec<u8>,
    overlay: Vec<u8>,
    bitmap: DiskBitmap,
}

/// `Some` reason why `mem` does not hold `count` bytes at `addr`.
fn check_guest_slice(mem: &[u8], addr: GuestAddress, count: u32) -> (r: Option<GuestMemoryError>)
    ensures
        r == guest_slice(mem@.len() as int, addr, count as int),
{
    let size = mem.len() as u64;
    if addr.0 >= size {
        Some(GuestMemoryError::InvalidGuestAddress(addr))
    } else if count as u64 > size - addr.0 {
        Some(GuestMemoryError::InvalidBackendAddress)
    } else {
        None
    }
}

/// An overlay must be as large as its base.
pub fn check_sizes(base_size: u64, overlay_size: u64) -> (r: Result<(), OverlayIoError>)
    ensures
        r == if base_size != overlay_size {
            Err(OverlayIoError::SizeMismatch { base_size, overlay_size })
        } else {
            Ok(())
        },
{
    if base_size != overlay_size {
        return Err(OverlayIoError::SizeMismatch { base_size, overlay_size });
    }
    Ok(())
}

impl OverlayFileEngine {
    /// The base image.
    pub closed spec fn base_bytes(&self) -> Seq<u8> {
        self.base@
    }

    /// The overlay image.
    pub closed spec fn overlay_bytes(&self) -> Seq<u8> {
        self.overlay@
    }

    /// The dirty blocks.
    pub closed spec fn bits(&self) -> Seq<bool> {
        self.bitmap@
    }

    /// Bytes per block.
    pub closed spec fn granularity(&self) -> u32 {
        self.bitmap.granularity()
    }

    /// The bitmap is one.
    pub closed spec fn wf(&self) -> bool {
        self.bitmap.wf()
    }

    /// What every engine has.
    pub proof fn lemma_wf(&self)
        requires
            self.wf(),
        ensures
            valid_block_size(self.granularity()),
            0 < self.bits().len() <= usize::MAX,
    {
        self.bitmap.lemma_wf();
    }

    /// An engine for a read-only base and an overlay of the same size. Without a bitmap
    /// all blocks are clean.
    pub fn from_files(
        base: Vec<u8>,
        overlay: Vec<u8>,
        disk_size: u64,
        block_size: u32,
        bitmap: Option<DiskBitmap>,
    ) -> (r: Result<Self, OverlayIoError>)
        requires
            bitmap is Some ==> bitmap->0.wf(),
        ensures
            ({
                let n = div_up(disk_size as int, block_size as int);
                match r {
                    Ok(engine) => {
                        &&& base@.len() == overlay@.len()
                        &&& engine.wf()
                        &&& engine.base_bytes() == base@
                        &&& engine.overlay_bytes() == overlay@
                        &&& match bitmap {
                            Some(bitmap) => engine.bits() == bitmap@ && engine.granularity()
                                == bitmap.granularity(),
                            None => {
                                &&& valid_block_size(block_size)
                                &&& disk_size > 0
                                &&& n <= usize::MAX
                                &&& engine.bits() == Seq::new(n as nat, |i: int| false)
                                &&& engine.granularity() == block_size
                            },
                        }
                    },
                    Err(e) => if base@.len() != overlay@.len() {
                        e == OverlayIoError::SizeMismatch {
                            base_size: base@.len() as u64,
                            overlay_size: overlay@.len() as u64,
                        }
                    } else {
                        &&& bitmap is None
                        &&& e == if !valid_block_size(block_size) {
                            OverlayIoError::Bitmap(DirtyBitmapError::InvalidBlockSize(block_size))
                        } else if disk_size == 0 {
                            OverlayIoError::Bitmap(DirtyBitmapError::ZeroDiskSize)
                        } else {
                            OverlayIoError::Bitmap(DirtyBitmapError::TooManyBlocks(n as u64))
                        }
                        &&& !valid_block_size(block_size) || disk_size == 0 || n > usize::MAX
                    },
                }
            }),
    {
        check_sizes(base.len() as u64, overlay.len() as u64)?;
        let bitmap = match bitmap {
            Some(bitmap) => bitmap,
            None => match DiskBitmap::new(disk_size, block_size) {
                Ok(bitmap) => bitmap,
                Err(e) => {
                    return Err(OverlayIoError::Bitmap(e));
                },
            },
        };
        Ok(Self { base, overlay, bitmap })
    }

    /// Replace the overlay. The bitmap stays: the new overlay must fit it.
    pub fn update_overlay(&mut self, overlay: Vec<u8>)
        requires
            old(self).wf(),
        ensures
            final(self).wf(),
            final(self).overlay_bytes() == overlay@,
            final(self).base_bytes() == old(self).base_bytes(),
            final(self).bits() == old(self).bits(),
            final(self).granularity() == old(self).granularity(),
    {
        self.overlay = overlay;
    }

    /// The dirty bitmap.
    pub fn bitmap(&self) -> (bitmap: &DiskBitmap)
        ensures
            bitmap@ == self.bits(),
            bitmap.granularity() == self.granularity(),
            self.wf() ==> bitmap.wf(),
    {
        &self.bitmap
    }

    /// The overlay.
    pub fn overlay_file(&self) -> (overlay: &Vec<u8>)
        ensures
            overlay@ == self.overlay_bytes(),
    {
        &self.overlay
    }

    /// The overlay, for export and restore.
    pub fn overlay_file_mut(&mut self) -> (overlay: &mut Vec<u8>)
        ensures
            overlay@ == old(self).overlay_bytes(),
            final(self).overlay_bytes() == final(overlay)@,
            final(self).base_bytes() == old(self).base_bytes(),
            final(self).bits() == old(self).bits(),
            final(self).granularity() == old(self).granularity(),
            old(self).wf() ==> final(self).wf(),
    {
        &mut self.overlay
    }

    /// Make the blocks that `[offset, offset + len)` touches clean, and punch a hole in
    /// the overlay.
    pub fn discard(&mut self, offset: u64, len: u64) -> (r: Result<(), OverlayIoError>)
        requires
            old(self).wf(),
        ensures
            final(self).wf(),
            r == Ok::<(), OverlayIoError>(()),
            final(self).base_bytes() == old(self).base_bytes(),
            final(self).granularity() == old(self).granularity(),
            final(self).bits() == unmarked(
                old(self).bits(),
                old(self).granularity() as int,
                offset as int,
                len as int,
            ),
            final(self).overlay_bytes() == punched(
                old(self).overlay_bytes(),
                offset as int,
                len as int,
            ),
    {
        match discard_range(&self.bitmap, offset, len) {
            Some(range) => {
                proof {
                    self.bitmap.lemma_wf();
                }
                let mut block = range.start;
                while block <= range.end
                    invariant
                        self.bitmap.wf(),
                        self.base@ == old(self).base@,
                        self.overlay@ == old(self).overlay@,
                        self.bitmap.granularity() == old(self).bitmap.granularity(),
                        range.start <= block <= range.end + 1,
                        range.end < old(self).bitmap@.len() <= usize::MAX,
                        self.bitmap@ =~= Seq::new(
                            old(self).bitmap@.len(),
                            |b: int| old(self).bitmap@[b] && !(range.start <= b < block),
                        ),
                    decreases range.end + 1 - block,
                {
                    self.bitmap.unset(block);
                    block += 1;
                }
                assert(self.bitmap@ =~= Seq::new(
                    old(self).bitmap@.len(),
                    |b: int| old(self).bitmap@[b] && !(range.start <= b <= range.end),
                ));
            },
            None => {},
        }
        punch_hole(&mut self.overlay, offset, len);
        Ok(())
    }

    /// The delta file of the dirty blocks.
    pub fn write_delta(&self) -> (r: Result<(Vec<u8>, DeltaStats), DeltaError>)
        requires
            self.wf(),
            offsets_fit(self.bits(), self.granularity() as int),
        ensures
            match r {
                Ok((file, stats)) => {
                    &&& dirty_within(
                        self.bits(),
                        self.granularity() as int,
                        self.overlay_bytes().len() as int,
                    )
                    &&& file@ == delta_file(self.overlay_bytes(), self.bits(), self.granularity())
                    &&& stats == delta_stats(self.bits(), self.granularity(), 0)
                },
                Err(e) => {
                    &&& !dirty_within(
                        self.bits(),
                        self.granularity() as int,
                        self.overlay_bytes().len() as int,
                    )
                    &&& e == DeltaError::Io(IoError::UnexpectedEof)
                },
            },
    {
        crate::delta::write_delta(self.overlay.as_slice(), &self.bitmap)
    }

    /// Read `count` bytes at `offset` to `addr`, each from the file that the bitmap says.
    pub fn read(&self, offset: u64, mem: &mut Vec<u8>, addr: GuestAddress, count: u32) -> (r: Result<
        u32,
        OverlayIoError,
    >)
        requires
            self.wf(),
            range_uniform(self.bits(), self.granularity() as int, offset as int, count as int)
                is None ==> offset + count <= u64::MAX,
        ensures
            ({
                let plan = read_plan(
                    self.bits(),
                    self.granularity() as int,
                    offset as int,
                    count as int,
                );
                let want = plan_carried_out(
                    self.base_bytes(),
                    self.overlay_bytes(),
                    plan,
                    old(mem)@,
                    addr,
                );
                &&& final(mem)@ == want.0
                &&& r == match want.1 {
                    Some(e) => Err(e),
                    None => Ok(count),
                }
            }),
    {
        let plan = plan_read(&self.bitmap, offset, count);
        let mut current_addr = addr;
        let mut i: usize = 0;
        let ghost want = plan_carried_out(self.base@, self.overlay@, plan@, mem@, addr);
        assert(plan@.skip(0) =~= plan@);
        while i < plan.len()
            invariant
                i <= plan@.len(),
                plan@ == read_plan(
                    self.bitmap@,
                    self.bitmap.granularity() as int,
                    offset as int,
                    count as int,
                ),
                want == plan_carried_out(self.base@, self.overlay@, plan@, old(mem)@, addr),
                want == plan_carried_out(
                    self.base@,
                    self.overlay@,
                    plan@.skip(i as int),
                    mem@,
                    current_addr,
                ),
            decreases plan@.len() - i,
        {
            let run = plan[i];
            let ghost rest = plan@.skip(i as int);
            assert(rest[0] == run && rest.drop_first() =~= plan@.skip(i + 1));
            if run.dirty {
                self.read_from_overlay(run.offset, mem, current_addr, run.len)?;
            } else {
                self.read_from_base(run.offset, mem, current_addr, run.len)?;
            }
            current_addr = GuestAddress(current_addr.0 + run.len as u64);
            i += 1;
        }
        Ok(count)
    }

    /// Write `count` bytes at `addr` to the overlay, and mark their blocks dirty. Of a
    /// clean block that they cover in part, the rest is copied from the base first.
    pub fn write(&mut self, offset: u64, mem: &[u8], addr: GuestAddress, count: u32) -> (r: Result<
        u32,
        OverlayIoError,
    >)
        requires
            old(self).wf(),
        ensures
            final(self).wf(),
            final(self).base_bytes() == old(self).base_bytes(),
            final(self).granularity() == old(self).granularity(),
            match write_refused(
                mem@.len() as int,
                offset as int,
                addr,
                count as int,
                tail_len(
                    old(self).bits(),
                    old(self).granularity() as int,
                    old(self).base_bytes().len() as int,
                    offset as int,
                    count as int,
                ),
            ) {
                Some(e) => {
                    &&& r == Err::<u32, _>(e)
                    &&& final(self).overlay_bytes() == old(self).overlay_bytes()
                    &&& final(self).bits() == old(self).bits()
                },
                None => {
                    &&& r == Ok::<_, OverlayIoError>(count)
                    &&& final(self).overlay_bytes() == written(
                        old(self).base_bytes(),
                        old(self).overlay_bytes(),
                        old(self).bits(),
                        old(self).granularity() as int,
                        offset as int,
                        mem@.subrange(addr.0 as int, addr.0 + count),
                    )
                    &&& final(self).bits() == marked(
                        old(self).bits(),
                        old(self).granularity() as int,
                        offset as int,
                        count as int,
                    )
                },
            },
            addr.0 < mem@.len() && addr.0 + count <= mem@.len() && offset + count + old(
                self,
            ).granularity() <= isize::MAX ==> r == Ok::<_, OverlayIoError>(count),
    {
        proof {
            self.bitmap.lemma_wf();
            if addr.0 < mem@.len() && addr.0 + count <= mem@.len() && offset + count
                + self.bitmap.granularity() <= isize::MAX {
                law_write_is_accepted(
                    self.bitmap@,
                    self.bitmap.granularity() as int,
                    self.base@.len() as int,
                    mem@.len() as int,
                    offset as int,
                    addr,
                    count as int,
                );
            }
        }
        if offset > i64::MAX as u64 {
            return Err(OverlayIoError::OverlaySeek(IoError::Os(EINVAL)));
        }
        match check_guest_slice(mem, addr, count) {
            Some(e) => {
                return Err(OverlayIoError::OverlayWriteTransfer(e));
            },
            None => {},
        }
        let plan = plan_write(&self.bitmap, self.base.len() as u64, offset, count);
        if offset + count as u64 + plan.tail.len > isize::MAX as u64 {
            return Err(
                OverlayIoError::OverlayWriteTransfer(
                    GuestMemoryError::IOError(IoError::FileTooLarge),
                ),
            );
        }
        let data = match read_image(mem, addr.0, count as u64) {
            Ok(data) => data,
            Err(e) => {
                return Err(OverlayIoError::OverlayWriteTransfer(GuestMemoryError::IOError(e)));
            },
        };
        copy_kept(self.base.as_slice(), &mut self.overlay, plan.head);
        copy_kept(self.base.as_slice(), &mut self.overlay, plan.tail);
        match write_image(&mut self.overlay, offset, data.as_slice()) {
            Ok(_) => {},
            Err(e) => {
                return Err(OverlayIoError::OverlayWriteTransfer(GuestMemoryError::IOError(e)));
            },
        }
        self.bitmap.set(offset, count);
        assert(self.bitmap@ =~= marked(
            old(self).bitmap@,
            old(self).bitmap.granularity() as int,
            offset as int,
            count as int,
        ));
        Ok(count)
    }

    /// Flush the overlay. An image in memory has nothing to flush, and the base is never
    /// written.
    pub fn flush(&mut self) -> (r: Result<(), OverlayIoError>)
        ensures
            r == Ok::<(), OverlayIoError>(()),
            *final(self) == *old(self),
    {
        Ok(())
    }

    /// Read from the base alone.
    pub fn read_from_base(
        &self,
        offset: u64,
        mem: &mut Vec<u8>,
        addr: GuestAddress,
        count: u32,
    ) -> (r: Result<u32, OverlayIoError>)
        ensures
            ({
                let run = ReadRun { dirty: false, offset, len: count };
                let want = run_read(
                    self.base_bytes(),
                    self.overlay_bytes(),
                    run,
                    old(mem)@,
                    addr,
                );
                &&& final(mem)@ == want.0
                &&& r == match want.1 {
                    Some(e) => Err(e),
                    None => Ok(count),
                }
                &&& r is Ok ==> addr.0 + count <= final(mem).len()
            }),
    {
        if offset > i64::MAX as u64 {
            return Err(OverlayIoError::BaseSeek(IoError::Os(EINVAL)));
        }
        match check_guest_slice(mem.as_slice(), addr, count) {
            Some(e) => Err(OverlayIoError::BaseTransfer(e)),
            None => match read_to_guest(self.base.as_slice(), offset, mem, addr, count) {
                Ok(_) => Ok(count),
                Err(e) => Err(OverlayIoError::BaseTransfer(e)),
            },
        }
    }

    /// Read from the overlay alone.
    pub fn read_from_overlay(
        &self,
        offset: u64,
        mem: &mut Vec<u8>,
        addr: GuestAddress,
        count: u32,
    ) -> (r: Result<u32, OverlayIoError>)
        ensures
            ({
                let run = ReadRun { dirty: true, offset, len: count };
                let want = run_read(
                    self.base_bytes(),
                    self.overlay_bytes(),
                    run,
                    old(mem)@,
                    addr,
                );
                &&& final(mem)@ == want.0
                &&& r == match want.1 {
                    Some(e) => Err(e),
                    None => Ok(count),
                }
                &&& r is Ok ==> addr.0 + count <= final(mem).len()
            }),
    {
        if offset > i64::MAX as u64 {
            return Err(OverlayIoError::OverlaySeek(IoError::Os(EINVAL)));
        }
        match check_guest_slice(mem.as_slice(), addr, count) {
            Some(e) => Err(OverlayIoError::OverlayReadTransfer(e)),
            None => match read_to_guest(self.overlay.as_slice(), offset, mem, addr, count) {
                Ok(_) => Ok(count),
                Err(e) => Err(OverlayIoError::OverlayReadTransfer(e)),
            },
        }
    }
}

/// Copy `count` bytes of `image` at `offset` to `addr`, or as many as there are.
fn read_to_guest(
    image: &[u8],
    offset: u64,
    mem: &mut Vec<u8>,
    addr: GuestAddress,
    count: u32,
) -> (r: Result<(), GuestMemoryError>)
    requires
        offset <= i64::MAX,
        addr.0 + count <= old(mem).len(),
    ensures
        ({
            let data = bytes_from(image@, offset as int, count as int);
            &&& final(mem)@ == image_write(old(mem)@, addr.0 as int, data)
            &&& r == if data.len() < count {
                Err(GuestMemoryError::IOError(IoError::UnexpectedEof))
            } else {
                Ok(())
            }
            &&& final(mem)@.len() == old(mem)@.len()
        }),
{
    let size = image.len() as u64;
    let n: usize = if offset + count as u64 <= size {
        count as usize
    } else if offset <= size {
        (size - offset) as usize
    } else {
        0
    };
    let start = addr.0 as usize;
    let mut i: usize = 0;
    while i < n
        invariant
            i <= n <= count,
            start == addr.0,
            start + count <= mem.len(),
            offset + n <= image.len() || n == 0,
            mem@.len() == old(mem)@.len(),
            forall|k: int|
                0 <= k < mem@.len() ==> #[trigger] mem@[k] == if start <= k < start + i {
                    image@[offset + k - start]
                } else {
                    old(mem)@[k]
                },
        decreases n - i,
    {
        mem[start + i] = image[offset as usize + i];
        i += 1;
    }
    assert(mem@ =~= image_write(
        old(mem)@,
        addr.0 as int,
        bytes_from(image@, offset as int, count as int),
    ));
    if n < count as usize {
        Err(GuestMemoryError::IOError(IoError::UnexpectedEof))
    } else {
        Ok(())
    }
}

/// Copy `range` of `base` to `overlay`.
fn copy_kept(base: &[u8], overlay: &mut Vec<u8>, range: KeptRange)
    requires
        range.len > 0 ==> range.offset + range.len <= base@.len(),
        range.offset + range.len <= isize::MAX,
    ensures
        final(overlay)@ == image_write(
            old(overlay)@,
            range.offset as int,
            bytes_from(base@, range.offset as int, range.len as int),
        ),
{
    let ghost data = bytes_from(base@, range.offset as int, range.len as int);
    if range.len == 0 {
        assert(image_write(overlay@, range.offset as int, data) =~= overlay@);
        return;
    }
    let start = range.offset as usize;
    let bytes = slice_subrange(base, start, start + range.len as usize);
    assert(bytes@ =~= data);
    let _ = write_image(overlay, range.offset, bytes);
}

/// Make `image` read as zeros at `[offset, offset + len)`.
fn punch_hole(image: &mut Vec<u8>, offset: u64, len: u64)
    ensures
        final(image)@ == punched(old(image)@, offset as int, len as int),
{
    let limit = i64::MAX as u64;
    if offset > limit || len > limit - offset {
        return;
    }
    let size = image.len() as u64;
    let end: usize = if offset + len < size {
        (offset + len) as usize
    } else {
        image.len()
    };
    if offset > size {
        assert(image@ =~= punched(old(image)@, offset as int, len as int));
        return;
    }
    let mut i: usize = offset as usize;
    while i < end
        invariant
            offset <= i,
            i <= end || i == offset,
            end <= image.len(),
            image@.len() == old(image)@.len(),
            forall|k: int|
                0 <= k < image@.len() ==> #[trigger] image@[k] == if offset <= k < i {
                    0
                } else {
                    old(image)@[k]
                },
        decreases end - i,
    {
        image[i] = 0;
        i += 1;
    }
    assert(image@ =~= punched(old(image)@, offset as int, len as int));
}

// ---- what the guest sees ----

/// The byte of the disk at `i`: of the overlay in a dirty block, of the base elsewhere.
pub open spec fn visible_byte(
    base: Seq<u8>,
    overlay: Seq<u8>,
    bits: Seq<bool>,
    block_size: int,
    i: int,
) -> u8 {
    if byte_dirty(bits, block_size, i) {
        overlay[i]
    } else {
        base[i]
    }
}

/// The bytes `[offset, offset + count)` of the disk.
pub open spec fn visible(
    base: Seq<u8>,
    overlay: Seq<u8>,
    bits: Seq<bool>,
    block_size: int,
    offset: int,
    count: int,
) -> Seq<u8> {
    Seq::new(
        count as nat,
        |j: int| visible_byte(base, overlay, bits, block_size, offset + j),
    )
}

/// Each byte of the range lies in the file that serves it.
pub open spec fn readable(
    base: Seq<u8>,
    overlay: Seq<u8>,
    bits: Seq<bool>,
    block_size: int,
    offset: int,
    count: int,
) -> bool {
    forall|i: int|
        offset <= i < offset + count ==> if #[trigger] byte_dirty(bits, block_size, i) {
            i < overlay.len()
        } else {
            i < base.len()
        }
}

/// The bytes of a run have one source.
proof fn lemma_run_source(bits: Seq<bool>, block_size: int, offset: int, end: int, i: int)
    requires
        block_size > 0,
        offset <= i < run_end(bits, block_size, offset, end),
        offset < end,
    ensures
        byte_dirty(bits, block_size, i) == byte_dirty(bits, block_size, offset),
    decreases end - offset,
{
    let b = offset / block_size;
    let boundary = (b + 1) * block_size;
    assert(offset < boundary) by (nonlinear_arith)
        requires
            block_size > 0,
            b == offset / block_size,
            boundary == (b + 1) * block_size,
    ;
    lemma_run_end(bits, block_size, offset, end);
    if i < boundary {
        assert(i / block_size == b) by (nonlinear_arith)
            requires
                block_size > 0,
                b == offset / block_size,
                offset <= i < (b + 1) * block_size,
        ;
    } else {
        lemma_run_source(bits, block_size, boundary, end, i);
    }
}

/// Carrying out the runs of a readable range moves what is visible there.
proof fn lemma_runs_carried_out(
    base: Seq<u8>,
    overlay: Seq<u8>,
    bits: Seq<bool>,
    block_size: int,
    offset: int,
    end: int,
    mem: Seq<u8>,
    addr: GuestAddress,
)
    requires
        block_size > 0,
        0 <= offset <= end <= i64::MAX,
        end - offset <= u32::MAX,
        addr.0 + (end - offset) <= mem.len() <= u64::MAX,
        readable(base, overlay, bits, block_size, offset, end - offset),
    ensures
        plan_carried_out(base, overlay, runs(bits, block_size, offset, end), mem, addr) == (
            image_write(
                mem,
                addr.0 as int,
                visible(base, overlay, bits, block_size, offset, end - offset),
            ),
            None::<OverlayIoError>,
        ),
    decreases end - offset,
{
    let all = visible(base, overlay, bits, block_size, offset, end - offset);
    let plan = runs(bits, block_size, offset, end);
    if offset == end {
        assert(image_write(mem, addr.0 as int, all) =~= mem);
    } else {
        lemma_run_end(bits, block_size, offset, end);
        let next = run_end(bits, block_size, offset, end);
        let n = next - offset;
        let run = ReadRun {
            dirty: byte_dirty(bits, block_size, offset),
            offset: offset as u64,
            len: n as u32,
        };
        let rest = runs(bits, block_size, next, end);
        assert(plan =~= seq![run] + rest);
        assert(plan.drop_first() =~= rest);
        let image = if run.dirty {
            overlay
        } else {
            base
        };
        assert forall|i: int| offset <= i < next implies i < image.len() && visible_byte(
            base,
            overlay,
            bits,
            block_size,
            i,
        ) == image[i] by {
            lemma_run_source(bits, block_size, offset, end, i);
        }
        lemma_run_source(bits, block_size, offset, end, next - 1);
        let data = bytes_from(image, offset, n);
        let first = image_write(mem, addr.0 as int, data);
        let after = GuestAddress((addr.0 + n) as u64);
        lemma_runs_carried_out(base, overlay, bits, block_size, next, end, first, after);
        assert(image_write(mem, addr.0 as int, all) =~= image_write(
            first,
            after.0 as int,
            visible(base, overlay, bits, block_size, next, end - next),
        ));
    }
}

/// A read of a range that the files and guest memory hold puts what is visible there
/// into guest memory, and nothing else changes.
pub proof fn law_read_is_visible(
    base: Seq<u8>,
    overlay: Seq<u8>,
    bits: Seq<bool>,
    block_size: int,
    offset: u64,
    mem: Seq<u8>,
    addr: GuestAddress,
    count: u32,
)
    requires
        block_size > 0,
        offset + count <= i64::MAX,
        mem.len() <= u64::MAX,
        guest_slice(mem.len() as int, addr, count as int) is None,
        readable(base, overlay, bits, block_size, offset as int, count as int),
    ensures
        plan_carried_out(
            base,
            overlay,
            read_plan(bits, block_size, offset as int, count as int),
            mem,
            addr,
        ) == (
            image_write(
                mem,
                addr.0 as int,
                visible(base, overlay, bits, block_size, offset as int, count as int),
            ),
            None::<OverlayIoError>,
        ),
{
    if count > 0 {
        lemma_runs_carried_out(
            base,
            overlay,
            bits,
            block_size,
            offset as int,
            offset + count,
            mem,
            addr,
        );
    } else {
        let plan = read_plan(bits, block_size, offset as int, 0);
        assert(plan.drop_first() =~= Seq::<ReadRun>::empty());
        reveal_with_fuel(plan_carried_out, 2);
        let data = bytes_from(base, offset as int, 0);
        assert(data =~= Seq::empty());
        assert(visible(base, overlay, bits, block_size, offset as int, 0) =~= data);
    }
}

/// Reading back a range after `data` was written there gives `data`, whatever the base,
/// the overlay and the bitmap held. The range must lie on the disk: a block past the
/// end of the bitmap cannot become dirty.
pub proof fn law_read_after_write(
    base: Seq<u8>,
    overlay: Seq<u8>,
    bits: Seq<bool>,
    block_size: int,
    offset: u64,
    data: Seq<u8>,
    mem: Seq<u8>,
    addr: GuestAddress,
)
    requires
        block_size > 0,
        data.len() <= u32::MAX,
        offset + data.len() <= bits.len() * block_size,
        offset + data.len() <= i64::MAX,
        mem.len() <= u64::MAX,
        guest_slice(mem.len() as int, addr, data.len() as int) is None,
    ensures
        plan_carried_out(
            base,
            written(base, overlay, bits, block_size, offset as int, data),
            read_plan(
                marked(bits, block_size, offset as int, data.len() as int),
                block_size,
                offset as int,
                data.len() as int,
            ),
            mem,
            addr,
        ) == (image_write(mem, addr.0 as int, data), None::<OverlayIoError>),
{
    let count = data.len() as int;
    let after = written(base, overlay, bits, block_size, offset as int, data);
    let now = marked(bits, block_size, offset as int, count);
    assert forall|i: int| offset <= i < offset + count implies #[trigger] byte_dirty(
        now,
        block_size,
        i,
    ) by {
        let b = i / block_size;
        let n = bits.len() as int;
        assert(b * block_size <= i < (b + 1) * block_size && 0 <= b < n) by (nonlinear_arith)
            requires
                block_size > 0,
                b == i / block_size,
                0 <= i < n * block_size,
        ;
        assert(touches(b, block_size, offset as int, count));
    }
    law_read_is_visible(base, after, now, block_size, offset, mem, addr, count as u32);
    assert(visible(base, after, now, block_size, offset as int, count) =~= data);
}

/// A write changes no byte of the disk outside its range, and leaves every byte in the
/// file that serves it.
pub proof fn law_write_keeps_the_rest(
    base: Seq<u8>,
    overlay: Seq<u8>,
    bits: Seq<bool>,
    block_size: int,
    offset: int,
    data: Seq<u8>,
    i: int,
)
    requires
        block_size > 0,
        0 <= offset,
        0 <= i < base.len(),
        !(offset <= i < offset + data.len()),
        byte_dirty(bits, block_size, i) ==> i < overlay.len(),
    ensures
        visible_byte(
            base,
            written(base, overlay, bits, block_size, offset, data),
            marked(bits, block_size, offset, data.len() as int),
            block_size,
            i,
        ) == visible_byte(base, overlay, bits, block_size, i),
        byte_dirty(marked(bits, block_size, offset, data.len() as int), block_size, i) ==> i
            < written(base, overlay, bits, block_size, offset, data).len(),
{
    let size = base.len() as int;
    let count = data.len() as int;
    let end = offset + count;
    let b = i / block_size;
    let first = offset / block_size;
    let last = (end - 1) / block_size;
    let h = head_len(bits, block_size, size, offset, count);
    let t = tail_len(bits, block_size, size, offset, count);
    assert(b * block_size <= i < (b + 1) * block_size && 0 <= b) by (nonlinear_arith)
        requires
            block_size > 0,
            0 <= i,
            b == i / block_size,
    ;
    assert(0 <= first * block_size <= offset < (first + 1) * block_size) by (nonlinear_arith)
        requires
            block_size > 0,
            0 <= offset,
            first == offset / block_size,
    ;
    if count > 0 {
        lemma_touched_blocks(b, block_size, offset, count);
        assert(last * block_size < end <= (last + 1) * block_size) by (nonlinear_arith)
            requires
                block_size > 0,
                last == (end - 1) / block_size,
        ;
    }
    // In a block that was dirty nothing is copied, and in a clean one it is the base.
    if first * block_size <= i < offset {
        assert(b == first) by (nonlinear_arith)
            requires
                block_size > 0,
                b == i / block_size,
                first * block_size <= i < (first + 1) * block_size,
        ;
    }
    if count > 0 && end <= i < (last + 1) * block_size {
        assert(b == last) by (nonlinear_arith)
            requires
                block_size > 0,
                b == i / block_size,
                last * block_size <= i < (last + 1) * block_size,
        ;
    }
    if touches(b, block_size, offset, count) && block_clean(bits, b) {
        if i < offset {
            assert(b == first) by (nonlinear_arith)
                requires
                    block_size > 0,
                    first == offset / block_size,
                    b * block_size <= i < offset < (b + 1) * block_size,
            ;
            assert(i < first * block_size + h);
        } else {
            assert(b <= last);
            assert(i < (last + 1) * block_size) by (nonlinear_arith)
                requires
                    b <= last,
                    i < (b + 1) * block_size,
                    block_size > 0,
            ;
            assert(i < end + t);
        }
    }
}

/// A discard shows the base in every block that it touches, and changes no other block.
pub proof fn law_discard_shows_base(
    base: Seq<u8>,
    overlay: Seq<u8>,
    bits: Seq<bool>,
    block_size: int,
    offset: u64,
    len: u64,
    i: int,
)
    requires
        block_size > 0,
        0 <= i,
        byte_dirty(bits, block_size, i) ==> i < overlay.len(),
    ensures
        visible_byte(
            base,
            punched(overlay, offset as int, len as int),
            unmarked(bits, block_size, offset as int, len as int),
            block_size,
            i,
        ) == if discards(i / block_size, block_size, offset as int, len as int) {
            base[i]
        } else {
            visible_byte(base, overlay, bits, block_size, i)
        },
        offset + len <= u64::MAX ==> (discards(
            i / block_size,
            block_size,
            offset as int,
            len as int,
        ) <==> touches(i / block_size, block_size, offset as int, len as int)),
{
    let b = i / block_size;
    assert(b * block_size <= i < (b + 1) * block_size && 0 <= b) by (nonlinear_arith)
        requires
            block_size > 0,
            0 <= i,
            b == i / block_size,
    ;
    if len > 0 && offset + len <= u64::MAX {
        lemma_touched_blocks(b, block_size, offset as int, len as int);
    }
    if offset <= i < offset + len && offset + len <= i64::MAX {
        assert(touches(b, block_size, offset as int, len as int));
    }
}

/// Merging the overlay into the base makes the image that was visible.
pub proof fn law_merged_is_visible(
    base: Seq<u8>,
    overlay: Seq<u8>,
    bits: Seq<bool>,
    block_size: int,
    i: int,
)
    requires
        0 <= i < base.len(),
        block_size > 0,
    ensures
        merged(base, overlay, bits, block_size).len() == base.len(),
        merged(base, overlay, bits, block_size)[i] == visible_byte(
            base,
            overlay,
            bits,
            block_size,
            i,
        ),
{
}

/// The delta file of an overlay, applied to a fresh overlay of the size of the disk,
/// gives an overlay and a bitmap that show the same disk, whatever the fresh one held.
pub proof fn law_delta_restores_disk(
    base: Seq<u8>,
    overlay: Seq<u8>,
    fresh: Seq<u8>,
    bits: Seq<bool>,
    block_size: u32,
    i: int,
)
    requires
        valid_block_size(block_size),
        1 <= bits.len(),
        packed(bits).len() <= u32::MAX,
        fresh.len() == bits.len() * block_size,
        fresh.len() <= isize::MAX,
        dirty_within(bits, block_size as int, overlay.len() as int),
        0 <= i < fresh.len(),
    ensures
        ({
            let (restored, r) = applied(fresh, delta_file(overlay, bits, block_size));
            &&& r == Ok::<_, DeltaError>(bits)
            &&& restored.len() == fresh.len()
            &&& visible_byte(base, restored, bits, block_size as int, i) == visible_byte(
                base,
                overlay,
                bits,
                block_size as int,
                i,
            )
        }),
{
    law_apply_written_delta(fresh, overlay, bits, block_size);
}

// ---- requests in terms of bytes ----

/// A write is never refused when guest memory holds its bytes and it ends at least a block
/// below the largest size of an image, whatever its length.
pub proof fn law_write_is_accepted(
    bits: Seq<bool>,
    block_size: int,
    base_size: int,
    mem_size: int,
    offset: int,
    addr: GuestAddress,
    count: int,
)
    requires
        0 < block_size,
        0 <= offset,
        0 <= count,
        addr.0 < mem_size,
        addr.0 + count <= mem_size,
        offset + count + block_size <= isize::MAX,
    ensures
        write_refused(
            mem_size,
            offset,
            addr,
            count,
            tail_len(bits, block_size, base_size, offset, count),
        ) is None,
{
    let end = offset + count;
    let last = (end - 1) / block_size;
    assert((last + 1) * block_size - end < block_size) by (nonlinear_arith)
        requires
            0 < block_size,
            last == (end - 1) / block_size,
    ;
}

/// A write is refused for an offset that no file has (error 22), for an address that guest
/// memory does not have, for a range that goes past its end, and when the image would become
/// too large; in this order, and for no other reason.
pub proof fn law_write_refusals(
    mem_size: int,
    offset: int,
    addr: GuestAddress,
    count: int,
    tail: int,
)
    ensures
        ({
            let r = write_refused(mem_size, offset, addr, count, tail);
            &&& offset > 0x7fff_ffff_ffff_ffff ==> r == Some(
                OverlayIoError::OverlaySeek(IoError::Os(22)),
            )
            &&& offset <= 0x7fff_ffff_ffff_ffff && addr.0 >= mem_size ==> r == Some(
                OverlayIoError::OverlayWriteTransfer(GuestMemoryError::InvalidGuestAddress(addr)),
            )
            &&& offset <= 0x7fff_ffff_ffff_ffff && addr.0 < mem_size < addr.0 + count ==> r == Some(
                OverlayIoError::OverlayWriteTransfer(GuestMemoryError::InvalidBackendAddress),
            )
            &&& offset <= 0x7fff_ffff_ffff_ffff && addr.0 < mem_size && addr.0 + count <= mem_size
                && offset + count + tail > isize::MAX ==> r == Some(
                OverlayIoError::OverlayWriteTransfer(
                    GuestMemoryError::IOError(IoError::FileTooLarge),
                ),
            )
            &&& offset <= 0x7fff_ffff_ffff_ffff && addr.0 < mem_size && addr.0 + count <= mem_size
                && offset + count + tail <= isize::MAX ==> r is None
        }),
{
}

/// What lies at `i` for the guest: the overlay in a block that is dirty, the base in any
/// other.
pub proof fn law_dirty_blocks_show_overlay(
    base: Seq<u8>,
    overlay: Seq<u8>,
    bits: Seq<bool>,
    block_size: int,
    b: int,
    i: int,
)
    requires
        0 < block_size,
        b * block_size <= i < (b + 1) * block_size,
    ensures
        0 <= b < bits.len() && bits[b] ==> visible_byte(base, overlay, bits, block_size, i)
            == overlay[i],
        !(0 <= b < bits.len() && bits[b]) ==> visible_byte(base, overlay, bits, block_size, i)
            == base[i],
{
    assert(i / block_size == b) by (nonlinear_arith)
        requires
            0 < block_size,
            b * block_size <= i < (b + 1) * block_size,
    ;
}

/// A read fails nowhere when guest memory holds its bytes and every byte lies in the file
/// that serves it. Then each byte of guest memory in the range is that of the overlay where
/// the block is dirty and that of the base elsewhere, and every other byte is as it was.
pub proof fn law_read_moves_bytes(
    base: Seq<u8>,
    overlay: Seq<u8>,
    bits: Seq<bool>,
    block_size: int,
    offset: u64,
    mem: Seq<u8>,
    addr: GuestAddress,
    count: u32,
    j: int,
)
    requires
        block_size > 0,
        offset + count <= 0x7fff_ffff_ffff_ffff,
        mem.len() <= u64::MAX,
        addr.0 < mem.len(),
        addr.0 + count <= mem.len(),
        forall|i: int|
            #![trigger base[i]]
            offset <= i < offset + count ==> if i / block_size < bits.len() && bits[i / block_size] {
                i < overlay.len()
            } else {
                i < base.len()
            },
    ensures
        ({
            let plan = read_plan(bits, block_size, offset as int, count as int);
            let (after, e) = plan_carried_out(base, overlay, plan, mem, addr);
            &&& e is None
            &&& after.len() == mem.len()
            &&& addr.0 <= j < addr.0 + count ==> {
                let i = offset + (j - addr.0);
                after[j] == if i / block_size < bits.len() && bits[i / block_size] {
                    overlay[i]
                } else {
                    base[i]
                }
            }
            &&& 0 <= j < mem.len() && !(addr.0 <= j < addr.0 + count) ==> after[j] == mem[j]
        }),
{
    assert forall|i: int| offset <= i < offset + count implies if #[trigger] byte_dirty(
        bits,
        block_size,
        i,
    ) {
        i < overlay.len()
    } else {
        i < base.len()
    } by {
        let here = base[i];
        lemma_block_index(i, block_size);
    }
    law_read_is_visible(base, overlay, bits, block_size, offset, mem, addr, count);
    if addr.0 <= j < addr.0 + count {
        lemma_block_index(offset + (j - addr.0), block_size);
    }
}

proof fn lemma_block_index(i: int, block_size: int)
    requires
        0 <= i,
        0 < block_size,
    ensures
        0 <= i / block_size,
        i / block_size * block_size <= i < (i / block_size + 1) * block_size,
{
    assert(0 <= i / block_size && i / block_size * block_size <= i < (i / block_size + 1)
        * block_size) by (nonlinear_arith)
        requires
            0 <= i,
            0 < block_size,
    ;
}

/// After a write a byte of the disk shows the data where the data lies, and elsewhere what it
/// showed before, in whatever way the blocks of the range were dirty or clean: dirty blocks
/// show the overlay, and any other the base.
pub proof fn law_write_shows_data(
    base: Seq<u8>,
    overlay: Seq<u8>,
    bits: Seq<bool>,
    block_size: int,
    offset: int,
    data: Seq<u8>,
    i: int,
)
    requires
        0 < block_size,
        0 <= offset,
        0 <= i < base.len(),
        i < bits.len() * block_size,
        bits[i / block_size] ==> i < overlay.len(),
    ensures
        ({
            let overlay2 = written(base, overlay, bits, block_size, offset, data);
            let bits2 = marked(bits, block_size, offset, data.len() as int);
            let shown = if bits[i / block_size] {
                overlay[i]
            } else {
                base[i]
            };
            let shown2 = if bits2[i / block_size] {
                overlay2[i]
            } else {
                base[i]
            };
            &&& offset <= i < offset + data.len() ==> shown2 == data[i - offset]
            &&& !(offset <= i < offset + data.len()) ==> shown2 == shown
            &&& bits2[i / block_size] ==> i < overlay2.len()
            &&& overlay2.len() >= overlay.len()
        }),
{
    let b = i / block_size;
    let n = bits.len() as int;
    lemma_block_index(i, block_size);
    assert(b < n) by (nonlinear_arith)
        requires
            0 < block_size,
            b * block_size <= i < n * block_size,
    ;
    let overlay2 = written(base, overlay, bits, block_size, offset, data);
    let bits2 = marked(bits, block_size, offset, data.len() as int);
    if offset <= i < offset + data.len() {
        assert(touches(b, block_size, offset, data.len() as int));
    } else {
        assert(byte_dirty(bits, block_size, i) == bits[b]);
        assert(byte_dirty(bits2, block_size, i) == bits2[b]);
        law_write_keeps_the_rest(base, overlay, bits, block_size, offset, data, i);
    }
}

/// A write that lies in the disk leaves an overlay of the size of the disk at that size.
pub proof fn law_write_keeps_size(
    base: Seq<u8>,
    overlay: Seq<u8>,
    bits: Seq<bool>,
    block_size: int,
    offset: int,
    data: Seq<u8>,
)
    requires
        0 < block_size,
        0 <= offset,
        overlay.len() == base.len(),
        offset + data.len() <= overlay.len(),
    ensures
        written(base, overlay, bits, block_size, offset, data).len() == overlay.len(),
{
    lemma_block_index(offset, block_size);
    if data.len() > 0 {
        lemma_block_index(offset + data.len() - 1, block_size);
    }
}

/// A write makes exactly the blocks dirty that one of its bytes lies in, and a discard makes
/// exactly the blocks clean that one of its bytes lies in; no other block changes. The end
/// of a discard is held to 64 bits.
pub proof fn law_touched_blocks_change(
    bits: Seq<bool>,
    block_size: int,
    offset: u64,
    len: u64,
    b: int,
)
    requires
        0 < block_size,
        0 <= b < bits.len(),
    ensures
        ({
            let now = marked(bits, block_size, offset as int, len as int);
            now.len() == bits.len() && (now[b] <==> bits[b] || (len > 0 && b * block_size < offset
                + len && offset < (b + 1) * block_size))
        }),
        ({
            let now = unmarked(bits, block_size, offset as int, len as int);
            now.len() == bits.len() && (now[b] <==> bits[b] && !(len > 0 && b * block_size < offset
                + len && b * block_size < 0xffff_ffff_ffff_ffff && offset < (b + 1) * block_size))
        }),
{
    let o = offset as int;
    let end = if o + len <= u64::MAX {
        o + len
    } else {
        u64::MAX as int
    };
    let (first, last) = (o / block_size, (end - 1) / block_size);
    assert(first <= b <==> o < (b + 1) * block_size) by (nonlinear_arith)
        requires
            0 < block_size,
            first == o / block_size,
    ;
    assert(b <= last <==> b * block_size < end) by (nonlinear_arith)
        requires
            0 < block_size,
            last == (end - 1) / block_size,
    ;
}

/// A hole reads as zeros and leaves every other byte and the size alone. None is punched
/// when it would go past the largest offset of a file.
pub proof fn law_hole_reads_as_zeros(image: Seq<u8>, offset: int, len: int, i: int)
    requires
        0 <= offset,
        0 <= len,
        0 <= i < image.len(),
    ensures
        punched(image, offset, len).len() == image.len(),
        offset + len <= 0x7fff_ffff_ffff_ffff && offset <= i < offset + len ==> punched(
            image,
            offset,
            len,
        )[i] == 0,
        offset + len > 0x7fff_ffff_ffff_ffff || !(offset <= i < offset + len) ==> punched(
            image,
            offset,
            len,
        )[i] == image[i],
{
}

/// The runs of a read follow one another without a gap from its first byte to its last, none
/// is empty, two that follow one another have different sources, and each byte of a run lies
/// in a block of the source of the run: dirty for the overlay, clean or past the bitmap for
/// the base.
pub proof fn law_plan_tiles_read(
    bits: Seq<bool>,
    block_size: int,
    offset: u64,
    count: u32,
    k: int,
    i: int,
)
    requires
        0 < block_size,
        0 < count,
        offset + count <= u64::MAX,
        0 <= k < read_plan(bits, block_size, offset as int, count as int).len(),
    ensures
        ({
            let plan = read_plan(bits, block_size, offset as int, count as int);
            let run = plan[k];
            &&& run.len > 0
            &&& plan[0].offset == offset
            &&& plan.last().offset + plan.last().len == offset + count
            &&& k > 0 ==> plan[k - 1].offset + plan[k - 1].len == run.offset
            &&& k > 0 ==> plan[k - 1].dirty != run.dirty
            &&& run.offset <= i < run.offset + run.len ==> (run.dirty <==> i / block_size
                < bits.len() && bits[i / block_size])
        }),
{
    lemma_runs_tile(bits, block_size, offset as int, offset + count, k, i);
}

proof fn lemma_runs_tile(
    bits: Seq<bool>,
    block_size: int,
    offset: int,
    end: int,
    k: int,
    i: int,
)
    requires
        0 < block_size,
        0 <= offset < end <= u64::MAX,
        end - offset <= u32::MAX,
        0 <= k < runs(bits, block_size, offset, end).len(),
    ensures
        ({
            let plan = runs(bits, block_size, offset, end);
            let run = plan[k];
            &&& run.len > 0
            &&& plan[0].offset == offset
            &&& plan[0].dirty == byte_dirty(bits, block_size, offset)
            &&& plan.last().offset + plan.last().len == end
            &&& k > 0 ==> plan[k - 1].offset + plan[k - 1].len == run.offset
            &&& k > 0 ==> plan[k - 1].dirty != run.dirty
            &&& run.offset <= i < run.offset + run.len ==> (run.dirty <==> i / block_size
                < bits.len() && bits[i / block_size])
        }),
    decreases end - offset,
{
    let plan = runs(bits, block_size, offset, end);
    let next = run_end(bits, block_size, offset, end);
    lemma_run_end(bits, block_size, offset, end);
    let rest = runs(bits, block_size, next, end);
    let first = ReadRun {
        dirty: byte_dirty(bits, block_size, offset),
        offset: offset as u64,
        len: (next - offset) as u32,
    };
    assert(plan == seq![first] + rest);
    assert(plan[0] == first);
    if next < end {
        lemma_run_changes(bits, block_size, offset, end);
        lemma_run_end(bits, block_size, next, end);
        assert(rest.len() > 0);
        assert(plan.last() == rest.last());
        lemma_runs_tile(
            bits,
            block_size,
            next,
            end,
            if k > 0 {
                k - 1
            } else {
                0
            },
            i,
        );
        if k > 0 {
            assert(plan[k] == rest[k - 1]);
            if k > 1 {
                assert(plan[k - 1] == rest[k - 2]);
            }
        }
    } else {
        assert(rest =~= Seq::empty());
    }
    if k == 0 && offset <= i < next {
        lemma_run_source(bits, block_size, offset, end, i);
        lemma_block_index(i, block_size);
    }
}

/// A run that ends before the request does ends where the source changes.
proof fn lemma_run_changes(bits: Seq<bool>, block_size: int, offset: int, end: int)
    requires
        0 < block_size,
        0 <= offset < end,
        run_end(bits, block_size, offset, end) < end,
    ensures
        byte_dirty(bits, block_size, run_end(bits, block_size, offset, end)) != byte_dirty(
            bits,
            block_size,
            offset,
        ),
    decreases end - offset,
{
    let boundary = (offset / block_size + 1) * block_size;
    lemma_block_index(offset, block_size);
    if boundary < end && byte_dirty(bits, block_size, boundary) == byte_dirty(
        bits,
        block_size,
        offset,
    ) {
        lemma_run_changes(bits, block_size, boundary, end);
    }
}

/// A write keeps a byte of the base in front of it exactly when the byte lies in the block
/// that the write starts in, before the write, and the block is clean; and behind it exactly
/// when the byte lies in the block that the write ends in, after the write, and the block is
/// clean.
pub proof fn law_kept_bytes(
    bits: Seq<bool>,
    block_size: int,
    base_size: int,
    offset: int,
    count: int,
    i: int,
)
    requires
        0 < block_size,
        0 <= offset,
        0 < count,
        0 <= i < base_size,
    ensures
        ({
            let first = offset / block_size;
            let start = first * block_size;
            let h = head_len(bits, block_size, base_size, offset, count);
            &&& 0 <= h
            &&& start <= i < start + h <==> i / block_size == first && i < offset && first
                < bits.len() && !bits[first]
        }),
        ({
            let end = offset + count;
            let last = (end - 1) / block_size;
            let t = tail_len(bits, block_size, base_size, offset, count);
            &&& 0 <= t < block_size
            &&& end <= i < end + t <==> i / block_size == last && end <= i && last < bits.len()
                && !bits[last]
        }),
{
    let end = offset + count;
    let first = offset / block_size;
    let last = (end - 1) / block_size;
    let b = i / block_size;
    lemma_block_index(i, block_size);
    lemma_block_index(offset, block_size);
    lemma_block_index(end - 1, block_size);
    assert(b == first <==> first * block_size <= i < (first + 1) * block_size) by (nonlinear_arith)
        requires
            0 < block_size,
            b == i / block_size,
    ;
    assert(b == last <==> last * block_size <= i < (last + 1) * block_size) by (nonlinear_arith)
        requires
            0 < block_size,
            b == i / block_size,
    ;
    assert((last + 1) * block_size == last * block_size + block_size) by (nonlinear_arith);
}

/// A read from one file fails for an offset that no file has (error 22), for an address that
/// guest memory does not have, and for a range that goes past its end, and then moves
/// nothing. Otherwise it moves each byte that the file has, and fails at the end of the file
/// if that is short of the range. The error names the file.
pub proof fn law_run_is_read(
    base: Seq<u8>,
    overlay: Seq<u8>,
    run: ReadRun,
    mem: Seq<u8>,
    addr: GuestAddress,
    j: int,
)
    ensures
        ({
            let (after, e) = run_read(base, overlay, run, mem, addr);
            let image = if run.dirty {
                overlay
            } else {
                base
            };
            let fits = addr.0 < mem.len() && addr.0 + run.len <= mem.len();
            &&& run.offset > 0x7fff_ffff_ffff_ffff ==> after == mem && e == Some(
                if run.dirty {
                    OverlayIoError::OverlaySeek(IoError::Os(22))
                } else {
                    OverlayIoError::BaseSeek(IoError::Os(22))
                },
            )
            &&& run.offset <= 0x7fff_ffff_ffff_ffff && !fits ==> {
                let why = if addr.0 >= mem.len() {
                    GuestMemoryError::InvalidGuestAddress(addr)
                } else {
                    GuestMemoryError::InvalidBackendAddress
                };
                &&& after == mem
                &&& e == Some(
                    if run.dirty {
                        OverlayIoError::OverlayReadTransfer(why)
                    } else {
                        OverlayIoError::BaseTransfer(why)
                    },
                )
            }
            &&& run.offset <= 0x7fff_ffff_ffff_ffff && fits ==> {
                let why = GuestMemoryError::IOError(IoError::UnexpectedEof);
                let moved = addr.0 <= j < addr.0 + run.len && run.offset + (j - addr.0)
                    < image.len();
                &&& after.len() == mem.len()
                &&& e is None <==> run.len == 0 || run.offset + run.len <= image.len()
                &&& e is Some ==> e == Some(
                    if run.dirty {
                        OverlayIoError::OverlayReadTransfer(why)
                    } else {
                        OverlayIoError::BaseTransfer(why)
                    },
                )
                &&& moved ==> after[j] == image[run.offset + (j - addr.0)]
                &&& 0 <= j < mem.len() && !moved ==> after[j] == mem[j]
            }
        }),
{
}

/// An overlay is refused exactly when it is not as large as its base.
pub proof fn law_sizes_must_match(base_size: u64, overlay_size: u64, r: Result<(), OverlayIoError>)
    requires
        call_ensures(check_sizes, (base_size, overlay_size), r),
    ensures
        r is Ok <==> base_size == overlay_size,
        r matches Err(e) ==> e == (OverlayIoError::SizeMismatch { base_size, overlay_size }),
{
}

/// The plan of a write copies a byte of the base exactly when the byte does not lie in the
/// write, but in the first or the last block of it, and that block is clean.
pub proof fn law_plan_copies_rest_of_blocks(
    bitmap: DiskBitmap,
    base_size: u64,
    offset: u64,
    count: u32,
    plan: WritePlan,
    i: int,
)
    requires
        call_ensures(plan_write, (&bitmap, base_size, offset, count), plan),
        bitmap.wf(),
        0 < count,
        0 <= i < base_size,
    ensures
        ({
            let bs = bitmap.granularity() as int;
            let (first, last) = (offset as int / bs, (offset + count - 1) / bs);
            &&& plan.head.offset <= i < plan.head.offset + plan.head.len <==> i / bs == first && i
                < offset && first < bitmap@.len() && !bitmap@[first]
            &&& plan.tail.offset <= i < plan.tail.offset + plan.tail.len <==> i / bs == last && i
                >= offset + count && last < bitmap@.len() && !bitmap@[last]
        }),
{
    bitmap.lemma_wf();
    law_kept_bytes(
        bitmap@,
        bitmap.granularity() as int,
        base_size as int,
        offset as int,
        count as int,
        i,
    );
}

} // verus!
