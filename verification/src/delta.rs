//! Delta files: the dirty blocks of an overlay in a checksummed container.
//!
//! A delta file costs as much as there are dirty blocks, not as much as the disk is
//! large. Integers are little-endian:
//!
//! ```text
//! [Header: 32 bytes]
//!   magic:        u64 = 0x4F564C5944454C54 ("OVLYDELT")
//!   version:      u32 = 1
//!   block_size:   u32
//!   total_blocks: u64
//!   dirty_count:  u64
//! [Bitmap section]
//!   bitmap_len:   u32
//!   bitmap_data:  [u8; bitmap_len]
//!   bitmap_crc:   u64
//! [Data section]
//!   For each dirty block (in index order):
//!     block_data: [u8; block_size]
//!   data_crc:     u64
//! ```
use vstd::prelude::*;
use vstd::slice::slice_subrange;

use crate::checksum::{crc64, crc64_of};
use crate::dirty_bitmap::{
    as_ints, count_dirty, dirty_indices, lemma_count_bounded, law_dirty_indices,
};
use crate::disk_bitmap::{
    block_dirty, deserialized, law_packed_bits, law_unpack_packed, packed, valid_block_size,
    DirtyBitmapError, DiskBitmap,
};
use crate::image::{image_write, read_image, write_image};
use crate::io_error::IoError;
use crate::le_bytes::{
    get_u32, get_u64, law_bytes_are_digits, law_bytes_are_weighted, le4, le8, lemma_le4, lemma_le8,
    lemma_le_len, push_u32, push_u64, u32_at, u64_at,
};

verus! {

/// "OVLYDELT".
pub const DELTA_MAGIC: u64 = 0x4F56_4C59_4445_4C54;

/// The only version there is.
pub const DELTA_VERSION: u32 = 1;

/// Bytes up to the bitmap: the header and the length of the bitmap.
pub const DELTA_PREFIX_LEN: usize = 36;

/// Statistics of a delta write or apply operation.
#[derive(Debug, Clone, Copy, PartialEq, Eq, Structural)]
pub struct DeltaStats {
    pub dirty_blocks: u64,
    pub bytes_written: u64,
    pub duration_us: u64,
}

/// Why a delta could not be written or applied.
#[derive(Debug, Clone, Copy, PartialEq, Eq, Structural)]
pub enum DeltaError {
    /// I/O error.
    Io(IoError),
    /// The file does not start with the magic number.
    InvalidMagic { expected: u64, actual: u64 },
    /// The file has a version that is not known.
    UnsupportedVersion(u32),
    /// The bitmap section is corrupt.
    BitmapCrcMismatch { expected: u64, computed: u64 },
    /// The data section is corrupt.
    DataCrcMismatch { expected: u64, computed: u64 },
    /// The header and the bitmap disagree on the number of dirty blocks.
    DirtyCountMismatch { header: u64, bitmap: u64 },
    /// The bitmap could not be deserialized.
    Bitmap(DirtyBitmapError),
    /// The dirty blocks are more than the disk holds.
    TooLarge { dirty_count: u64, block_size: u32 },
    /// The delta is one of a disk of another size. A size that 64 bits do not hold is
    /// given as the largest that they do.
    SizeMismatch { expected: u64, actual: u64 },
}

impl From<IoError> for DeltaError {
    fn from(e: IoError) -> (r: Self) {
        DeltaError::Io(e)
    }
}

impl vstd::std_specs::convert::FromSpecImpl<IoError> for DeltaError {
    open spec fn obeys_from_spec() -> bool {
        true
    }

    open spec fn from_spec(e: IoError) -> Self {
        DeltaError::Io(e)
    }
}

/// What precedes the bitmap in a delta file.
#[derive(Debug, Clone, Copy, PartialEq, Eq, Structural)]
pub struct DeltaHeader {
    pub block_size: u32,
    pub total_blocks: u64,
    pub dirty_count: u64,
    pub bitmap_len: u32,
}

// ---- writing: the format ----

/// The header and the bitmap section for `bits`, whose serialized form has the checksum
/// `bitmap_crc`.
pub open spec fn prologue_with(bits: Seq<bool>, block_size: u32, bitmap_crc: u64) -> Seq<u8> {
    le8(DELTA_MAGIC) + le4(DELTA_VERSION) + le4(block_size) + le8(bits.len() as u64) + le8(
        count_dirty(bits) as u64,
    ) + le4(packed(bits).len() as u32) + packed(bits) + le8(bitmap_crc)
}

/// The header and the bitmap section for `bits`.
pub open spec fn delta_prologue(bits: Seq<bool>, block_size: u32) -> Seq<u8> {
    prologue_with(bits, block_size, crc64_of(0, packed(bits)))
}

/// The blocks `indices` of `overlay`, one after the other.
pub open spec fn delta_data(overlay: Seq<u8>, indices: Seq<int>, block_size: int) -> Seq<u8>
    decreases indices.len(),
{
    if indices.len() == 0 {
        Seq::empty()
    } else {
        delta_data(overlay, indices.drop_last(), block_size) + overlay.subrange(
            indices.last() * block_size,
            (indices.last() + 1) * block_size,
        )
    }
}

/// What follows the bitmap section when the blocks are `data`.
pub open spec fn delta_data_section(data: Seq<u8>) -> Seq<u8> {
    data + le8(crc64_of(0, data))
}

/// The delta file for the dirty blocks `bits` of `overlay`.
pub open spec fn delta_file(overlay: Seq<u8>, bits: Seq<bool>, block_size: u32) -> Seq<u8> {
    delta_prologue(bits, block_size) + delta_data_section(
        delta_data(overlay, dirty_indices(bits), block_size as int),
    )
}

/// Every dirty block lies below the end of the 64-bit offsets.
pub open spec fn offsets_fit(bits: Seq<bool>, block_size: int) -> bool {
    forall|b: int| 0 <= b < bits.len() && #[trigger] bits[b] ==> (b + 1) * block_size <= u64::MAX
}

/// Every dirty block lies within `size` bytes.
pub open spec fn dirty_within(bits: Seq<bool>, block_size: int, size: int) -> bool {
    forall|b: int| 0 <= b < bits.len() && #[trigger] bits[b] ==> (b + 1) * block_size <= size
}

/// The stats of moving all dirty blocks of `bits`.
pub open spec fn delta_stats(bits: Seq<bool>, block_size: u32, duration_us: u64) -> DeltaStats {
    DeltaStats {
        dirty_blocks: count_dirty(bits) as u64,
        bytes_written: (count_dirty(bits) * block_size) as u64,
        duration_us,
    }
}

// ---- writing: the code ----

/// The header and the bitmap section of the delta file for `bitmap`, whose serialized
/// form is `bitmap_bytes` with the checksum `bitmap_crc`.
pub fn assemble_prologue(bitmap: &DiskBitmap, bitmap_bytes: &[u8], bitmap_crc: u64) -> (bytes: Vec<
    u8,
>)
    requires
        bitmap.wf(),
        bitmap_bytes@ == packed(bitmap@),
    ensures
        bytes@ == prologue_with(bitmap@, bitmap.granularity(), bitmap_crc),
{
    let mut bytes: Vec<u8> = Vec::new();
    push_u64(&mut bytes, DELTA_MAGIC);
    push_u32(&mut bytes, DELTA_VERSION);
    push_u32(&mut bytes, bitmap.block_size());
    push_u64(&mut bytes, bitmap.total_blocks());
    push_u64(&mut bytes, bitmap.dirty_count());
    push_u32(&mut bytes, bitmap_bytes.len() as u32);
    bytes.extend_from_slice(bitmap_bytes);
    push_u64(&mut bytes, bitmap_crc);
    assert(bytes@ =~= prologue_with(bitmap@, bitmap.granularity(), bitmap_crc));
    bytes
}

/// The header and the bitmap section of the delta file for `bitmap`.
pub fn encode_prologue(bitmap: &DiskBitmap) -> (bytes: Vec<u8>)
    requires
        bitmap.wf(),
    ensures
        bytes@ == delta_prologue(bitmap@, bitmap.granularity()),
{
    let bitmap_bytes = bitmap.serialize();
    let bitmap_crc = crc64(0, bitmap_bytes.as_slice());
    assemble_prologue(bitmap, bitmap_bytes.as_slice(), bitmap_crc)
}

/// A walk over the dirty blocks of a bitmap that sums up their checksum: the caller
/// moves each block between the overlay and the delta file, and hands it in.
pub struct DeltaBlocks {
    blocks: Vec<usize>,
    block_size: u32,
    next: usize,
    crc: u64,
    bits: Ghost<Seq<bool>>,
    data: Ghost<Seq<u8>>,
}

impl DeltaBlocks {
    /// The bitmap that is walked.
    pub closed spec fn bits(&self) -> Seq<bool> {
        self.bits@
    }

    /// Bytes per block.
    pub closed spec fn granularity(&self) -> u32 {
        self.block_size
    }

    /// How many blocks were handed in.
    pub closed spec fn done(&self) -> int {
        self.next as int
    }

    /// The blocks that were handed in, one after the other.
    pub closed spec fn data(&self) -> Seq<u8> {
        self.data@
    }

    /// The checksum is that of the blocks handed in.
    pub closed spec fn wf(&self) -> bool {
        &&& as_ints(self.blocks@) == dirty_indices(self.bits@)
        &&& self.block_size > 0
        &&& offsets_fit(self.bits@, self.block_size as int)
        &&& self.next <= self.blocks@.len()
        &&& self.crc == crc64_of(0, self.data@)
        &&& self.data@.len() == self.next * self.block_size
    }

    /// A walk over the dirty blocks of `bitmap`, at its start.
    pub fn new(bitmap: &DiskBitmap) -> (walk: Self)
        requires
            bitmap.wf(),
            offsets_fit(bitmap@, bitmap.granularity() as int),
        ensures
            walk.wf(),
            walk.bits() == bitmap@,
            walk.granularity() == bitmap.granularity(),
            walk.done() == 0,
            walk.data() == Seq::<u8>::empty(),
    {
        proof {
            bitmap.lemma_wf();
        }
        let nothing: Vec<u8> = Vec::new();
        let crc = crc64(0, nothing.as_slice());
        assert(nothing@ =~= Seq::<u8>::empty());
        DeltaBlocks {
            blocks: bitmap.iter_dirty(),
            block_size: bitmap.block_size(),
            next: 0,
            crc,
            bits: Ghost(bitmap@),
            data: Ghost(Seq::empty()),
        }
    }

    /// The offset on the disk of the block to hand in next, if there is one.
    pub fn next_offset(&self) -> (offset: Option<u64>)
        requires
            self.wf(),
        ensures
            match offset {
                Some(offset) => {
                    &&& self.done() < dirty_indices(self.bits()).len()
                    &&& offset == dirty_indices(self.bits())[self.done()] * self.granularity()
                    &&& offset + self.granularity() <= u64::MAX
                },
                None => self.done() == dirty_indices(self.bits()).len(),
            },
    {
        if self.next < self.blocks.len() {
            let block = self.blocks[self.next] as u64;
            proof {
                law_dirty_indices(self.bits@);
                assert(as_ints(self.blocks@)[self.next as int] == block);
                assert(self.bits@[block as int]);
                let bs = self.block_size as int;
                assert((block + 1) * bs == block * bs + bs) by (nonlinear_arith);
                assert(block * bs >= 0) by (nonlinear_arith)
                    requires
                        bs >= 0,
                        block >= 0,
                ;
            }
            Some(block * self.block_size as u64)
        } else {
            None
        }
    }

    /// Hand in the next block.
    pub fn push_block(&mut self, block: &[u8])
        requires
            old(self).wf(),
            old(self).done() < dirty_indices(old(self).bits()).len(),
            block@.len() == old(self).granularity(),
        ensures
            final(self).wf(),
            final(self).bits() == old(self).bits(),
            final(self).granularity() == old(self).granularity(),
            final(self).done() == old(self).done() + 1,
            final(self).data() == old(self).data() + block@,
    {
        assert(self.next < self.blocks.len());
        self.crc = crc64(self.crc, block);
        self.data = Ghost(self.data@ + block@);
        proof {
            let n = self.next as int;
            let bs = self.block_size as int;
            assert((n + 1) * bs == n * bs + bs) by (nonlinear_arith);
        }
        self.next += 1;
    }

    /// Bytes that were handed in.
    fn bytes_done(&self) -> (n: u64)
        requires
            self.wf(),
        ensures
            n == self.done() * self.granularity(),
    {
        proof {
            law_dirty_indices(self.bits@);
            lemma_moved_bytes_fit(self.bits@, self.block_size as int, self.next as int);
        }
        self.next as u64 * self.block_size as u64
    }

    /// The end of the delta file, once all blocks were handed in, and the stats of
    /// having written it in `duration_us`.
    pub fn finish(&self, duration_us: u64) -> (r: (Vec<u8>, DeltaStats))
        requires
            self.wf(),
            self.done() == dirty_indices(self.bits()).len(),
        ensures
            r.0@ == le8(crc64_of(0, self.data())),
            r.1 == delta_stats(self.bits(), self.granularity(), duration_us),
    {
        let mut trailer: Vec<u8> = Vec::new();
        push_u64(&mut trailer, self.crc);
        assert(trailer@ =~= le8(crc64_of(0, self.data())));
        proof {
            law_dirty_indices(self.bits@);
        }
        let stats = DeltaStats {
            dirty_blocks: self.next as u64,
            bytes_written: self.bytes_done(),
            duration_us,
        };
        (trailer, stats)
    }

    /// Hold the blocks, once all were handed in, against `trailer`, the end of the
    /// delta file.
    pub fn check(&self, trailer: &[u8], duration_us: u64) -> (r: Result<DeltaStats, DeltaError>)
        requires
            self.wf(),
            self.done() == dirty_indices(self.bits()).len(),
        ensures
            r == match checked_data(self.data(), trailer@) {
                Ok(_) => Ok(delta_stats(self.bits(), self.granularity(), duration_us)),
                Err(e) => Err(e),
            },
    {
        judge_trailer(trailer, self.crc)?;
        proof {
            law_dirty_indices(self.bits@);
        }
        Ok(
            DeltaStats {
                dirty_blocks: self.next as u64,
                bytes_written: self.bytes_done(),
                duration_us,
            },
        )
    }
}

/// The bytes moved by the first `n` dirty blocks fit in 64 bits.
proof fn lemma_moved_bytes_fit(bits: Seq<bool>, block_size: int, n: int)
    requires
        offsets_fit(bits, block_size),
        block_size > 0,
        0 <= n <= dirty_indices(bits).len(),
    ensures
        0 <= n * block_size <= u64::MAX,
{
    let idx = dirty_indices(bits);
    law_dirty_indices(bits);
    if n > 0 {
        lemma_ascending_at_least(idx, n - 1);
        let b = idx[n - 1];
        assert(bits[b]);
        assert(0 <= n * block_size <= (b + 1) * block_size) by (nonlinear_arith)
            requires
                block_size > 0,
                0 < n <= b + 1,
        ;
    }
}

/// Entry `k` of a strictly ascending sequence of naturals is at least `k`.
proof fn lemma_ascending_at_least(s: Seq<int>, k: int)
    requires
        0 <= k < s.len(),
        forall|i: int, j: int| 0 <= i < j < s.len() ==> s[i] < s[j],
        forall|i: int| 0 <= i < s.len() ==> 0 <= #[trigger] s[i],
    ensures
        k <= s[k],
    decreases k,
{
    if k > 0 {
        lemma_ascending_at_least(s, k - 1);
        assert(s[k - 1] < s[k]);
    }
}

/// The checksum at the end of a delta file must be `computed`.
pub open spec fn judged_trailer(trailer: Seq<u8>, computed: u64) -> Result<(), DeltaError> {
    if trailer.len() < 8 {
        Err(DeltaError::Io(IoError::UnexpectedEof))
    } else if u64_at(trailer, 0) != computed {
        Err(DeltaError::DataCrcMismatch { expected: u64_at(trailer, 0), computed })
    } else {
        Ok(())
    }
}

/// The checksum that follows `data` in a delta file must be its own.
pub open spec fn checked_data(data: Seq<u8>, trailer: Seq<u8>) -> Result<(), DeltaError> {
    judged_trailer(trailer, crc64_of(0, data))
}

/// Hold `trailer`, the end of a delta file, against the checksum of its blocks.
pub fn judge_trailer(trailer: &[u8], computed: u64) -> (r: Result<(), DeltaError>)
    ensures
        r == judged_trailer(trailer@, computed),
{
    let stored = read_u64(trailer, 0)?;
    if stored != computed {
        return Err(DeltaError::DataCrcMismatch { expected: stored, computed });
    }
    Ok(())
}

/// Write the delta file for the dirty blocks of `overlay`. The stats leave the
/// duration to the caller that does the I/O.
pub fn write_delta(overlay: &[u8], bitmap: &DiskBitmap) -> (r: Result<
    (Vec<u8>, DeltaStats),
    DeltaError,
>)
    requires
        bitmap.wf(),
        offsets_fit(bitmap@, bitmap.granularity() as int),
    ensures
        match r {
            Ok((file, stats)) => {
                &&& dirty_within(bitmap@, bitmap.granularity() as int, overlay@.len() as int)
                &&& file@ == delta_file(overlay@, bitmap@, bitmap.granularity())
                &&& stats == delta_stats(bitmap@, bitmap.granularity(), 0)
            },
            Err(e) => {
                &&& !dirty_within(bitmap@, bitmap.granularity() as int, overlay@.len() as int)
                &&& e == DeltaError::Io(IoError::UnexpectedEof)
            },
        },
{
    let mut file = encode_prologue(bitmap);
    let mut walk = DeltaBlocks::new(bitmap);
    let block_size = bitmap.block_size();
    let ghost bs = block_size as int;
    let ghost idx = dirty_indices(bitmap@);
    let ghost prologue = file@;
    proof {
        law_dirty_indices(bitmap@);
        assert(idx.take(0) =~= Seq::<int>::empty());
        assert(file@ =~= prologue + walk.data());
    }
    let mut more = walk.next_offset();
    while more.is_some()
        invariant
            bitmap.wf(),
            walk.wf(),
            walk.bits() == bitmap@,
            walk.granularity() == bitmap.granularity() == block_size,
            bs == block_size,
            idx == dirty_indices(bitmap@),
            0 <= walk.done() <= idx.len(),
            more is Some ==> walk.done() < idx.len() && more->0 == idx[walk.done()] * bs && more->0
                + bs <= u64::MAX,
            more is None ==> walk.done() == idx.len(),
            walk.data() == delta_data(overlay@, idx.take(walk.done()), bs),
            forall|k: int| 0 <= k < walk.done() ==> (#[trigger] idx[k] + 1) * bs <= overlay@.len(),
            forall|k: int| 0 <= k < idx.len() ==> 0 <= #[trigger] idx[k] < bitmap@.len()
                && bitmap@[idx[k]],
            file@ == prologue + walk.data(),
        decreases idx.len() - walk.done(),
    {
        let offset = more.unwrap();
        let ghost k = walk.done();
        assert((idx[k] + 1) * bs == idx[k] * bs + bs) by (nonlinear_arith);
        let block = match read_image(overlay, offset, block_size as u64) {
            Ok(block) => block,
            Err(e) => {
                assert(bitmap@[idx[k]]);
                return Err(DeltaError::from(e));
            },
        };
        walk.push_block(block.as_slice());
        file.extend_from_slice(block.as_slice());
        proof {
            assert(idx.take(k + 1).drop_last() =~= idx.take(k));
            assert(file@ =~= prologue + walk.data());
        }
        more = walk.next_offset();
    }
    let (trailer, stats) = walk.finish(0);
    file.extend_from_slice(trailer.as_slice());
    proof {
        assert(idx.take(idx.len() as int) =~= idx);
        assert(file@ =~= delta_file(overlay@, bitmap@, bitmap.granularity()));
        assert forall|b: int| 0 <= b < bitmap@.len() && #[trigger] bitmap@[b] implies (b + 1) * bs
            <= overlay@.len() by {
            law_dirty_indices(bitmap@);
            let k = idx.index_of(b);
            assert(idx[k] == b);
        }
    }
    Ok((file, stats))
}

/// The integer at `pos`, or the end of the file.
pub fn read_u64(bytes: &[u8], pos: usize) -> (r: Result<u64, DeltaError>)
    ensures
        r == if pos + 8 <= bytes@.len() {
            Ok(u64_at(bytes@, pos as int))
        } else {
            Err(DeltaError::Io(IoError::UnexpectedEof))
        },
{
    if bytes.len() >= 8 && pos <= bytes.len() - 8 {
        Ok(get_u64(bytes, pos))
    } else {
        Err(DeltaError::from(IoError::UnexpectedEof))
    }
}

/// The integer at `pos`, or the end of the file.
pub fn read_u32(bytes: &[u8], pos: usize) -> (r: Result<u32, DeltaError>)
    ensures
        r == if pos + 4 <= bytes@.len() {
            Ok(u32_at(bytes@, pos as int))
        } else {
            Err(DeltaError::Io(IoError::UnexpectedEof))
        },
{
    if bytes.len() >= 4 && pos <= bytes.len() - 4 {
        Ok(get_u32(bytes, pos))
    } else {
        Err(DeltaError::from(IoError::UnexpectedEof))
    }
}

// ---- applying: the format ----

/// The dirty blocks take more bytes than the disk has.
pub open spec fn delta_too_large(block_size: u32, total_blocks: u64, dirty_count: u64) -> bool {
    dirty_count * block_size > total_blocks * block_size
}

/// What the file `b`, or its first bytes, holds before the bitmap.
pub open spec fn parsed_header(b: Seq<u8>) -> Result<DeltaHeader, DeltaError> {
    if b.len() < 8 {
        Err(DeltaError::Io(IoError::UnexpectedEof))
    } else if u64_at(b, 0) != DELTA_MAGIC {
        Err(DeltaError::InvalidMagic { expected: DELTA_MAGIC, actual: u64_at(b, 0) })
    } else if b.len() < 12 {
        Err(DeltaError::Io(IoError::UnexpectedEof))
    } else if u32_at(b, 8) != DELTA_VERSION {
        Err(DeltaError::UnsupportedVersion(u32_at(b, 8)))
    } else if b.len() < 32 {
        Err(DeltaError::Io(IoError::UnexpectedEof))
    } else if delta_too_large(u32_at(b, 12), u64_at(b, 16), u64_at(b, 24)) {
        Err(DeltaError::TooLarge { dirty_count: u64_at(b, 24), block_size: u32_at(b, 12) })
    } else if b.len() < 36 {
        Err(DeltaError::Io(IoError::UnexpectedEof))
    } else {
        Ok(
            DeltaHeader {
                block_size: u32_at(b, 12),
                total_blocks: u64_at(b, 16),
                dirty_count: u64_at(b, 24),
                bitmap_len: u32_at(b, 32),
            },
        )
    }
}

/// The bitmap in `bytes`, stored with the checksum `stored` and found to have the
/// checksum `computed`.
pub open spec fn judged_bitmap(
    h: DeltaHeader,
    bytes: Seq<u8>,
    stored: u64,
    computed: u64,
) -> Result<Seq<bool>, DeltaError> {
    if stored != computed {
        Err(DeltaError::BitmapCrcMismatch { expected: stored, computed })
    } else {
        match deserialized(bytes, h.block_size, h.total_blocks) {
            Err(e) => Err(DeltaError::Bitmap(e)),
            Ok(bits) => if count_dirty(bits) != h.dirty_count {
                Err(
                    DeltaError::DirtyCountMismatch {
                        header: h.dirty_count,
                        bitmap: count_dirty(bits) as u64,
                    },
                )
            } else {
                Ok(bits)
            },
        }
    }
}

/// The bitmap in `section`, what follows the header in the file.
pub open spec fn parsed_bitmap(h: DeltaHeader, section: Seq<u8>) -> Result<Seq<bool>, DeltaError> {
    let n = h.bitmap_len as int;
    if section.len() < n + 8 {
        Err(DeltaError::Io(IoError::UnexpectedEof))
    } else {
        judged_bitmap(h, section.take(n), u64_at(section, n), crc64_of(0, section.take(n)))
    }
}

/// The size of the disk of the delta, held to 64 bits.
pub open spec fn disk_size(h: DeltaHeader) -> u64 {
    if h.total_blocks * h.block_size > u64::MAX {
        u64::MAX
    } else {
        (h.total_blocks * h.block_size) as u64
    }
}

/// An image of `size` bytes must be as large as the disk of the delta.
pub open spec fn judged_size(h: DeltaHeader, size: int) -> Result<(), DeltaError> {
    if h.total_blocks * h.block_size != size {
        Err(DeltaError::SizeMismatch { expected: disk_size(h), actual: size as u64 })
    } else {
        Ok(())
    }
}

/// `image` after the blocks of `data` from number `k` on were written at the places
/// that `indices` gives, and what stopped that.
pub open spec fn replayed(
    image: Seq<u8>,
    data: Seq<u8>,
    indices: Seq<int>,
    block_size: int,
    k: int,
) -> (Seq<u8>, Option<IoError>)
    decreases indices.len() - k,
{
    if k >= indices.len() {
        (image, None)
    } else if data.len() < (k + 1) * block_size {
        (image, Some(IoError::UnexpectedEof))
    } else if (indices[k] + 1) * block_size > isize::MAX {
        (image, Some(IoError::FileTooLarge))
    } else {
        replayed(
            image_write(
                image,
                indices[k] * block_size,
                data.subrange(k * block_size, (k + 1) * block_size),
            ),
            data,
            indices,
            block_size,
            k + 1,
        )
    }
}

/// `image` after the data section `section` was applied to it, and the verdict on
/// the section. The blocks are written before their checksum is known.
pub open spec fn applied_data(
    image: Seq<u8>,
    section: Seq<u8>,
    bits: Seq<bool>,
    block_size: int,
) -> (Seq<u8>, Result<(), DeltaError>) {
    let n = dirty_indices(bits).len() * block_size;
    match replayed(image, section, dirty_indices(bits), block_size, 0) {
        (image, Some(e)) => (image, Err(DeltaError::Io(e))),
        (image, None) => (image, checked_data(section.take(n), section.skip(n))),
    }
}

/// `image` after the delta file `file` was applied to it, and the bitmap of the file
/// or what is wrong with it. Nothing is written before the bitmap is known to be good
/// and the image to be as large as the disk of the delta.
pub open spec fn applied(image: Seq<u8>, file: Seq<u8>) -> (Seq<u8>, Result<Seq<bool>, DeltaError>) {
    match parsed_header(file) {
        Err(e) => (image, Err(e)),
        Ok(h) => match parsed_bitmap(h, file.skip(36)) {
            Err(e) => (image, Err(e)),
            Ok(bits) => match judged_size(h, image.len() as int) {
                Err(e) => (image, Err(e)),
                Ok(_) => match applied_data(
                    image,
                    file.skip(36 + h.bitmap_len + 8),
                    bits,
                    h.block_size as int,
                ) {
                    (image, Err(e)) => (image, Err(e)),
                    (image, Ok(_)) => (image, Ok(bits)),
                },
            },
        },
    }
}

// ---- applying: the code ----

/// Read the header from the first bytes of a delta file.
pub fn read_header(prefix: &[u8]) -> (r: Result<DeltaHeader, DeltaError>)
    ensures
        r == parsed_header(prefix@),
{
    let magic = read_u64(prefix, 0)?;
    if magic != DELTA_MAGIC {
        return Err(DeltaError::InvalidMagic { expected: DELTA_MAGIC, actual: magic });
    }
    let version = read_u32(prefix, 8)?;
    if version != DELTA_VERSION {
        return Err(DeltaError::UnsupportedVersion(version));
    }
    let block_size = read_u32(prefix, 12)?;
    let total_blocks = read_u64(prefix, 16)?;
    let dirty_count = read_u64(prefix, 24)?;
    proof {
        assert(0 <= total_blocks * block_size <= u64::MAX * u32::MAX) by (nonlinear_arith)
            requires
                0 <= total_blocks <= u64::MAX,
                0 <= block_size <= u32::MAX,
        ;
        assert(0 <= dirty_count * block_size <= u64::MAX * u32::MAX) by (nonlinear_arith)
            requires
                0 <= dirty_count <= u64::MAX,
                0 <= block_size <= u32::MAX,
        ;
    }
    let max_data_size: u128 = total_blocks as u128 * block_size as u128;
    let delta_data_size: u128 = dirty_count as u128 * block_size as u128;
    if delta_data_size > max_data_size {
        return Err(DeltaError::TooLarge { dirty_count, block_size });
    }
    let bitmap_len = read_u32(prefix, 32)?;
    Ok(DeltaHeader { block_size, total_blocks, dirty_count, bitmap_len })
}

/// Read the bitmap from what follows the header of a delta file.
pub fn read_bitmap(header: &DeltaHeader, section: &[u8]) -> (r: Result<DiskBitmap, DeltaError>)
    ensures
        match r {
            Ok(bitmap) => {
                &&& parsed_bitmap(*header, section@) == Ok::<_, DeltaError>(bitmap@)
                &&& bitmap.wf()
                &&& bitmap.granularity() == header.block_size
                &&& bitmap@.len() == header.total_blocks
            },
            Err(e) => parsed_bitmap(*header, section@) == Err::<Seq<bool>, _>(e),
        },
{
    let bitmap_bytes = match read_image(section, 0, header.bitmap_len as u64) {
        Ok(bytes) => bytes,
        Err(e) => {
            return Err(DeltaError::from(e));
        },
    };
    assert(bitmap_bytes@ =~= section@.take(header.bitmap_len as int));
    let stored = read_u64(section, header.bitmap_len as usize)?;
    let computed = crc64(0, bitmap_bytes.as_slice());
    judge_bitmap(header, bitmap_bytes.as_slice(), stored, computed)
}

/// Make a bitmap of `bytes`, stored with the checksum `stored` and found to have the
/// checksum `computed`.
pub fn judge_bitmap(header: &DeltaHeader, bytes: &[u8], stored: u64, computed: u64) -> (r: Result<
    DiskBitmap,
    DeltaError,
>)
    ensures
        match r {
            Ok(bitmap) => {
                &&& judged_bitmap(*header, bytes@, stored, computed) == Ok::<_, DeltaError>(bitmap@)
                &&& bitmap.wf()
                &&& bitmap.granularity() == header.block_size
                &&& bitmap@.len() == header.total_blocks
            },
            Err(e) => judged_bitmap(*header, bytes@, stored, computed) == Err::<Seq<bool>, _>(e),
        },
{
    if stored != computed {
        return Err(DeltaError::BitmapCrcMismatch { expected: stored, computed });
    }
    let bitmap = match DiskBitmap::deserialize(bytes, header.block_size, header.total_blocks) {
        Ok(bitmap) => bitmap,
        Err(e) => {
            return Err(DeltaError::Bitmap(e));
        },
    };
    let dirty_count = bitmap.dirty_count();
    if dirty_count != header.dirty_count {
        return Err(
            DeltaError::DirtyCountMismatch { header: header.dirty_count, bitmap: dirty_count },
        );
    }
    Ok(bitmap)
}

/// Hold an image of `size` bytes against the disk of the delta.
pub fn judge_size(header: &DeltaHeader, size: u64) -> (r: Result<(), DeltaError>)
    ensures
        r == judged_size(*header, size as int),
{
    proof {
        let (n, bs) = (header.total_blocks as int, header.block_size as int);
        assert(0 <= n * bs <= u64::MAX * u32::MAX) by (nonlinear_arith)
            requires
                0 <= n <= u64::MAX,
                0 <= bs <= u32::MAX,
        ;
    }
    let disk: u128 = header.total_blocks as u128 * header.block_size as u128;
    if disk != size as u128 {
        let expected: u64 = if disk > u64::MAX as u128 {
            u64::MAX
        } else {
            disk as u64
        };
        return Err(DeltaError::SizeMismatch { expected, actual: size });
    }
    Ok(())
}

/// On a disk that 64-bit offsets reach, the offsets of all dirty blocks fit.
pub proof fn lemma_small_disk_fits(bits: Seq<bool>, block_size: int)
    requires
        block_size >= 0,
        bits.len() * block_size <= u64::MAX,
    ensures
        offsets_fit(bits, block_size),
{
    assert forall|b: int| 0 <= b < bits.len() && #[trigger] bits[b] implies (b + 1) * block_size
        <= u64::MAX by {
        let n = bits.len() as int;
        assert((b + 1) * block_size <= n * block_size) by (nonlinear_arith)
            requires
                b + 1 <= n,
                block_size >= 0,
        ;
    }
}

/// Write the blocks of the data section `section` to `overlay`, where `bitmap` has
/// them, and check them.
fn apply_blocks(overlay: &mut Vec<u8>, section: &[u8], bitmap: &DiskBitmap) -> (r: Result<
    DeltaStats,
    DeltaError,
>)
    requires
        bitmap.wf(),
        offsets_fit(bitmap@, bitmap.granularity() as int),
    ensures
        ({
            let want = applied_data(old(overlay)@, section@, bitmap@, bitmap.granularity() as int);
            &&& final(overlay)@ == want.0
            &&& r == match want.1 {
                Ok(_) => Ok(delta_stats(bitmap@, bitmap.granularity(), 0)),
                Err(e) => Err(e),
            }
        }),
{
    let mut walk = DeltaBlocks::new(bitmap);
    let block_size = bitmap.block_size() as usize;
    let ghost bs = block_size as int;
    let ghost idx = dirty_indices(bitmap@);
    let mut pos: usize = 0;
    proof {
        assert(section@.take(0) =~= Seq::<u8>::empty());
        bitmap.lemma_wf();
    }
    let mut more = walk.next_offset();
    while more.is_some()
        invariant
            bitmap.wf(),
            walk.wf(),
            walk.bits() == bitmap@,
            walk.granularity() == bitmap.granularity() == block_size,
            bs == block_size,
            idx == dirty_indices(bitmap@),
            0 <= walk.done() <= idx.len(),
            more is Some ==> walk.done() < idx.len() && more->0 == idx[walk.done()] * bs && more->0
                + bs <= u64::MAX,
            more is None ==> walk.done() == idx.len(),
            pos == walk.done() * bs,
            pos <= section.len(),
            walk.data() == section@.take(pos as int),
            replayed(old(overlay)@, section@, idx, bs, 0) == replayed(
                overlay@,
                section@,
                idx,
                bs,
                walk.done(),
            ),
        decreases idx.len() - walk.done(),
    {
        let offset = more.unwrap();
        let ghost k = walk.done();
        proof {
            let b = idx[k];
            assert((b + 1) * bs == b * bs + bs) by (nonlinear_arith);
            assert((k + 1) * bs == k * bs + bs) by (nonlinear_arith);
        }
        let block = match read_image(section, pos as u64, block_size as u64) {
            Ok(block) => block,
            Err(e) => {
                return Err(DeltaError::from(e));
            },
        };
        walk.push_block(block.as_slice());
        match write_image(overlay, offset, block.as_slice()) {
            Ok(_) => {},
            Err(e) => {
                return Err(DeltaError::from(e));
            },
        }
        assert(section@.take(pos as int) + block@ =~= section@.take(pos + bs));
        pos += block_size;
        more = walk.next_offset();
    }
    walk.check(slice_subrange(section, pos, section.len()), 0)
}

/// Apply the delta file `delta` to `overlay`, and give back its bitmap. A file that
/// is bad up to its bitmap, or that is for a disk of another size, leaves the overlay
/// as it is; the blocks that precede a fault in the data section are written. The stats
/// leave the duration to the caller that does the I/O.
pub fn apply_delta(overlay: &mut Vec<u8>, delta: &[u8]) -> (r: Result<
    (DiskBitmap, DeltaStats),
    DeltaError,
>)
    ensures
        final(overlay)@ == applied(old(overlay)@, delta@).0,
        match r {
            Ok((bitmap, stats)) => {
                &&& applied(old(overlay)@, delta@).1 == Ok::<_, DeltaError>(bitmap@)
                &&& bitmap.wf()
                &&& bitmap.granularity() == u32_at(delta@, 12)
                &&& stats == delta_stats(bitmap@, bitmap.granularity(), 0)
            },
            Err(e) => applied(old(overlay)@, delta@).1 == Err::<Seq<bool>, _>(e),
        },
{
    let header = read_header(delta)?;
    let section = slice_subrange(delta, DELTA_PREFIX_LEN, delta.len());
    assert(section@ =~= delta@.skip(36));
    let bitmap = read_bitmap(&header, section)?;
    judge_size(&header, overlay.len() as u64)?;
    proof {
        lemma_small_disk_fits(bitmap@, bitmap.granularity() as int);
    }
    let data_start = header.bitmap_len as usize + 8;
    let data = slice_subrange(section, data_start, section.len());
    assert(data@ =~= delta@.skip(36 + header.bitmap_len + 8));
    let stats = apply_blocks(overlay, data, &bitmap)?;
    Ok((bitmap, stats))
}

// ---- what is written can be applied ----

/// Where the blocks `indices` end.
spec fn blocks_end(indices: Seq<int>, block_size: int) -> int {
    if indices.len() == 0 {
        0
    } else {
        (indices.last() + 1) * block_size
    }
}

/// `image` with the dirty blocks of `overlay` in place of its own.
pub open spec fn merged(image: Seq<u8>, overlay: Seq<u8>, bits: Seq<bool>, block_size: int) -> Seq<
    u8,
> {
    Seq::new(
        image.len(),
        |i: int|
            if block_dirty(bits, i / block_size) {
                overlay[i]
            } else {
                image[i]
            },
    )
}

/// Block `k` of the data section is the `k`th dirty block.
proof fn lemma_delta_data(overlay: Seq<u8>, indices: Seq<int>, block_size: int, k: int)
    requires
        block_size > 0,
        forall|j: int|
            0 <= j < indices.len() ==> 0 <= #[trigger] indices[j] && (indices[j] + 1) * block_size
                <= overlay.len(),
    ensures
        delta_data(overlay, indices, block_size).len() == indices.len() * block_size,
        0 <= k < indices.len() ==> delta_data(overlay, indices, block_size).subrange(
            k * block_size,
            (k + 1) * block_size,
        ) == overlay.subrange(indices[k] * block_size, (indices[k] + 1) * block_size),
    decreases indices.len(),
{
    let n = indices.len() as int;
    let all = delta_data(overlay, indices, block_size);
    if n == 0 {
        assert(n * block_size == 0) by (nonlinear_arith)
            requires
                n == 0,
        ;
    } else {
        let before = delta_data(overlay, indices.drop_last(), block_size);
        let b = indices.last();
        lemma_delta_data(overlay, indices.drop_last(), block_size, k);
        assert(indices[n - 1] == b);
        assert(n * block_size == (n - 1) * block_size + block_size) by (nonlinear_arith);
        assert((b + 1) * block_size == b * block_size + block_size) by (nonlinear_arith);
        assert(0 <= b * block_size) by (nonlinear_arith)
            requires
                0 <= b,
                0 < block_size,
        ;
        if 0 <= k < n {
            assert((k + 1) * block_size == k * block_size + block_size) by (nonlinear_arith);
            assert(0 <= k * block_size) by (nonlinear_arith)
                requires
                    0 <= k,
                    0 < block_size,
            ;
            if k < n - 1 {
                assert((k + 1) * block_size <= (n - 1) * block_size) by (nonlinear_arith)
                    requires
                        k + 1 <= n - 1,
                        0 < block_size,
                ;
                assert(all.subrange(k * block_size, (k + 1) * block_size) =~= before.subrange(
                    k * block_size,
                    (k + 1) * block_size,
                ));
            } else {
                assert(all.subrange(k * block_size, (k + 1) * block_size) =~= overlay.subrange(
                    b * block_size,
                    (b + 1) * block_size,
                ));
            }
        }
    }
}

/// `b` is one of `indices` from number `k` on.
spec fn from_number(indices: Seq<int>, k: int, b: int) -> bool {
    exists|j: int| k <= j < indices.len() && #[trigger] indices[j] == b
}

/// What replaying the blocks from number `k` on leaves.
proof fn lemma_replayed(
    image: Seq<u8>,
    overlay: Seq<u8>,
    data: Seq<u8>,
    indices: Seq<int>,
    block_size: int,
    k: int,
)
    requires
        block_size > 0,
        0 <= k <= indices.len(),
        forall|i: int, j: int| 0 <= i < j < indices.len() ==> indices[i] < indices[j],
        forall|j: int|
            0 <= j < indices.len() ==> 0 <= #[trigger] indices[j] && (indices[j] + 1) * block_size
                <= overlay.len() && (indices[j] + 1) * block_size <= isize::MAX,
        delta_data(overlay, indices, block_size).is_prefix_of(data),
    ensures
        replayed(image, data, indices, block_size, k).1 is None,
        ({
            let r = replayed(image, data, indices, block_size, k).0;
            let end = blocks_end(indices, block_size);
            &&& r.len() == if k < indices.len() && end > image.len() {
                end
            } else {
                image.len() as int
            }
            &&& forall|i: int|
                0 <= i < r.len() ==> #[trigger] r[i] == if from_number(indices, k, i / block_size) {
                    overlay[i]
                } else if i < image.len() {
                    image[i]
                } else {
                    0
                }
        }),
    decreases indices.len() - k,
{
    if k < indices.len() {
        let all = delta_data(overlay, indices, block_size);
        let b = indices[k];
        let n = indices.len() as int;
        lemma_delta_data(overlay, indices, block_size, k);
        assert((k + 1) * block_size <= n * block_size) by (nonlinear_arith)
            requires
                k + 1 <= n,
                0 < block_size,
        ;
        assert((k + 1) * block_size == k * block_size + block_size) by (nonlinear_arith);
        assert((b + 1) * block_size == b * block_size + block_size) by (nonlinear_arith);
        assert(0 <= k * block_size && 0 <= b * block_size) by (nonlinear_arith)
            requires
                0 <= k,
                0 <= b,
                0 < block_size,
        ;
        let block = overlay.subrange(b * block_size, (b + 1) * block_size);
        assert(data.subrange(k * block_size, (k + 1) * block_size) =~= all.subrange(
            k * block_size,
            (k + 1) * block_size,
        ));
        let next = image_write(image, b * block_size, block);
        lemma_replayed(next, overlay, data, indices, block_size, k + 1);
        let last = indices.last();
        assert(last == indices[n - 1]);
        assert(b <= last);
        assert((b + 1) * block_size <= (last + 1) * block_size) by (nonlinear_arith)
            requires
                b <= last,
                0 < block_size,
        ;
        let r = replayed(image, data, indices, block_size, k).0;
        assert forall|i: int| 0 <= i < r.len() implies #[trigger] r[i] == if from_number(
            indices,
            k,
            i / block_size,
        ) {
            overlay[i]
        } else if i < image.len() {
            image[i]
        } else {
            0
        } by {
            let at = i / block_size;
            assert(at == b <==> b * block_size <= i < (b + 1) * block_size) by (nonlinear_arith)
                requires
                    0 < block_size,
                    at == i / block_size,
            ;
            if from_number(indices, k, at) && !from_number(indices, k + 1, at) {
                let j = choose|j: int| k <= j < indices.len() && #[trigger] indices[j] == at;
                assert(j == k);
            }
        }
    }
}

/// Where the parts of a delta file stand.
proof fn lemma_parts(
    magic: Seq<u8>,
    version: Seq<u8>,
    block_size: Seq<u8>,
    total: Seq<u8>,
    dirty: Seq<u8>,
    len: Seq<u8>,
    bitmap: Seq<u8>,
    crc: Seq<u8>,
    rest: Seq<u8>,
)
    requires
        magic.len() == 8,
        version.len() == 4,
        block_size.len() == 4,
        total.len() == 8,
        dirty.len() == 8,
        len.len() == 4,
        crc.len() == 8,
    ensures
        ({
            let file = (magic + version + block_size + total + dirty + len + bitmap + crc) + rest;
            let section = file.skip(36);
            let n = bitmap.len() as int;
            &&& file.len() == 36 + n + 8 + rest.len()
            &&& file.subrange(0, 8) == magic
            &&& file.subrange(8, 12) == version
            &&& file.subrange(12, 16) == block_size
            &&& file.subrange(16, 24) == total
            &&& file.subrange(24, 32) == dirty
            &&& file.subrange(32, 36) == len
            &&& section.take(n) == bitmap
            &&& section.subrange(n, n + 8) == crc
            &&& file.skip(36 + n + 8) == rest
        }),
{
    let file = (magic + version + block_size + total + dirty + len + bitmap + crc) + rest;
    let section = file.skip(36);
    let n = bitmap.len() as int;
    assert(file.subrange(0, 8) =~= magic);
    assert(file.subrange(8, 12) =~= version);
    assert(file.subrange(12, 16) =~= block_size);
    assert(file.subrange(16, 24) =~= total);
    assert(file.subrange(24, 32) =~= dirty);
    assert(file.subrange(32, 36) =~= len);
    assert(section.take(n) =~= bitmap);
    assert(section.subrange(n, n + 8) =~= crc);
    assert(file.skip(36 + n + 8) =~= rest);
}

/// The file for `bits` parses to `bits`.
proof fn lemma_parsed_prologue(bits: Seq<bool>, block_size: u32, rest: Seq<u8>)
    requires
        valid_block_size(block_size),
        1 <= bits.len() <= usize::MAX,
        bits.len() * block_size <= u64::MAX,
        packed(bits).len() <= u32::MAX,
    ensures
        ({
            let file = delta_prologue(bits, block_size) + rest;
            let h = DeltaHeader {
                block_size,
                total_blocks: bits.len() as u64,
                dirty_count: count_dirty(bits) as u64,
                bitmap_len: packed(bits).len() as u32,
            };
            &&& parsed_header(file) == Ok::<_, DeltaError>(h)
            &&& parsed_bitmap(h, file.skip(36)) == Ok::<_, DeltaError>(bits)
            &&& file.skip(36 + h.bitmap_len + 8) == rest
        }),
{
    let file = delta_prologue(bits, block_size) + rest;
    let n = packed(bits).len() as int;
    let total = bits.len() as u64;
    let dirty = count_dirty(bits) as u64;
    let crc = crc64_of(0, packed(bits));
    lemma_count_bounded(bits);
    lemma_le_len(DELTA_VERSION, DELTA_MAGIC);
    lemma_le_len(block_size, total);
    lemma_le_len(n as u32, dirty);
    lemma_le_len(0, crc);
    lemma_parts(
        le8(DELTA_MAGIC),
        le4(DELTA_VERSION),
        le4(block_size),
        le8(total),
        le8(dirty),
        le4(n as u32),
        packed(bits),
        le8(crc),
        rest,
    );
    lemma_le8(DELTA_MAGIC, file, 0);
    lemma_le4(DELTA_VERSION, file, 8);
    lemma_le4(block_size, file, 12);
    lemma_le8(total, file, 16);
    lemma_le8(dirty, file, 24);
    lemma_le4(n as u32, file, 32);
    assert(dirty * block_size <= total * block_size) by (nonlinear_arith)
        requires
            dirty <= total,
            0 <= block_size,
    ;
    let h = DeltaHeader {
        block_size,
        total_blocks: total,
        dirty_count: dirty,
        bitmap_len: n as u32,
    };
    assert(parsed_header(file) == Ok::<_, DeltaError>(h));
    let section = file.skip(36);
    lemma_le8(crc, section, n);
    law_unpack_packed(bits);
}

/// The data section of an overlay moves its dirty blocks to the image.
proof fn lemma_applied_data(image: Seq<u8>, overlay: Seq<u8>, bits: Seq<bool>, block_size: int)
    requires
        block_size > 0,
        image.len() == bits.len() * block_size,
        image.len() <= isize::MAX,
        dirty_within(bits, block_size, overlay.len() as int),
    ensures
        applied_data(
            image,
            delta_data_section(delta_data(overlay, dirty_indices(bits), block_size)),
            bits,
            block_size,
        ) == (merged(image, overlay, bits, block_size), Ok::<(), DeltaError>(())),
{
    let idx = dirty_indices(bits);
    let data = delta_data(overlay, idx, block_size);
    let section = delta_data_section(data);
    law_dirty_indices(bits);
    assert forall|j: int| 0 <= j < idx.len() implies (#[trigger] idx[j] + 1) * block_size
        <= image.len() by {
        let (b, n) = (idx[j], bits.len() as int);
        assert((b + 1) * block_size <= n * block_size) by (nonlinear_arith)
            requires
                b + 1 <= n,
                block_size > 0,
        ;
    }
    lemma_delta_data(overlay, idx, block_size, 0);
    assert(section.take(data.len() as int) =~= data);
    let trailer = section.skip(data.len() as int);
    let crc = crc64_of(0, data);
    lemma_le_len(0, crc);
    assert(trailer =~= le8(crc));
    assert(trailer.subrange(0, 8) =~= trailer);
    lemma_le8(crc, trailer, 0);
    lemma_replayed(image, overlay, section, idx, block_size, 0);
    let r = replayed(image, section, idx, block_size, 0).0;
    let m = merged(image, overlay, bits, block_size);
    assert forall|i: int| 0 <= i < r.len() implies r[i] == m[i] by {
        let b = i / block_size;
        if block_dirty(bits, b) {
            let j = idx.index_of(b);
            assert(idx[j] == b);
            assert(from_number(idx, 0, b));
        }
    }
    assert(r =~= m);
}

/// Applying the delta file of an overlay to an image of the size of its disk puts the
/// dirty blocks of the overlay in place of those of the image, leaves every other byte
/// as it was, and gives the bitmap back.
pub proof fn law_apply_written_delta(
    image: Seq<u8>,
    overlay: Seq<u8>,
    bits: Seq<bool>,
    block_size: u32,
)
    requires
        valid_block_size(block_size),
        1 <= bits.len(),
        packed(bits).len() <= u32::MAX,
        image.len() == bits.len() * block_size,
        image.len() <= isize::MAX,
        dirty_within(bits, block_size as int, overlay.len() as int),
    ensures
        applied(image, delta_file(overlay, bits, block_size)) == (
            merged(image, overlay, bits, block_size as int),
            Ok::<_, DeltaError>(bits),
        ),
{
    let section = delta_data_section(delta_data(overlay, dirty_indices(bits), block_size as int));
    let (n, bs) = (bits.len() as int, block_size as int);
    assert(n <= n * bs) by (nonlinear_arith)
        requires
            0 <= n,
            1 <= bs,
    ;
    lemma_parsed_prologue(bits, block_size, section);
    lemma_applied_data(image, overlay, bits, block_size as int);
}

/// Replaying blocks that lie within the image keeps its size.
proof fn lemma_replayed_len(
    image: Seq<u8>,
    data: Seq<u8>,
    indices: Seq<int>,
    block_size: int,
    k: int,
)
    requires
        block_size > 0,
        0 <= k,
        forall|j: int|
            0 <= j < indices.len() ==> 0 <= #[trigger] indices[j] && (indices[j] + 1) * block_size
                <= image.len(),
    ensures
        replayed(image, data, indices, block_size, k).0.len() == image.len(),
    decreases indices.len() - k,
{
    if k < indices.len() && data.len() >= (k + 1) * block_size && (indices[k] + 1) * block_size
        <= isize::MAX {
        let b = indices[k];
        assert((b + 1) * block_size == b * block_size + block_size) by (nonlinear_arith);
        assert((k + 1) * block_size == k * block_size + block_size) by (nonlinear_arith);
        assert(0 <= k * block_size) by (nonlinear_arith)
            requires
                0 <= k,
                0 < block_size,
        ;
        let block = data.subrange(k * block_size, (k + 1) * block_size);
        let next = image_write(image, b * block_size, block);
        assert(next.len() == image.len());
        lemma_replayed_len(next, data, indices, block_size, k + 1);
    }
}

/// Applying a delta file, a bad one too, never changes the size of the image.
pub proof fn law_applying_keeps_size(image: Seq<u8>, file: Seq<u8>)
    ensures
        applied(image, file).0.len() == image.len(),
{
    if let Ok(h) = parsed_header(file) {
        if let Ok(bits) = parsed_bitmap(h, file.skip(36)) {
            if judged_size(h, image.len() as int) is Ok {
                let bs = h.block_size as int;
                let idx = dirty_indices(bits);
                law_dirty_indices(bits);
                assert forall|j: int| 0 <= j < idx.len() implies (#[trigger] idx[j] + 1) * bs
                    <= image.len() by {
                    let (b, n) = (idx[j], bits.len() as int);
                    assert((b + 1) * bs <= n * bs) by (nonlinear_arith)
                        requires
                            b + 1 <= n,
                            bs > 0,
                    ;
                }
                lemma_replayed_len(image, file.skip(36 + h.bitmap_len + 8), idx, bs, 0);
            }
        }
    }
}

/// A delta of a disk of another size is refused, and the image stays as it was.
pub proof fn law_other_size_is_refused(image: Seq<u8>, file: Seq<u8>)
    requires
        parsed_header(file) is Ok,
        image.len() != parsed_header(file)->Ok_0.total_blocks * parsed_header(
            file,
        )->Ok_0.block_size,
    ensures
        applied(image, file).0 == image,
        applied(image, file).1 is Err,
        parsed_bitmap(parsed_header(file)->Ok_0, file.skip(36)) is Ok ==> applied(image, file).1
            == Err::<Seq<bool>, _>(
            DeltaError::SizeMismatch {
                expected: disk_size(parsed_header(file)->Ok_0),
                actual: image.len() as u64,
            },
        ),
{
}

// ---- the format byte by byte ----

/// The parts of a delta file.
#[verifier::spinoff_prover]
proof fn lemma_file_parts(overlay: Seq<u8>, bits: Seq<bool>, block_size: u32)
    requires
        bits.len() <= u64::MAX,
        packed(bits).len() <= u32::MAX,
    ensures
        ({
            let f = delta_file(overlay, bits, block_size);
            let data = delta_data(overlay, dirty_indices(bits), block_size as int);
            let n = packed(bits).len() as int;
            &&& f.len() == 52 + n + data.len()
            &&& f.subrange(0, 8) == le8(DELTA_MAGIC)
            &&& f.subrange(8, 12) == le4(DELTA_VERSION)
            &&& f.subrange(12, 16) == le4(block_size)
            &&& f.subrange(16, 24) == le8(bits.len() as u64)
            &&& f.subrange(24, 32) == le8(count_dirty(bits) as u64)
            &&& f.subrange(32, 36) == le4(n as u32)
            &&& f.subrange(36, 36 + n) == packed(bits)
            &&& f.subrange(36 + n, 44 + n) == le8(crc64_of(0, packed(bits)))
            &&& f.subrange(44 + n, 44 + n + data.len()) == data
            &&& f.subrange(44 + n + data.len(), 52 + n + data.len()) == le8(crc64_of(0, data))
        }),
{
    let f = delta_file(overlay, bits, block_size);
    let data = delta_data(overlay, dirty_indices(bits), block_size as int);
    let rest = delta_data_section(data);
    let n = packed(bits).len() as int;
    let crc = crc64_of(0, packed(bits));
    let data_crc = crc64_of(0, data);
    lemma_le_len(DELTA_VERSION, DELTA_MAGIC);
    lemma_le_len(block_size, bits.len() as u64);
    lemma_le_len(n as u32, count_dirty(bits) as u64);
    lemma_le_len(0, crc);
    lemma_le_len(0, data_crc);
    lemma_parts(
        le8(DELTA_MAGIC),
        le4(DELTA_VERSION),
        le4(block_size),
        le8(bits.len() as u64),
        le8(count_dirty(bits) as u64),
        le4(n as u32),
        packed(bits),
        le8(crc),
        rest,
    );
    assert(f.subrange(36, 36 + n) =~= f.skip(36).take(n));
    assert(f.subrange(36 + n, 44 + n) =~= f.skip(36).subrange(n, n + 8));
    assert(rest == f.skip(44 + n));
    assert(f.subrange(44 + n, 44 + n + data.len()) =~= rest.take(data.len() as int));
    assert(rest.take(data.len() as int) =~= data);
    assert(f.subrange(44 + n + data.len(), 52 + n + data.len()) =~= rest.skip(data.len() as int));
    assert(rest.skip(data.len() as int) =~= le8(data_crc));
}

/// A delta file starts with the magic number "OVLYDELT", least significant byte first, and the
/// version 1.
#[verifier::spinoff_prover]
pub proof fn law_delta_file_magic(overlay: Seq<u8>, bits: Seq<bool>, block_size: u32)
    requires
        bits.len() <= u64::MAX,
        (bits.len() + 7) / 8 <= u32::MAX,
    ensures
        ({
            let f = delta_file(overlay, bits, block_size);
            &&& f.len() >= 12
            &&& f[0] == 0x54 && f[1] == 0x4C && f[2] == 0x45 && f[3] == 0x44
            &&& f[4] == 0x59 && f[5] == 0x4C && f[6] == 0x56 && f[7] == 0x4F
            &&& f[8] == 1 && f[9] == 0 && f[10] == 0 && f[11] == 0
        }),
{
    let f = delta_file(overlay, bits, block_size);
    law_packed_bits(bits, 0);
    lemma_file_parts(overlay, bits, block_size);
    law_bytes_are_digits(DELTA_VERSION, DELTA_MAGIC);
    let (magic, version) = (f.subrange(0, 8), f.subrange(8, 12));
    assert(magic[0] == f[0] && magic[1] == f[1] && magic[2] == f[2] && magic[3] == f[3] && magic[4]
        == f[4] && magic[5] == f[5] && magic[6] == f[6] && magic[7] == f[7]);
    assert(version[0] == f[8] && version[1] == f[9] && version[2] == f[10] && version[3] == f[11]);
}

/// Behind the version of a delta file come the block size, the numbers of blocks and of dirty
/// blocks and the length of the bitmap; from byte 36 on the bitmap and its checksum; then as
/// many bytes as the dirty blocks have, and the checksum of those. There is nothing else.
#[verifier::spinoff_prover]
pub proof fn law_delta_file_layout(overlay: Seq<u8>, bits: Seq<bool>, block_size: u32)
    requires
        0 < block_size,
        bits.len() <= u64::MAX,
        (bits.len() + 7) / 8 <= u32::MAX,
        forall|b: int|
            0 <= b < bits.len() && #[trigger] bits[b] ==> (b + 1) * block_size <= overlay.len(),
    ensures
        ({
            let f = delta_file(overlay, bits, block_size);
            let n = (bits.len() as int + 7) / 8;
            let c = count_dirty(bits) as int;
            let d = 44 + n;
            &&& f.len() == d + c * block_size + 8
            &&& u32_at(f, 12) == block_size
            &&& u64_at(f, 16) == bits.len()
            &&& u64_at(f, 24) == c
            &&& u32_at(f, 32) == n
            &&& f.subrange(36, 36 + n) == packed(bits)
            &&& u64_at(f, 36 + n) == crc64_of(0, packed(bits))
            &&& u64_at(f, d + c * block_size) == crc64_of(0, f.subrange(d, d + c * block_size))
        }),
{
    let f = delta_file(overlay, bits, block_size);
    let idx = dirty_indices(bits);
    let n = packed(bits).len() as int;
    let c = count_dirty(bits) as int;
    law_packed_bits(bits, 0);
    lemma_count_bounded(bits);
    law_dirty_indices(bits);
    lemma_file_parts(overlay, bits, block_size);
    lemma_delta_data(overlay, idx, block_size as int, 0);
    let data = delta_data(overlay, idx, block_size as int);
    lemma_le4(block_size, f, 12);
    lemma_le8(bits.len() as u64, f, 16);
    lemma_le8(c as u64, f, 24);
    lemma_le4(n as u32, f, 32);
    lemma_le8(crc64_of(0, packed(bits)), f, 36 + n);
    lemma_le8(crc64_of(0, data), f, 44 + n + data.len());
}

/// Where the blocks stand in a delta file.
proof fn lemma_file_data(overlay: Seq<u8>, bits: Seq<bool>, block_size: u32)
    requires
        bits.len() <= u64::MAX,
        packed(bits).len() <= u32::MAX,
    ensures
        ({
            let f = delta_file(overlay, bits, block_size);
            let data = delta_data(overlay, dirty_indices(bits), block_size as int);
            let d = 44 + packed(bits).len() as int;
            &&& d + data.len() <= f.len()
            &&& f.subrange(d, d + data.len()) == data
        }),
{
    lemma_file_parts(overlay, bits, block_size);
}

/// The dirty block of number `k` in the blocks of a delta file.
proof fn lemma_data_block(overlay: Seq<u8>, bits: Seq<bool>, block_size: int, k: int)
    requires
        0 < block_size,
        dirty_within(bits, block_size, overlay.len() as int),
        0 <= k < dirty_indices(bits).len(),
    ensures
        ({
            let data = delta_data(overlay, dirty_indices(bits), block_size);
            let b = dirty_indices(bits)[k];
            &&& 0 <= k * block_size && k * block_size + block_size <= data.len()
            &&& 0 <= b * block_size && b * block_size + block_size <= overlay.len()
            &&& data.subrange(k * block_size, k * block_size + block_size) == overlay.subrange(
                b * block_size,
                b * block_size + block_size,
            )
        }),
{
    let idx = dirty_indices(bits);
    let (b, c) = (idx[k], idx.len() as int);
    law_dirty_indices(bits);
    assert forall|j: int| 0 <= j < idx.len() implies 0 <= #[trigger] idx[j] && (idx[j] + 1)
        * block_size <= overlay.len() by {
        assert(bits[idx[j]]);
    }
    lemma_delta_data(overlay, idx, block_size, k);
    assert((k + 1) * block_size == k * block_size + block_size && (b + 1) * block_size == b
        * block_size + block_size) by (nonlinear_arith);
    assert(0 <= k * block_size && (k + 1) * block_size <= c * block_size && 0 <= b * block_size) by (
    nonlinear_arith)
        requires
            0 <= k < c,
            0 <= b,
            0 < block_size,
    ;
}

/// The dirty blocks stand in a delta file in index order, byte for byte.
#[verifier::spinoff_prover]
pub proof fn law_delta_file_blocks(
    overlay: Seq<u8>,
    bits: Seq<bool>,
    block_size: u32,
    k: int,
    i: int,
)
    requires
        0 < block_size,
        bits.len() <= u64::MAX,
        (bits.len() + 7) / 8 <= u32::MAX,
        forall|b: int|
            0 <= b < bits.len() && #[trigger] bits[b] ==> (b + 1) * block_size <= overlay.len(),
        0 <= k < dirty_indices(bits).len(),
        0 <= i < block_size,
    ensures
        delta_file(overlay, bits, block_size)[44 + (bits.len() as int + 7) / 8 + k * block_size + i]
            == overlay[dirty_indices(bits)[k] * block_size + i],
{
    let f = delta_file(overlay, bits, block_size);
    let data = delta_data(overlay, dirty_indices(bits), block_size as int);
    let d = 44 + packed(bits).len() as int;
    let (from, at) = (k * block_size, dirty_indices(bits)[k] * block_size);
    law_packed_bits(bits, 0);
    assert(d == 44 + (bits.len() as int + 7) / 8);
    lemma_file_data(overlay, bits, block_size);
    lemma_data_block(overlay, bits, block_size as int, k);
    assert(f.subrange(d, d + data.len())[from + i] == f[d + (from + i)]);
    assert(data.subrange(from, from + block_size)[i] == data[from + i]);
    assert(overlay.subrange(at, at + block_size)[i] == overlay[at + i]);
}

/// A header is accepted exactly when it is there in full, starts with the magic number, has
/// version 1, and does not count more bytes of dirty blocks than the disk has. Each part is
/// judged as soon as it is there.
pub proof fn law_header_is_judged(b: Seq<u8>)
    ensures
        ({
            let r = parsed_header(b);
            let short = Err::<DeltaHeader, _>(DeltaError::Io(IoError::UnexpectedEof));
            let magic = b.len() >= 8 && u64_at(b, 0) == 0x4F56_4C59_4445_4C54;
            let version = magic && b.len() >= 12 && u32_at(b, 8) == 1;
            let fits = u64_at(b, 24) * u32_at(b, 12) <= u64_at(b, 16) * u32_at(b, 12);
            &&& b.len() < 8 ==> r == short
            &&& b.len() >= 8 && !magic ==> r == Err::<DeltaHeader, _>(
                DeltaError::InvalidMagic {
                    expected: 0x4F56_4C59_4445_4C54,
                    actual: u64_at(b, 0),
                },
            )
            &&& magic && b.len() < 12 ==> r == short
            &&& magic && b.len() >= 12 && !version ==> r == Err::<DeltaHeader, _>(
                DeltaError::UnsupportedVersion(u32_at(b, 8)),
            )
            &&& version && b.len() < 32 ==> r == short
            &&& version && b.len() >= 32 && !fits ==> r == Err::<DeltaHeader, _>(
                DeltaError::TooLarge { dirty_count: u64_at(b, 24), block_size: u32_at(b, 12) },
            )
            &&& version && 32 <= b.len() < 36 && fits ==> r == short
            &&& version && b.len() >= 36 && fits ==> r == Ok::<_, DeltaError>(
                DeltaHeader {
                    block_size: u32_at(b, 12),
                    total_blocks: u64_at(b, 16),
                    dirty_count: u64_at(b, 24),
                    bitmap_len: u32_at(b, 32),
                },
            )
        }),
{
}

/// The bitmap section is accepted exactly when it is there in full, its checksum is the one
/// that is stored behind it, its bytes are a bitmap for the header, and as many blocks are
/// dirty in it as the header says.
pub proof fn law_bitmap_is_judged(h: DeltaHeader, section: Seq<u8>)
    ensures
        ({
            let r = parsed_bitmap(h, section);
            let n = h.bitmap_len as int;
            let stored = u64_at(section, n);
            let computed = crc64_of(0, section.take(n));
            let bitmap = deserialized(section.take(n), h.block_size, h.total_blocks);
            &&& section.len() < n + 8 ==> r == Err::<Seq<bool>, _>(
                DeltaError::Io(IoError::UnexpectedEof),
            )
            &&& section.len() >= n + 8 && stored != computed ==> r == Err::<Seq<bool>, _>(
                DeltaError::BitmapCrcMismatch { expected: stored, computed },
            )
            &&& section.len() >= n + 8 && stored == computed ==> {
                &&& bitmap matches Err(e) ==> r == Err::<Seq<bool>, _>(DeltaError::Bitmap(e))
                &&& bitmap matches Ok(bits) ==> {
                    &&& count_dirty(bits) == h.dirty_count ==> r == Ok::<_, DeltaError>(bits)
                    &&& count_dirty(bits) != h.dirty_count ==> r == Err::<Seq<bool>, _>(
                        DeltaError::DirtyCountMismatch {
                            header: h.dirty_count,
                            bitmap: count_dirty(bits) as u64,
                        },
                    )
                }
            }
        }),
        forall|bytes: Seq<u8>, stored: u64, computed: u64|
            stored != computed ==> #[trigger] judged_bitmap(h, bytes, stored, computed) == Err::<
                Seq<bool>,
                _,
            >(DeltaError::BitmapCrcMismatch { expected: stored, computed }),
{
}

/// An image is accepted exactly when it has as many bytes as all blocks of the delta
/// together.
pub proof fn law_image_size_is_judged(h: DeltaHeader, size: u64)
    ensures
        judged_size(h, size as int) is Ok <==> h.total_blocks * h.block_size == size,
        judged_size(h, size as int) is Err ==> judged_size(h, size as int) == Err::<(), _>(
            DeltaError::SizeMismatch {
                expected: if h.total_blocks * h.block_size <= 0xffff_ffff_ffff_ffff {
                    (h.total_blocks * h.block_size) as u64
                } else {
                    0xffff_ffff_ffff_ffff
                },
                actual: size,
            },
        ),
{
}

/// The end of a delta file is accepted exactly when its first eight bytes are there and hold
/// the checksum of the blocks.
pub proof fn law_trailer_is_judged(trailer: Seq<u8>, computed: u64)
    ensures
        trailer.len() < 8 ==> judged_trailer(trailer, computed) == Err::<(), _>(
            DeltaError::Io(IoError::UnexpectedEof),
        ),
        trailer.len() >= 8 ==> (judged_trailer(trailer, computed) is Ok <==> u64_at(trailer, 0)
            == computed),
        trailer.len() >= 8 && u64_at(trailer, 0) != computed ==> judged_trailer(trailer, computed)
            == Err::<(), _>(
            DeltaError::DataCrcMismatch { expected: u64_at(trailer, 0), computed },
        ),
{
}

/// Replaying stops at the first block that is not there in full.
proof fn lemma_replayed_verdict(
    image: Seq<u8>,
    data: Seq<u8>,
    indices: Seq<int>,
    block_size: int,
    k: int,
)
    requires
        block_size > 0,
        0 <= k <= indices.len(),
        k * block_size <= data.len(),
        forall|j: int|
            0 <= j < indices.len() ==> (#[trigger] indices[j] + 1) * block_size <= isize::MAX,
    ensures
        replayed(image, data, indices, block_size, k).1 == if data.len() < indices.len()
            * block_size {
            Some(IoError::UnexpectedEof)
        } else {
            None
        },
    decreases indices.len() - k,
{
    let n = indices.len() as int;
    if k < n {
        assert((k + 1) * block_size <= n * block_size) by (nonlinear_arith)
            requires
                k + 1 <= n,
                0 < block_size,
        ;
        assert((indices[k] + 1) * block_size <= isize::MAX);
        if data.len() >= (k + 1) * block_size {
            lemma_replayed_verdict(
                image_write(
                    image,
                    indices[k] * block_size,
                    data.subrange(k * block_size, (k + 1) * block_size),
                ),
                data,
                indices,
                block_size,
                k + 1,
            );
        }
    }
}

/// The data section is accepted exactly when all dirty blocks are there, and behind them the
/// checksum of just those.
pub proof fn law_data_section_is_judged(
    image: Seq<u8>,
    section: Seq<u8>,
    bits: Seq<bool>,
    block_size: int,
)
    requires
        block_size > 0,
        bits.len() * block_size <= isize::MAX,
    ensures
        ({
            let n = count_dirty(bits) * block_size;
            let r = applied_data(image, section, bits, block_size).1;
            &&& section.len() < n + 8 ==> r == Err::<(), _>(DeltaError::Io(IoError::UnexpectedEof))
            &&& section.len() >= n + 8 ==> {
                let stored = u64_at(section, n as int);
                let computed = crc64_of(0, section.take(n as int));
                &&& stored == computed ==> r == Ok::<(), DeltaError>(())
                &&& stored != computed ==> r == Err::<(), _>(
                    DeltaError::DataCrcMismatch { expected: stored, computed },
                )
            }
        }),
{
    let idx = dirty_indices(bits);
    let total = bits.len() as int;
    law_dirty_indices(bits);
    assert forall|j: int| 0 <= j < idx.len() implies (#[trigger] idx[j] + 1) * block_size
        <= isize::MAX by {
        let b = idx[j];
        assert((b + 1) * block_size <= total * block_size) by (nonlinear_arith)
            requires
                b + 1 <= total,
                0 < block_size,
        ;
    }
    assert(0 * block_size == 0);
    lemma_replayed_verdict(image, section, idx, block_size, 0);
    let n = idx.len() * block_size;
    assert(0 <= n) by (nonlinear_arith)
        requires
            0 < block_size,
            n == idx.len() * block_size,
    ;
    if section.len() >= n + 8 {
        let trailer = section.skip(n);
        law_bytes_are_weighted(section, n);
        law_bytes_are_weighted(trailer, 0);
        assert(trailer[0] == section[n] && trailer[1] == section[n + 1] && trailer[2] == section[n
            + 2] && trailer[3] == section[n + 3] && trailer[4] == section[n + 4] && trailer[5]
            == section[n + 5] && trailer[6] == section[n + 6] && trailer[7] == section[n + 7]);
    }
}

/// What replaying the blocks from number `k` on leaves at `p`.
proof fn lemma_replayed_bytes(
    image: Seq<u8>,
    data: Seq<u8>,
    indices: Seq<int>,
    block_size: int,
    k: int,
    j: int,
    p: int,
)
    requires
        block_size > 0,
        0 <= k <= indices.len(),
        forall|a: int, b: int| 0 <= a < b < indices.len() ==> indices[a] < indices[b],
        forall|a: int|
            0 <= a < indices.len() ==> 0 <= #[trigger] indices[a] && (indices[a] + 1) * block_size
                <= image.len(),
        image.len() <= isize::MAX,
        0 <= p < image.len(),
    ensures
        ({
            let r = replayed(image, data, indices, block_size, k).0;
            &&& r.len() == image.len()
            &&& k <= j < indices.len() && indices[j] * block_size <= p < (indices[j] + 1)
                * block_size ==> r[p] == if (j + 1) * block_size <= data.len() {
                data[j * block_size + (p - indices[j] * block_size)]
            } else {
                image[p]
            }
            &&& (forall|a: int|
                k <= a < indices.len() ==> !(#[trigger] indices[a] * block_size <= p < (indices[a]
                    + 1) * block_size)) ==> r[p] == image[p]
        }),
    decreases indices.len() - k,
{
    if k < indices.len() {
        let b = indices[k];
        assert((k + 1) * block_size == k * block_size + block_size) by (nonlinear_arith);
        assert((b + 1) * block_size == b * block_size + block_size) by (nonlinear_arith);
        assert(0 <= k * block_size && 0 <= b * block_size) by (nonlinear_arith)
            requires
                0 <= k,
                0 <= b,
                0 < block_size,
        ;
        if k <= j < indices.len() {
            assert((k + 1) * block_size <= (j + 1) * block_size) by (nonlinear_arith)
                requires
                    k <= j,
                    0 < block_size,
            ;
        }
        if data.len() >= (k + 1) * block_size {
            let block = data.subrange(k * block_size, (k + 1) * block_size);
            let next = image_write(image, b * block_size, block);
            assert(next.len() == image.len());
            lemma_replayed_bytes(next, data, indices, block_size, k + 1, j, p);
            if j == k && b * block_size <= p < (b + 1) * block_size {
                assert(next[p] == data[k * block_size + (p - b * block_size)]);
                assert forall|a: int| k + 1 <= a < indices.len() implies !(#[trigger] indices[a]
                    * block_size <= p < (indices[a] + 1) * block_size) by {
                    let c = indices[a];
                    assert(b < c);
                    assert((b + 1) * block_size <= c * block_size) by (nonlinear_arith)
                        requires
                            b + 1 <= c,
                            0 < block_size,
                    ;
                }
            }
            if k < j < indices.len() && indices[j] * block_size <= p < (indices[j] + 1)
                * block_size {
                let c = indices[j];
                assert(b < c);
                assert((b + 1) * block_size <= c * block_size) by (nonlinear_arith)
                    requires
                        b + 1 <= c,
                        0 < block_size,
                ;
                assert(next[p] == image[p]);
            }
        }
    }
}

/// Each dirty block that is there in full in the data section is written in its place, whatever
/// the verdict on the section, and every other byte of the image stays as it was.
pub proof fn law_whole_blocks_are_written(
    image: Seq<u8>,
    section: Seq<u8>,
    bits: Seq<bool>,
    block_size: int,
    k: int,
    p: int,
)
    requires
        block_size > 0,
        image.len() == bits.len() * block_size,
        image.len() <= isize::MAX,
        0 <= p < image.len(),
    ensures
        ({
            let after = applied_data(image, section, bits, block_size).0;
            let idx = dirty_indices(bits);
            &&& after.len() == image.len()
            &&& 0 <= k < idx.len() && idx[k] * block_size <= p < (idx[k] + 1) * block_size ==> {
                &&& (k + 1) * block_size <= section.len() ==> after[p] == section[k * block_size + (p
                    - idx[k] * block_size)]
                &&& (k + 1) * block_size > section.len() ==> after[p] == image[p]
            }
            &&& !bits[p / block_size] ==> after[p] == image[p]
        }),
{
    let idx = dirty_indices(bits);
    let total = bits.len() as int;
    law_dirty_indices(bits);
    assert forall|a: int| 0 <= a < idx.len() implies 0 <= #[trigger] idx[a] && (idx[a] + 1)
        * block_size <= image.len() by {
        let b = idx[a];
        assert((b + 1) * block_size <= total * block_size) by (nonlinear_arith)
            requires
                b + 1 <= total,
                0 < block_size,
        ;
    }
    lemma_replayed_bytes(image, section, idx, block_size, 0, k, p);
    let at = p / block_size;
    if !bits[at] {
        assert forall|a: int| 0 <= a < idx.len() implies !(#[trigger] idx[a] * block_size <= p < (
        idx[a] + 1) * block_size) by {
            let b = idx[a];
            assert(bits[b]);
            assert(b * block_size <= p < (b + 1) * block_size ==> at == b) by (nonlinear_arith)
                requires
                    0 < block_size,
                    at == p / block_size,
            ;
        }
    }
}

/// A file that is bad up to its bitmap leaves the image as it was, and the error is that of
/// the first part that is bad.
pub proof fn law_bad_delta_changes_nothing(image: Seq<u8>, file: Seq<u8>)
    ensures
        parsed_header(file) matches Err(e) ==> applied(image, file) == (
            image,
            Err::<Seq<bool>, _>(e),
        ),
        parsed_header(file) matches Ok(h) ==> (parsed_bitmap(h, file.skip(36)) matches Err(e)
            ==> applied(image, file) == (image, Err::<Seq<bool>, _>(e))),
        applied(image, file).1 matches Ok(bits) ==> {
            &&& parsed_header(file) is Ok
            &&& parsed_bitmap(parsed_header(file)->Ok_0, file.skip(36)) == Ok::<_, DeltaError>(bits)
        },
{
}

/// A file that is good up to its bitmap, for an image of the size of its disk, has its data
/// section applied, and the verdict on that is the verdict on the file.
pub proof fn law_good_delta_is_applied(
    image: Seq<u8>,
    file: Seq<u8>,
    h: DeltaHeader,
    bits: Seq<bool>,
)
    requires
        parsed_header(file) == Ok::<_, DeltaError>(h),
        parsed_bitmap(h, file.skip(36)) == Ok::<_, DeltaError>(bits),
        h.total_blocks * h.block_size == image.len(),
    ensures
        ({
            let done = applied_data(
                image,
                file.skip(44 + h.bitmap_len),
                bits,
                h.block_size as int,
            );
            &&& applied(image, file).0 == done.0
            &&& done.1 is Ok ==> applied(image, file).1 == Ok::<_, DeltaError>(bits)
            &&& done.1 matches Err(e) ==> applied(image, file).1 == Err::<Seq<bool>, _>(e)
        }),
{
}

/// In an image with the dirty blocks of an overlay put in, each byte is that of the overlay
/// where its block is dirty, and that of the image elsewhere.
pub proof fn law_merged_bytes(
    image: Seq<u8>,
    overlay: Seq<u8>,
    bits: Seq<bool>,
    block_size: int,
    b: int,
    i: int,
)
    requires
        0 < block_size,
        0 <= i < image.len(),
        b * block_size <= i < (b + 1) * block_size,
    ensures
        merged(image, overlay, bits, block_size).len() == image.len(),
        0 <= b < bits.len() && bits[b] ==> merged(image, overlay, bits, block_size)[i]
            == overlay[i],
        !(0 <= b < bits.len() && bits[b]) ==> merged(image, overlay, bits, block_size)[i]
            == image[i],
{
    assert(i / block_size == b) by (nonlinear_arith)
        requires
            0 < block_size,
            b * block_size <= i < (b + 1) * block_size,
    ;
}

/// The stats count the dirty blocks and their bytes.
pub proof fn law_stats_count_blocks(bits: Seq<bool>, block_size: u32, duration_us: u64)
    requires
        bits.len() * block_size <= u64::MAX,
        bits.len() <= u64::MAX,
    ensures
        delta_stats(bits, block_size, duration_us).dirty_blocks == count_dirty(bits),
        delta_stats(bits, block_size, duration_us).bytes_written == count_dirty(bits) * block_size,
        delta_stats(bits, block_size, duration_us).duration_us == duration_us,
{
    lemma_count_bounded(bits);
    let (c, n, bs) = (count_dirty(bits) as int, bits.len() as int, block_size as int);
    assert(0 <= c * bs <= n * bs) by (nonlinear_arith)
        requires
            0 <= c <= n,
            0 <= bs,
    ;
}

/// A dirty block fits in an image when it ends at or before the end of the image, and every
/// dirty block must.
pub proof fn law_dirty_blocks_within(bits: Seq<bool>, block_size: int, size: int, b: int)
    ensures
        (forall|k: int|
            0 <= k < bits.len() && #[trigger] bits[k] ==> k * block_size + block_size <= size)
            ==> dirty_within(bits, block_size, size),
        0 <= b < bits.len() && bits[b] && b * block_size + block_size > size ==> !dirty_within(
            bits,
            block_size,
            size,
        ),
{
    assert forall|k: int| #[trigger] ((k + 1) * block_size) == k * block_size + block_size by {
        assert((k + 1) * block_size == k * block_size + block_size) by (nonlinear_arith);
    }
    assert((b + 1) * block_size == b * block_size + block_size);
}

} // verus!
