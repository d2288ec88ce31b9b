//! Dirty tracking by byte ranges of a disk.
use vstd::arithmetic::power2::{lemma2_to64, pow2};
use vstd::prelude::*;

use crate::dirty_bitmap::{as_ints, count_dirty, dirty_indices, DirtyBitmap};

verus! {

/// Granularity of dirty tracking unless configured otherwise.
pub const DEFAULT_BLOCK_SIZE: u32 = 4096;

/// Why a dirty bitmap could not be made.
#[derive(Debug, Clone, Copy, PartialEq, Eq, Structural)]
pub enum DirtyBitmapError {
    /// The block size is not a power of two that is at least 512.
    InvalidBlockSize(u32),
    /// The serialized bitmap has the wrong number of bytes.
    LengthMismatch { expected: u64, actual: u64 },
    /// The disk has no bytes or no blocks.
    ZeroDiskSize,
    /// The disk has more blocks than the host can index.
    TooManyBlocks(u64),
}

/// A power of two that is at least a sector.
pub open spec fn valid_block_size(block_size: u32) -> bool {
    block_size >= 512 && block_size & ((block_size - 1) as u32) == 0
}

/// `x / y`, rounded up.
pub open spec fn div_up(x: int, y: int) -> int {
    (x + y - 1) / y
}

/// Some byte of `[offset, offset + len)` lies in block `b`.
pub open spec fn touches(b: int, block_size: int, offset: int, len: int) -> bool {
    &&& len > 0
    &&& b * block_size < offset + len
    &&& offset < (b + 1) * block_size
}

/// Block `b` exists and is dirty.
pub open spec fn block_dirty(bits: Seq<bool>, b: int) -> bool {
    0 <= b < bits.len() && bits[b]
}

/// `Some(dirty)` if the blocks that the range touches are all dirty or all clean.
pub open spec fn range_uniform(bits: Seq<bool>, block_size: int, offset: int, len: int) -> Option<bool> {
    if forall|b: int| #[trigger] touches(b, block_size, offset, len) ==> !block_dirty(bits, b) {
        Some(false)
    } else if forall|b: int| #[trigger] touches(b, block_size, offset, len) ==> block_dirty(bits, b) {
        Some(true)
    } else {
        None
    }
}

/// Eight flags in a byte, the first in the least significant bit.
pub open spec fn pack8(
    b0: bool,
    b1: bool,
    b2: bool,
    b3: bool,
    b4: bool,
    b5: bool,
    b6: bool,
    b7: bool,
) -> u8 {
    (if b0 { 1u8 } else { 0 }) | (if b1 { 2u8 } else { 0 }) | (if b2 { 4u8 } else { 0 }) | (if b3 {
        8u8
    } else {
        0
    }) | (if b4 { 16u8 } else { 0 }) | (if b5 { 32u8 } else { 0 }) | (if b6 {
        64u8
    } else {
        0
    }) | (if b7 { 128u8 } else { 0 })
}

/// The flags of blocks `8 * k` to `8 * k + 7`.
pub open spec fn packed_byte(bits: Seq<bool>, k: int) -> u8 {
    pack8(
        block_dirty(bits, 8 * k),
        block_dirty(bits, 8 * k + 1),
        block_dirty(bits, 8 * k + 2),
        block_dirty(bits, 8 * k + 3),
        block_dirty(bits, 8 * k + 4),
        block_dirty(bits, 8 * k + 5),
        block_dirty(bits, 8 * k + 6),
        block_dirty(bits, 8 * k + 7),
    )
}

/// The serialized form: one bit per block, padded with clear bits to whole bytes.
pub open spec fn packed(bits: Seq<bool>) -> Seq<u8> {
    Seq::new(div_up(bits.len() as int, 8) as nat, |k: int| packed_byte(bits, k))
}

/// Bit `j` of `byte`.
pub open spec fn byte_bit(byte: u8, j: int) -> bool {
    (byte >> (j as u8)) & 1u8 == 1u8
}

/// The first `n` flags of a serialized bitmap.
pub open spec fn unpacked(bytes: Seq<u8>, n: nat) -> Seq<bool> {
    Seq::new(n, |i: int| byte_bit(bytes[i / 8], i % 8))
}

/// Block `i` of what `packed` wrote is block `i`.
proof fn lemma_packed_bit(bits: Seq<bool>, i: int)
    requires
        0 <= i,
    ensures
        byte_bit(packed_byte(bits, i / 8), i % 8) == block_dirty(bits, i),
{
    let k = i / 8;
    let j = (i % 8) as u8;
    let b0 = block_dirty(bits, 8 * k);
    let b1 = block_dirty(bits, 8 * k + 1);
    let b2 = block_dirty(bits, 8 * k + 2);
    let b3 = block_dirty(bits, 8 * k + 3);
    let b4 = block_dirty(bits, 8 * k + 4);
    let b5 = block_dirty(bits, 8 * k + 5);
    let b6 = block_dirty(bits, 8 * k + 6);
    let b7 = block_dirty(bits, 8 * k + 7);
    assert({
        let p = pack8(b0, b1, b2, b3, b4, b5, b6, b7);
        &&& ((p >> 0u8) & 1u8 == 1u8) == b0
        &&& ((p >> 1u8) & 1u8 == 1u8) == b1
        &&& ((p >> 2u8) & 1u8 == 1u8) == b2
        &&& ((p >> 3u8) & 1u8 == 1u8) == b3
        &&& ((p >> 4u8) & 1u8 == 1u8) == b4
        &&& ((p >> 5u8) & 1u8 == 1u8) == b5
        &&& ((p >> 6u8) & 1u8 == 1u8) == b6
        &&& ((p >> 7u8) & 1u8 == 1u8) == b7
    }) by (bit_vector);
    assert(i == 8 * k + j);
}

/// Unpacking the serialized form of a bitmap gives the bitmap back.
pub proof fn law_unpack_packed(bits: Seq<bool>)
    ensures
        unpacked(packed(bits), bits.len()) == bits,
{
    assert forall|i: int| 0 <= i < bits.len() implies unpacked(packed(bits), bits.len())[i] == bits[i] by {
        lemma_packed_bit(bits, i);
        assert(0 <= i / 8 < packed(bits).len());
    }
    assert(unpacked(packed(bits), bits.len()) =~= bits);
}

/// A bitmap made of serialized bytes, or the reason why there is none.
pub open spec fn deserialized(bytes: Seq<u8>, block_size: u32, total_blocks: u64) -> Result<
    Seq<bool>,
    DirtyBitmapError,
> {
    if !valid_block_size(block_size) {
        Err(DirtyBitmapError::InvalidBlockSize(block_size))
    } else if total_blocks == 0 {
        Err(DirtyBitmapError::ZeroDiskSize)
    } else if bytes.len() != div_up(total_blocks as int, 8) {
        Err(
            DirtyBitmapError::LengthMismatch {
                expected: div_up(total_blocks as int, 8) as u64,
                actual: bytes.len() as u64,
            },
        )
    } else if total_blocks > usize::MAX {
        Err(DirtyBitmapError::TooManyBlocks(total_blocks))
    } else {
        Ok(unpacked(bytes, total_blocks as nat))
    }
}

/// The blocks that `[offset, offset + len)` touches are those from the block of its
/// first byte to the block of its last.
pub proof fn lemma_touched_blocks(b: int, block_size: int, offset: int, len: int)
    requires
        block_size > 0,
        len > 0,
    ensures
        touches(b, block_size, offset, len) <==> offset / block_size <= b <= (offset + len - 1)
            / block_size,
{
    let first = offset / block_size;
    let last = (offset + len - 1) / block_size;
    assert(first <= b <==> offset < (b + 1) * block_size) by (nonlinear_arith)
        requires
            block_size > 0,
            first == offset / block_size,
    ;
    assert(b <= last <==> b * block_size <= offset + len - 1) by (nonlinear_arith)
        requires
            block_size > 0,
            last == (offset + len - 1) / block_size,
    ;
}

/// Whether `block_size` is a power of two that is at least 512.
pub fn is_valid_block_size(block_size: u32) -> (valid: bool)
    ensures
        valid == valid_block_size(block_size),
{
    block_size >= 512 && block_size & (block_size - 1) == 0
}

/// The dirty blocks of a disk, addressed by byte offsets.
///
/// The view is one `bool` per block.
#[derive(Debug)]
pub struct DiskBitmap {
    bits: DirtyBitmap,
    block_size: u32,
}

impl View for DiskBitmap {
    type V = Seq<bool>;

    closed spec fn view(&self) -> Seq<bool> {
        self.bits@
    }
}

impl Clone for DiskBitmap {
    fn clone(&self) -> (copy: Self)
        ensures
            copy@ == self@,
            copy.granularity() == self.granularity(),
            self.wf() ==> copy.wf(),
    {
        Self { bits: self.bits.clone(), block_size: self.block_size }
    }
}

impl DiskBitmap {
    /// Bytes per block.
    pub closed spec fn granularity(&self) -> u32 {
        self.block_size
    }

    /// There is a block, and blocks have a valid size.
    pub closed spec fn wf(&self) -> bool {
        &&& self.bits.wf()
        &&& valid_block_size(self.block_size)
        &&& 0 < self.bits@.len() <= usize::MAX
    }

    /// What every bitmap has.
    pub proof fn lemma_wf(&self)
        requires
            self.wf(),
        ensures
            valid_block_size(self.granularity()),
            0 < self@.len() <= usize::MAX,
    {
    }

    /// A bitmap for a disk of `disk_size_bytes` bytes, all clean.
    pub fn new(disk_size_bytes: u64, block_size: u32) -> (r: Result<Self, DirtyBitmapError>)
        ensures
            ({
                let n = div_up(disk_size_bytes as int, block_size as int);
                match r {
                    Ok(bitmap) => {
                        &&& valid_block_size(block_size)
                        &&& disk_size_bytes > 0
                        &&& n <= usize::MAX
                        &&& bitmap.wf()
                        &&& bitmap.granularity() == block_size
                        &&& bitmap@ == Seq::new(n as nat, |i: int| false)
                    },
                    Err(DirtyBitmapError::InvalidBlockSize(bad)) => !valid_block_size(block_size)
                        && bad == block_size,
                    Err(DirtyBitmapError::ZeroDiskSize) => valid_block_size(block_size)
                        && disk_size_bytes == 0,
                    Err(DirtyBitmapError::TooManyBlocks(blocks)) => valid_block_size(block_size)
                        && blocks == n && n > usize::MAX,
                    Err(DirtyBitmapError::LengthMismatch { .. }) => false,
                }
            }),
    {
        if !is_valid_block_size(block_size) {
            return Err(DirtyBitmapError::InvalidBlockSize(block_size));
        }
        if disk_size_bytes == 0 {
            return Err(DirtyBitmapError::ZeroDiskSize);
        }
        let last_block: u64 = (disk_size_bytes - 1) / block_size as u64;
        proof {
            let d = disk_size_bytes as int;
            let bs = block_size as int;
            assert((d + bs - 1) / bs == (d - 1) / bs + 1 && (d - 1) / bs < d && (d - 1) / bs >= 0) by (nonlinear_arith)
                requires
                    bs >= 512,
                    d >= 1,
            ;
        }
        let total_blocks: u64 = last_block + 1;
        if total_blocks > usize::MAX as u64 {
            return Err(DirtyBitmapError::TooManyBlocks(total_blocks));
        }
        Ok(Self { bits: DirtyBitmap::new(total_blocks as usize), block_size })
    }

    /// Bytes per block.
    pub fn block_size(&self) -> (n: u32)
        ensures
            n == self.granularity(),
    {
        self.block_size
    }

    /// Number of blocks.
    pub fn total_blocks(&self) -> (n: u64)
        ensures
            n == self@.len(),
    {
        self.bits.num_blocks() as u64
    }

    /// Mark the blocks that `[offset, offset + len)` touches as dirty. Blocks past the
    /// end of the disk do not exist and are passed over.
    pub fn set(&mut self, offset: u64, len: u32)
        requires
            old(self).wf(),
        ensures
            final(self).wf(),
            final(self).granularity() == old(self).granularity(),
            final(self)@ == Seq::new(
                old(self)@.len(),
                |b: int|
                    old(self)@[b] || touches(b, old(self).granularity() as int, offset as int, len as int),
            ),
    {
        let ghost marked = Seq::new(
            self@.len(),
            |b: int| self@[b] || touches(b, self.block_size as int, offset as int, len as int),
        );
        if len == 0 {
            assert(self@ =~= marked);
            return;
        }
        let total: u64 = self.total_blocks();
        let first: u64 = offset / self.block_size as u64;
        let mut block: u64 = first;
        let last: u128 = (offset as u128 + len as u128 - 1) / self.block_size as u128;
        while block < total && block as u128 <= last
            invariant
                self.wf(),
                self.block_size == old(self).block_size,
                self@.len() == old(self)@.len() == total,
                len > 0,
                first == offset / self.block_size as u64,
                first <= block,
                block == first || block <= last + 1,
                last == (offset + len - 1) / self.block_size as int,
                forall|b: int| 0 <= b < total ==> #[trigger] self@[b] == (old(self)@[b] || first <= b
                    < block),
            decreases total - block,
        {
            self.bits.set(block as usize);
            block += 1;
        }
        proof {
            assert forall|b: int| 0 <= b < total implies self@[b] == marked[b] by {
                lemma_touched_blocks(b, self.block_size as int, offset as int, len as int);
            }
            assert(self@ =~= marked);
        }
    }

    /// Mark block `block` as clean. A block past the end of the disk is passed over.
    pub fn unset(&mut self, block: u64)
        requires
            old(self).wf(),
        ensures
            final(self).wf(),
            final(self).granularity() == old(self).granularity(),
            final(self)@ == if block < old(self)@.len() {
                old(self)@.update(block as int, false)
            } else {
                old(self)@
            },
    {
        if block < self.total_blocks() {
            self.bits.clear(block as usize);
        }
    }

    /// Whether block `block` is dirty. A block past the end of the disk is not.
    pub fn is_set(&self, block: u64) -> (dirty: bool)
        requires
            self.wf(),
        ensures
            dirty == block_dirty(self@, block as int),
    {
        block < self.total_blocks() && self.bits.is_set(block as usize)
    }

    /// `Some(true)` if all blocks that `[offset, offset + len)` touches are dirty,
    /// `Some(false)` if none is, `None` if they are mixed. An empty range touches no
    /// block, so none of its blocks is dirty.
    pub fn is_range_uniform(&self, offset: u64, len: u32) -> (r: Option<bool>)
        requires
            self.wf(),
        ensures
            r == range_uniform(self@, self.granularity() as int, offset as int, len as int),
    {
        if len == 0 {
            return Some(false);
        }
        let first: u64 = offset / self.block_size as u64;
        let last: u128 = (offset as u128 + len as u128 - 1) / self.block_size as u128;
        proof {
            let bs = self.block_size as int;
            assert(first as int <= last && last < u64::MAX) by (nonlinear_arith)
                requires
                    bs >= 512,
                    0 < len <= u32::MAX,
                    0 <= offset <= u64::MAX,
                    first == offset as int / bs,
                    last == (offset + len - 1) / bs,
            ;
            assert forall|b: int|
                #[trigger] touches(b, bs, offset as int, len as int) <==> first <= b <= last by {
                lemma_touched_blocks(b, bs, offset as int, len as int);
            }
        }
        let dirty = self.is_set(first);
        let mut block: u64 = first + 1;
        while block as u128 <= last
            invariant
                self.wf(),
                len > 0,
                first < block <= last + 1,
                last < u64::MAX,
                dirty == block_dirty(self@, first as int),
                forall|b: int|
                    #[trigger] touches(b, self.block_size as int, offset as int, len as int) <==> first <= b
                        <= last,
                forall|b: int| first <= b < block ==> #[trigger] block_dirty(self@, b) == dirty,
            decreases last + 1 - block,
        {
            if self.is_set(block) != dirty {
                proof {
                    let bs = self.block_size as int;
                    assert(touches(first as int, bs, offset as int, len as int));
                    assert(touches(block as int, bs, offset as int, len as int));
                }
                return None;
            }
            block += 1;
        }
        proof {
            assert(touches(first as int, self.block_size as int, offset as int, len as int));
        }
        Some(dirty)
    }

    /// Mark all blocks as clean.
    pub fn clear(&mut self)
        requires
            old(self).wf(),
        ensures
            final(self).wf(),
            final(self).granularity() == old(self).granularity(),
            final(self)@ == Seq::new(old(self)@.len(), |i: int| false),
    {
        self.bits.clear_all();
    }

    /// The number of dirty blocks.
    pub fn dirty_count(&self) -> (count: u64)
        requires
            self.wf(),
        ensures
            count == count_dirty(self@),
    {
        self.bits.dirty_block_count() as u64
    }

    /// The indices of all dirty blocks in ascending order.
    pub fn iter_dirty(&self) -> (indices: Vec<usize>)
        requires
            self.wf(),
        ensures
            as_ints(indices@) == dirty_indices(self@),
    {
        self.bits.iter_dirty()
    }

    /// The serialized form: one bit per block, block `8 * k` in the least significant
    /// bit of byte `k`.
    pub fn serialize(&self) -> (bytes: Vec<u8>)
        requires
            self.wf(),
        ensures
            bytes@ == packed(self@),
    {
        let n = self.bits.num_blocks();
        let num_bytes = n / 8 + if n % 8 == 0 {
            0usize
        } else {
            1usize
        };
        let mut bytes: Vec<u8> = Vec::new();
        let mut k: usize = 0;
        while k < num_bytes
            invariant
                self.wf(),
                k <= num_bytes,
                num_bytes == div_up(self@.len() as int, 8),
                num_bytes <= usize::MAX / 8 + 1,
                bytes@ =~= packed(self@).take(k as int),
            decreases num_bytes - k,
        {
            bytes.push(self.packed_byte(k as u64));
            k += 1;
        }
        bytes
    }

    /// The flags of blocks `8 * k` to `8 * k + 7` in a byte.
    fn packed_byte(&self, k: u64) -> (byte: u8)
        requires
            self.wf(),
            k < 0x2000_0000_0000_0000,
        ensures
            byte == packed_byte(self@, k as int),
    {
        (if self.is_set(8 * k) { 1u8 } else { 0 }) | (if self.is_set(8 * k + 1) { 2u8 } else { 0 }) | (
        if self.is_set(8 * k + 2) { 4u8 } else { 0 }) | (if self.is_set(8 * k + 3) { 8u8 } else { 0 })
            | (if self.is_set(8 * k + 4) { 16u8 } else { 0 }) | (if self.is_set(8 * k + 5) {
            32u8
        } else {
            0
        }) | (if self.is_set(8 * k + 6) { 64u8 } else { 0 }) | (if self.is_set(8 * k + 7) {
            128u8
        } else {
            0
        })
    }

    /// Read back a serialized bitmap. Padding bits are ignored.
    pub fn deserialize(bytes: &[u8], block_size: u32, total_blocks: u64) -> (r: Result<
        Self,
        DirtyBitmapError,
    >)
        ensures
            match r {
                Ok(bitmap) => {
                    &&& deserialized(bytes@, block_size, total_blocks) == Ok::<_, DirtyBitmapError>(bitmap@)
                    &&& bitmap.wf()
                    &&& bitmap.granularity() == block_size
                },
                Err(e) => deserialized(bytes@, block_size, total_blocks) == Err::<Seq<bool>, _>(e),
            },
    {
        if !is_valid_block_size(block_size) {
            return Err(DirtyBitmapError::InvalidBlockSize(block_size));
        }
        if total_blocks == 0 {
            return Err(DirtyBitmapError::ZeroDiskSize);
        }
        let expected: u64 = (total_blocks - 1) / 8 + 1;
        if bytes.len() as u64 != expected {
            return Err(DirtyBitmapError::LengthMismatch { expected, actual: bytes.len() as u64 });
        }
        if total_blocks > usize::MAX as u64 {
            return Err(DirtyBitmapError::TooManyBlocks(total_blocks));
        }
        let n = total_blocks as usize;
        let mut bits = DirtyBitmap::new(n);
        let mut i: usize = 0;
        while i < n
            invariant
                bits.wf(),
                bits@.len() == n,
                n == total_blocks,
                i <= n,
                bytes@.len() == div_up(n as int, 8),
                forall|j: int| 0 <= j < i ==> #[trigger] bits@[j] == byte_bit(bytes@[j / 8], j % 8),
                forall|j: int| i <= j < n ==> !#[trigger] bits@[j],
            decreases n - i,
        {
            if (bytes[i / 8] >> ((i % 8) as u8)) & 1 == 1 {
                bits.set(i);
            }
            i += 1;
        }
        assert(bits@ =~= unpacked(bytes@, n as nat));
        Ok(Self { bits, block_size })
    }
}

/// After a range on the disk was marked, all of its blocks are dirty.
pub proof fn law_marked_range_is_dirty(bits: Seq<bool>, block_size: int, offset: int, len: int)
    requires
        block_size > 0,
        0 <= offset,
        0 < len,
        offset + len <= bits.len() * block_size,
    ensures
        range_uniform(
            Seq::new(bits.len(), |b: int| bits[b] || touches(b, block_size, offset, len)),
            block_size,
            offset,
            len,
        ) == Some(true),
{
    let now = Seq::new(bits.len(), |b: int| bits[b] || touches(b, block_size, offset, len));
    let n = bits.len() as int;
    assert forall|b: int| #[trigger] touches(b, block_size, offset, len) implies block_dirty(
        now,
        b,
    ) by {
        assert(0 <= b < n) by (nonlinear_arith)
            requires
                block_size > 0,
                0 <= offset,
                offset + len <= n * block_size,
                b * block_size < offset + len,
                offset < (b + 1) * block_size,
        ;
    }
    let first = offset / block_size;
    lemma_touched_blocks(first, block_size, offset, len);
    assert(first <= (offset + len - 1) / block_size) by (nonlinear_arith)
        requires
            block_size > 0,
            0 < len,
            first == offset / block_size,
    ;
    assert(touches(first, block_size, offset, len));
}

/// The block sizes are the powers of two from 512 on.
pub proof fn law_block_sizes_are_powers_of_two(block_size: u32)
    ensures
        valid_block_size(block_size) <==> exists|k: nat| 9 <= k <= 31 && block_size == #[trigger] pow2(k),
{
    let x = block_size;
    lemma2_to64();
    if valid_block_size(x) {
        assert(x == 0x200 || x == 0x400 || x == 0x800 || x == 0x1000 || x == 0x2000 || x == 0x4000
            || x == 0x8000 || x == 0x1_0000 || x == 0x2_0000 || x == 0x4_0000 || x == 0x8_0000 || x
            == 0x10_0000 || x == 0x20_0000 || x == 0x40_0000 || x == 0x80_0000 || x == 0x100_0000
            || x == 0x200_0000 || x == 0x400_0000 || x == 0x800_0000 || x == 0x1000_0000 || x
            == 0x2000_0000 || x == 0x4000_0000 || x == 0x8000_0000) by (bit_vector)
            requires
                x >= 512,
                x & ((x - 1) as u32) == 0,
        ;
        assert(exists|k: nat| 9 <= k <= 31 && x == #[trigger] pow2(k));
    }
    if exists|k: nat| 9 <= k <= 31 && x == #[trigger] pow2(k) {
        let k = choose|k: nat| 9 <= k <= 31 && x == #[trigger] pow2(k);
        let s = k as u32;
        vstd::bits::lemma_u32_shl_is_mul(1u32, s);
        assert(x == 1u32 << s);
        assert(x >= 512 && x & ((x - 1) as u32) == 0) by (bit_vector)
            requires
                x == 1u32 << s,
                9 <= s <= 31,
        ;
    }
}

/// A disk of `size` bytes takes the smallest number of blocks that hold it.
pub proof fn law_blocks_hold_disk(size: int, block_size: int)
    requires
        0 <= size,
        0 < block_size,
    ensures
        size <= div_up(size, block_size) * block_size,
        (div_up(size, block_size) - 1) * block_size < size,
        0 <= div_up(size, block_size),
{
    let n = div_up(size, block_size);
    assert(size <= n * block_size && (n - 1) * block_size < size && 0 <= n) by (nonlinear_arith)
        requires
            0 <= size,
            0 < block_size,
            n == (size + block_size - 1) / block_size,
    ;
}

/// A range touches exactly the blocks that one of its bytes lies in.
pub proof fn law_touched_blocks_hold_a_byte(
    b: int,
    block_size: int,
    offset: int,
    len: int,
    i: int,
)
    requires
        0 < block_size,
        0 <= offset,
    ensures
        touches(b, block_size, offset, len) <==> len > 0 && offset / block_size <= b <= (offset
            + len - 1) / block_size,
        offset <= i < offset + len ==> touches(i / block_size, block_size, offset, len),
{
    if len > 0 {
        lemma_touched_blocks(b, block_size, offset, len);
    }
    let q = i / block_size;
    assert(q * block_size <= i < (q + 1) * block_size) by (nonlinear_arith)
        requires
            0 < block_size,
            q == i / block_size,
    ;
}

/// A block past the end of the disk is never dirty, and any other is as its flag says.
pub proof fn law_block_dirty(bits: Seq<bool>, b: int)
    ensures
        0 <= b < bits.len() ==> block_dirty(bits, b) == bits[b],
        b < 0 || b >= bits.len() ==> !block_dirty(bits, b),
{
}

/// A range is uniformly dirty when every block from that of its first byte to that of its
/// last exists and is dirty, uniformly clean when none of them is dirty, and else mixed.
pub proof fn law_uniform_ranges(bits: Seq<bool>, block_size: int, offset: int, len: int)
    requires
        0 < block_size,
        0 <= offset,
        0 < len,
    ensures
        ({
            let first = offset / block_size;
            let last = (offset + len - 1) / block_size;
            let r = range_uniform(bits, block_size, offset, len);
            &&& r == Some(true) <==> last < bits.len() && forall|b: int|
                first <= b <= last ==> #[trigger] bits[b]
            &&& r == Some(false) <==> forall|b: int|
                first <= b <= last && b < bits.len() ==> !#[trigger] bits[b]
            &&& range_uniform(bits, block_size, offset, 0) == Some(false)
        }),
{
    let first = offset / block_size;
    let last = (offset + len - 1) / block_size;
    assert(0 <= first <= last) by (nonlinear_arith)
        requires
            0 < block_size,
            0 <= offset,
            0 < len,
            first == offset / block_size,
            last == (offset + len - 1) / block_size,
    ;
    assert forall|b: int| #[trigger] touches(b, block_size, offset, len) <==> first <= b <= last by {
        lemma_touched_blocks(b, block_size, offset, len);
    }
    assert(touches(first, block_size, offset, len) && touches(last, block_size, offset, len));
    let r = range_uniform(bits, block_size, offset, len);
    if last < bits.len() && forall|b: int| first <= b <= last ==> #[trigger] bits[b] {
        assert(block_dirty(bits, first));
    }
    if forall|b: int| first <= b <= last && b < bits.len() ==> !#[trigger] bits[b] {
        assert forall|b: int| #[trigger] touches(b, block_size, offset, len) implies !block_dirty(
            bits,
            b,
        ) by {}
    }
    if r == Some(false) {
        assert forall|b: int| first <= b <= last && b < bits.len() implies !#[trigger] bits[b] by {
            assert(touches(b, block_size, offset, len));
        }
    }
    if r == Some(true) {
        assert forall|b: int| first <= b <= last implies #[trigger] bits[b] by {
            assert(touches(b, block_size, offset, len));
        }
    }
}

/// In the serialized form block `i` is bit `i % 8` of byte `i / 8`. The form has no more
/// bytes than it needs, and the bits past the last block are clear.
pub proof fn law_packed_bits(bits: Seq<bool>, i: int)
    ensures
        packed(bits).len() == (bits.len() + 7) / 8,
        0 <= i < 8 * packed(bits).len() ==> ((packed(bits)[i / 8] >> ((i % 8) as u8)) & 1u8 == 1u8
            <==> i < bits.len() && bits[i]),
{
    if 0 <= i < 8 * packed(bits).len() {
        lemma_packed_bit(bits, i);
    }
}

/// Serialized bytes are a bitmap exactly when the block size is a power of two from 512
/// on, there is a block, and the bytes are just as many as the blocks need. Block `i` of it
/// is bit `i % 8` of byte `i / 8`.
pub proof fn law_deserialized(bytes: Seq<u8>, block_size: u32, total_blocks: u64, i: int)
    ensures
        ({
            let good = exists|k: nat| 9 <= k <= 31 && block_size == #[trigger] pow2(k);
            let needed = (total_blocks + 7) / 8;
            match deserialized(bytes, block_size, total_blocks) {
                Ok(bits) => {
                    &&& good
                    &&& total_blocks > 0
                    &&& bytes.len() == needed
                    &&& total_blocks <= usize::MAX
                    &&& bits.len() == total_blocks
                    &&& 0 <= i < total_blocks ==> (bits[i] <==> (bytes[i / 8] >> ((i % 8) as u8))
                        & 1u8 == 1u8)
                },
                Err(DirtyBitmapError::InvalidBlockSize(bad)) => !good && bad == block_size,
                Err(DirtyBitmapError::ZeroDiskSize) => good && total_blocks == 0,
                Err(DirtyBitmapError::LengthMismatch { expected, actual }) => {
                    &&& good
                    &&& total_blocks > 0
                    &&& bytes.len() != needed
                    &&& expected == needed
                    &&& bytes.len() <= u64::MAX ==> actual == bytes.len()
                },
                Err(DirtyBitmapError::TooManyBlocks(n)) => {
                    &&& good
                    &&& bytes.len() == needed
                    &&& n == total_blocks > usize::MAX
                },
            }
        }),
{
    law_block_sizes_are_powers_of_two(block_size);
}

/// A disk gets a bitmap exactly when its block size is a power of two from 512 on, it has a
/// byte, and its blocks can be counted. The blocks are the fewest that hold it, all clean.
pub proof fn law_new_bitmap(
    disk_size: u64,
    block_size: u32,
    r: Result<DiskBitmap, DirtyBitmapError>,
    b: int,
)
    requires
        call_ensures(DiskBitmap::new, (disk_size, block_size), r),
    ensures
        r is Ok ==> (exists|k: nat| 9 <= k <= 31 && block_size == #[trigger] pow2(k)) && disk_size
            > 0,
        r matches Ok(bitmap) ==> {
            &&& bitmap.granularity() == block_size
            &&& (bitmap@.len() - 1) * block_size < disk_size <= bitmap@.len() * block_size
            &&& 0 <= b < bitmap@.len() ==> !bitmap@[b]
        },
        r matches Err(e) ==> match e {
            DirtyBitmapError::InvalidBlockSize(bad) => bad == block_size && !(exists|k: nat|
                9 <= k <= 31 && block_size == #[trigger] pow2(k)),
            DirtyBitmapError::ZeroDiskSize => disk_size == 0,
            DirtyBitmapError::TooManyBlocks(n) => n > usize::MAX,
            DirtyBitmapError::LengthMismatch { .. } => false,
        },
{
    law_block_sizes_are_powers_of_two(block_size);
    if r is Ok {
        law_blocks_hold_disk(disk_size as int, block_size as int);
    }
}

/// A block is found dirty exactly when it exists and is dirty.
pub proof fn law_is_set(bitmap: DiskBitmap, block: u64, dirty: bool)
    requires
        call_ensures(DiskBitmap::is_set, (&bitmap, block), dirty),
    ensures
        dirty <==> block < bitmap@.len() && bitmap@[block as int],
{
}

} // verus!
