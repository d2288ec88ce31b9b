//! Little-endian integers in byte buffers.
use vstd::prelude::*;

verus! {

/// The four bytes of `x`, least significant first.
#[verifier::opaque]
pub open spec fn le4(x: u32) -> Seq<u8> {
    seq![
        (x % 0x100) as u8,
        (x / 0x100 % 0x100) as u8,
        (x / 0x1_0000 % 0x100) as u8,
        (x / 0x100_0000) as u8,
    ]
}

/// The eight bytes of `x`, least significant first.
#[verifier::opaque]
pub open spec fn le8(x: u64) -> Seq<u8> {
    le4((x % 0x1_0000_0000) as u32) + le4((x / 0x1_0000_0000) as u32)
}

/// The integer whose bytes, least significant first, are `b[at..at + 4]`.
#[verifier::opaque]
pub open spec fn u32_at(b: Seq<u8>, at: int) -> u32 {
    (b[at] + 0x100 * b[at + 1] + 0x1_0000 * b[at + 2] + 0x100_0000 * b[at + 3]) as u32
}

/// The integer whose bytes, least significant first, are `b[at..at + 8]`.
#[verifier::opaque]
pub open spec fn u64_at(b: Seq<u8>, at: int) -> u64 {
    (u32_at(b, at) + 0x1_0000_0000 * u32_at(b, at + 4)) as u64
}

/// How many bytes an integer takes.
pub proof fn lemma_le_len(x: u32, y: u64)
    ensures
        le4(x).len() == 4,
        le8(y).len() == 8,
{
    reveal(le4);
    reveal(le8);
}

/// Decoding what `le4` wrote gives the integer back.
pub proof fn lemma_le4(x: u32, b: Seq<u8>, at: int)
    requires
        0 <= at,
        at + 4 <= b.len(),
        b.subrange(at, at + 4) == le4(x),
    ensures
        u32_at(b, at) == x,
{
    reveal(le4);
    reveal(u32_at);
    let s = b.subrange(at, at + 4);
    assert(s[0] == b[at] && s[1] == b[at + 1] && s[2] == b[at + 2] && s[3] == b[at + 3]);
}

/// Decoding what `le8` wrote gives the integer back.
pub proof fn lemma_le8(x: u64, b: Seq<u8>, at: int)
    requires
        0 <= at,
        at + 8 <= b.len(),
        b.subrange(at, at + 8) == le8(x),
    ensures
        u64_at(b, at) == x,
{
    reveal(le8);
    reveal(u64_at);
    lemma_le_len(0, x);
    lemma_le_len((x % 0x1_0000_0000) as u32, 0);
    lemma_le_len((x / 0x1_0000_0000) as u32, 0);
    let s = b.subrange(at, at + 8);
    assert(s.subrange(0, 4) =~= b.subrange(at, at + 4));
    assert(s.subrange(4, 8) =~= b.subrange(at + 4, at + 8));
    assert(le8(x).subrange(0, 4) =~= le4((x % 0x1_0000_0000) as u32));
    assert(le8(x).subrange(4, 8) =~= le4((x / 0x1_0000_0000) as u32));
    lemma_le4((x % 0x1_0000_0000) as u32, b, at);
    lemma_le4((x / 0x1_0000_0000) as u32, b, at + 4);
}

/// Append `x` to `out`.
pub fn push_u32(out: &mut Vec<u8>, x: u32)
    ensures
        final(out)@ == old(out)@ + le4(x),
{
    proof {
        reveal(le4);
    }
    out.push((x % 0x100) as u8);
    out.push((x / 0x100 % 0x100) as u8);
    out.push((x / 0x1_0000 % 0x100) as u8);
    out.push((x / 0x100_0000) as u8);
    assert(out@ =~= old(out)@ + le4(x));
}

/// Append `x` to `out`.
pub fn push_u64(out: &mut Vec<u8>, x: u64)
    ensures
        final(out)@ == old(out)@ + le8(x),
{
    proof {
        reveal(le8);
    }
    push_u32(out, (x % 0x1_0000_0000) as u32);
    push_u32(out, (x / 0x1_0000_0000) as u32);
    assert(out@ =~= old(out)@ + le8(x));
}

/// The integer in `b[at..at + 4]`.
pub fn get_u32(b: &[u8], at: usize) -> (x: u32)
    requires
        at + 4 <= b.len(),
    ensures
        x == u32_at(b@, at as int),
{
    proof {
        reveal(u32_at);
    }
    b[at] as u32 + 0x100 * b[at + 1] as u32 + 0x1_0000 * b[at + 2] as u32 + 0x100_0000 * b[at
        + 3] as u32
}

/// The integer in `b[at..at + 8]`.
pub fn get_u64(b: &[u8], at: usize) -> (x: u64)
    requires
        at + 8 <= b.len(),
    ensures
        x == u64_at(b@, at as int),
{
    proof {
        reveal(u64_at);
    }
    get_u32(b, at) as u64 + 0x1_0000_0000 * get_u32(b, at + 4) as u64
}

/// The bytes of an integer are its digits in base 256, least significant first.
pub proof fn law_bytes_are_digits(x: u32, y: u64)
    ensures
        le4(x).len() == 4,
        le4(x)[0] == x % 256,
        le4(x)[1] == x / 0x100 % 256,
        le4(x)[2] == x / 0x1_0000 % 256,
        le4(x)[3] == x / 0x100_0000 % 256,
        le8(y).len() == 8,
        le8(y)[0] == y % 256,
        le8(y)[1] == y / 0x100 % 256,
        le8(y)[2] == y / 0x1_0000 % 256,
        le8(y)[3] == y / 0x100_0000 % 256,
        le8(y)[4] == y / 0x1_0000_0000 % 256,
        le8(y)[5] == y / 0x100_0000_0000 % 256,
        le8(y)[6] == y / 0x1_0000_0000_0000 % 256,
        le8(y)[7] == y / 0x100_0000_0000_0000 % 256,
{
    reveal(le4);
    let (lo, hi) = ((y % 0x1_0000_0000) as u32, (y / 0x1_0000_0000) as u32);
    assert(le8(y) =~= le4(lo) + le4(hi)) by {
        reveal(le8);
    }
    assert(lo == y % 0x1_0000_0000 && hi == y / 0x1_0000_0000);
    let (l, h) = (lo as u64, hi as u64);
    assert(l % 256 == y % 256 && l / 0x100 % 256 == y / 0x100 % 256 && l / 0x1_0000 % 256 == y
        / 0x1_0000 % 256 && l / 0x100_0000 % 256 == y / 0x100_0000 % 256 && h % 256 == y
        / 0x1_0000_0000 % 256 && h / 0x100 % 256 == y / 0x100_0000_0000 % 256 && h / 0x1_0000 % 256
        == y / 0x1_0000_0000_0000 % 256 && h / 0x100_0000 % 256 == y / 0x100_0000_0000_0000 % 256)
        by (bit_vector)
        requires
            l == y % 0x1_0000_0000,
            h == y / 0x1_0000_0000,
    ;
}

/// An integer is read as the sum of its bytes, each weighted by its place.
pub proof fn law_bytes_are_weighted(b: Seq<u8>, at: int)
    ensures
        u32_at(b, at) == b[at] + 0x100 * b[at + 1] + 0x1_0000 * b[at + 2] + 0x100_0000 * b[at + 3],
        u64_at(b, at) == b[at] + 0x100 * b[at + 1] + 0x1_0000 * b[at + 2] + 0x100_0000 * b[at + 3]
            + 0x1_0000_0000 * b[at + 4] + 0x100_0000_0000 * b[at + 5] + 0x1_0000_0000_0000 * b[at
            + 6] + 0x100_0000_0000_0000 * b[at + 7],
{
    reveal(u32_at);
    reveal(u64_at);
}

} // verus!
