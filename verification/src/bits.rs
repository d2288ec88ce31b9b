//! Single bits of machine words.
use vstd::arithmetic::power2::pow2;
use vstd::bits::lemma_u64_shr_is_div;
use vstd::prelude::*;

verus! {

/// Bit `i` of `w`, counted from the least significant end.
pub open spec fn bit_at(w: u64, i: int) -> bool {
    0 <= i < 64 && (w >> (i as u64)) & 1u64 == 1u64
}

/// How many of the lowest `n` bits of `w` are set.
pub open spec fn ones_below(w: u64, n: nat) -> nat
    decreases n,
{
    if n == 0 {
        0
    } else {
        ones_below(w, (n - 1) as nat) + if bit_at(w, n - 1) {
            1nat
        } else {
            0nat
        }
    }
}

/// `u64::count_ones` of the standard library: the number of ones in the binary
/// representation of `w`.
pub assume_specification[ u64::count_ones ](w: u64) -> (r: u32)
    ensures
        r == ones_below(w, 64),
;

/// No bit of zero is set.
pub proof fn lemma_zero_word(i: int)
    ensures
        !bit_at(0, i),
{
    let k = i as u64;
    assert((0u64 >> k) & 1u64 == 0u64) by (bit_vector);
}

/// Setting bit `k` leaves every other bit alone.
pub proof fn lemma_set_bit(w: u64, k: u64, i: int)
    requires
        k < 64,
    ensures
        bit_at(w | (1u64 << k), i) == (bit_at(w, i) || i == k),
{
    if 0 <= i < 64 {
        let j = i as u64;
        assert(((w | (1u64 << k)) >> j) & 1u64 == 1u64 <==> ((w >> j) & 1u64 == 1u64 || j == k))
            by (bit_vector)
            requires
                k < 64,
                j < 64,
        ;
    }
}

/// Clearing bit `k` leaves every other bit alone.
pub proof fn lemma_clear_bit(w: u64, k: u64, i: int)
    requires
        k < 64,
    ensures
        bit_at(w & !(1u64 << k), i) == (bit_at(w, i) && i != k),
{
    if 0 <= i < 64 {
        let j = i as u64;
        assert(((w & !(1u64 << k)) >> j) & 1u64 == 1u64 <==> ((w >> j) & 1u64 == 1u64 && j != k))
            by (bit_vector)
            requires
                k < 64,
                j < 64,
        ;
    }
}

/// Bit `i` of a word is the `i`th digit of its value in base two.
pub proof fn law_bit_is_binary_digit(w: u64, i: nat)
    requires
        i < 64,
    ensures
        bit_at(w, i as int) <==> (w as nat / pow2(i)) % 2 == 1,
{
    let k = i as u64;
    lemma_u64_shr_is_div(w, k);
    let v = w >> k;
    assert(v & 1u64 == v % 2) by (bit_vector);
}

} // verus!
