//! Decimal numbers in text.
use vstd::prelude::*;
use vstd::utf8::{decode_utf8, encode_utf8, valid_utf8};

verus! {

/// Unicode white space.
pub open spec fn is_white(c: char) -> bool {
    let u = c as u32;
    ||| 0x09 <= u <= 0x0D
    ||| u == 0x20
    ||| u == 0x85
    ||| u == 0xA0
    ||| u == 0x1680
    ||| 0x2000 <= u <= 0x200A
    ||| u == 0x2028
    ||| u == 0x2029
    ||| u == 0x202F
    ||| u == 0x205F
    ||| u == 0x3000
}

/// `s` without the white space that it starts with.
pub open spec fn trim_start(s: Seq<char>) -> Seq<char>
    decreases s.len(),
{
    if s.len() > 0 && is_white(s[0]) {
        trim_start(s.skip(1))
    } else {
        s
    }
}

/// `s` without the white space that it ends with.
pub open spec fn trim_end(s: Seq<char>) -> Seq<char>
    decreases s.len(),
{
    if s.len() > 0 && is_white(s.last()) {
        trim_end(s.drop_last())
    } else {
        s
    }
}

/// `s` without the white space around it.
pub open spec fn trimmed(s: Seq<char>) -> Seq<char> {
    trim_end(trim_start(s))
}

/// A decimal digit.
pub open spec fn is_digit(c: char) -> bool {
    '0' <= c <= '9'
}

/// `s` is made of decimal digits.
pub open spec fn all_digits(s: Seq<char>) -> bool {
    forall|i: int| 0 <= i < s.len() ==> is_digit(#[trigger] s[i])
}

/// The number that the digits `s` stand for.
pub open spec fn digits_value(s: Seq<char>) -> int
    decreases s.len(),
{
    if s.len() == 0 {
        0
    } else {
        10 * digits_value(s.drop_last()) + (s.last() as int - '0' as int)
    }
}

/// `s` without a plus sign in front.
pub open spec fn unsigned_part(s: Seq<char>) -> Seq<char> {
    if s.len() > 0 && s[0] == '+' {
        s.skip(1)
    } else {
        s
    }
}

/// The number that `s` reads as: digits, with or without a plus sign in front, that
/// 64 bits hold.
pub open spec fn parsed_u64(s: Seq<char>) -> Option<u64> {
    let digits = unsigned_part(s);
    if digits.len() > 0 && all_digits(digits) && digits_value(digits) <= u64::MAX {
        Some(digits_value(digits) as u64)
    } else {
        None
    }
}

/// The digit of `d`.
pub open spec fn digit_char(d: int) -> char {
    ('0' as int + d) as char
}

/// `n` in decimal, without leading zeros.
pub open spec fn decimal(n: nat) -> Seq<char>
    decreases n,
{
    if n < 10 {
        seq![digit_char(n as int)]
    } else {
        decimal(n / 10).push(digit_char((n % 10) as int))
    }
}

/// Whether `c` is white space.
pub fn white(c: char) -> (r: bool)
    ensures
        r == is_white(c),
{
    let u = c as u32;
    (0x09 <= u && u <= 0x0D) || u == 0x20 || u == 0x85 || u == 0xA0 || u == 0x1680 || (0x2000 <= u
        && u <= 0x200A) || u == 0x2028 || u == 0x2029 || u == 0x202F || u == 0x205F || u == 0x3000
}

/// The characters of `s`.
pub fn chars_of(s: &str) -> (chars: Vec<char>)
    ensures
        chars@ == s@,
{
    broadcast use vstd::string::group_string_axioms;

    let mut chars: Vec<char> = Vec::new();
    for c in it: s.chars()
        invariant
            chars@ == it.seq().take(it.index()),
            it.seq() == s@,
    {
        chars.push(c);
    }
    assert(s@.take(s@.len() as int) =~= s@);
    chars
}

/// Whether `a` and `b` are the same text.
pub fn same_text(a: &str, b: &str) -> (same: bool)
    ensures
        same == (a@ == b@),
{
    let left = chars_of(a);
    let right = chars_of(b);
    if left.len() != right.len() {
        return false;
    }
    let mut i: usize = 0;
    while i < left.len()
        invariant
            i <= left@.len(),
            left@ == a@,
            right@ == b@,
            left@.len() == right@.len(),
            forall|k: int| 0 <= k < i ==> left@[k] == right@[k],
        decreases left@.len() - i,
    {
        if left[i] != right[i] {
            return false;
        }
        i += 1;
    }
    assert(a@ =~= b@);
    true
}

/// Where `s` starts and ends without the white space around it.
pub fn trim_bounds(s: &[char]) -> (r: (usize, usize))
    ensures
        r.0 <= r.1 <= s@.len(),
        s@.subrange(r.0 as int, r.1 as int) == trimmed(s@),
{
    let mut start: usize = 0;
    assert(s@.skip(0) =~= s@);
    while start < s.len() && white(s[start])
        invariant
            start <= s@.len(),
            trim_start(s@.skip(start as int)) == trim_start(s@),
        decreases s@.len() - start,
    {
        assert(s@.skip(start as int).skip(1) =~= s@.skip(start + 1));
        start += 1;
    }
    let ghost rest = s@.skip(start as int);
    assert(trim_start(s@) == rest);
    let mut end: usize = s.len();
    assert(s@.subrange(start as int, end as int) =~= rest);
    while start < end && white(s[end - 1])
        invariant
            start <= end <= s@.len(),
            trim_end(s@.subrange(start as int, end as int)) == trim_end(rest),
        decreases end - start,
    {
        let ghost now = s@.subrange(start as int, end as int);
        assert(now.drop_last() =~= s@.subrange(start as int, end - 1));
        end -= 1;
    }
    (start, end)
}

/// A longer number is no smaller.
proof fn lemma_digits_grow(s: Seq<char>, n: int)
    requires
        all_digits(s),
        0 <= n <= s.len(),
    ensures
        0 <= digits_value(s.take(n)) <= digits_value(s),
    decreases s.len() - n,
{
    if n == s.len() {
        assert(s.take(n) =~= s);
        lemma_digits_nonnegative(s);
    } else {
        lemma_digits_grow(s, n + 1);
        assert(s.take(n + 1).drop_last() =~= s.take(n));
        assert(is_digit(s[n]));
        lemma_digits_nonnegative(s.take(n));
    }
}

proof fn lemma_digits_nonnegative(s: Seq<char>)
    requires
        all_digits(s),
    ensures
        0 <= digits_value(s),
    decreases s.len(),
{
    if s.len() > 0 {
        assert(is_digit(s[s.len() - 1]));
        assert forall|i: int| 0 <= i < s.drop_last().len() implies is_digit(
            #[trigger] s.drop_last()[i],
        ) by {
            assert(is_digit(s[i]));
        }
        lemma_digits_nonnegative(s.drop_last());
    }
}

/// Read the number in `s[from..to]`.
pub fn parse_u64(s: &[char], from: usize, to: usize) -> (r: Option<u64>)
    requires
        from <= to <= s@.len(),
    ensures
        r == parsed_u64(s@.subrange(from as int, to as int)),
{
    let ghost all = s@.subrange(from as int, to as int);
    let start = if from < to && s[from] == '+' {
        from + 1
    } else {
        from
    };
    let ghost digits = unsigned_part(all);
    assert(digits =~= s@.subrange(start as int, to as int));
    if start == to {
        return None;
    }
    let mut value: u64 = 0;
    let mut i: usize = start;
    while i < to
        invariant
            start <= i <= to <= s@.len(),
            digits == s@.subrange(start as int, to as int),
            digits == unsigned_part(s@.subrange(from as int, to as int)),
            forall|k: int| 0 <= k < i - start ==> is_digit(#[trigger] digits[k]),
            value == digits_value(digits.take(i - start)),
        decreases to - i,
    {
        let c = s[i];
        let ghost k = i - start;
        assert(digits[k] == c);
        if c < '0' || c > '9' {
            return None;
        }
        let d = c as u64 - 0x30;
        proof {
            assert(digits.take(k + 1).drop_last() =~= digits.take(k));
            assert(digits_value(digits.take(k + 1)) == 10 * value + d);
        }
        if value > (u64::MAX - d) / 10 {
            proof {
                if all_digits(digits) {
                    lemma_digits_grow(digits, k + 1);
                }
            }
            return None;
        }
        value = 10 * value + d;
        i += 1;
    }
    assert(digits.take(to - start) =~= digits);
    Some(value)
}

/// `std::str::from_utf8` of the standard library: bytes that are valid UTF-8 are a
/// string of the characters that they encode, other bytes are no string.
#[verifier::external_body]
fn utf8_str(bytes: &[u8]) -> (r: Option<&str>)
    ensures
        r is Some <==> valid_utf8(bytes@),
        r is Some ==> r->0@ == decode_utf8(bytes@),
{
    std::str::from_utf8(bytes).ok()
}

/// The characters that `bytes` encode, if they are valid UTF-8.
pub fn decode(bytes: &[u8]) -> (r: Option<Vec<char>>)
    ensures
        r is Some <==> valid_utf8(bytes@),
        r is Some ==> r->0@ == decode_utf8(bytes@),
{
    match utf8_str(bytes) {
        Some(s) => Some(chars_of(s)),
        None => None,
    }
}

/// An ASCII character is encoded as one byte.
pub proof fn lemma_encode_push(s: Seq<char>, c: char)
    requires
        (c as u32) < 0x80,
    ensures
        encode_utf8(s.push(c)) == encode_utf8(s).push(c as u8),
    decreases s.len(),
{
    let all = s.push(c);
    if s.len() == 0 {
        assert(all.drop_first() =~= Seq::<char>::empty());
        assert(encode_utf8(Seq::<char>::empty()) =~= Seq::<u8>::empty());
        reveal_with_fuel(encode_utf8, 2);
        let u = c as u32;
        assert(u & 0x7f == u) by (bit_vector)
            requires
                u < 0x80,
        ;
        assert(encode_utf8(all) =~= encode_utf8(s).push(c as u8));
    } else {
        assert(all.drop_first() =~= s.drop_first().push(c));
        lemma_encode_push(s.drop_first(), c);
        assert(encode_utf8(all) =~= encode_utf8(s).push(c as u8));
    }
}

/// Append `n` in decimal to `out`.
pub fn push_decimal(out: &mut Vec<u8>, n: u64)
    ensures
        final(out)@ == old(out)@ + encode_utf8(decimal(n as nat)),
    decreases n,
{
    let d = (n % 10) as u8;
    proof {
        let c = digit_char(d as int);
        assert(c as u8 == 0x30 + d);
        if n < 10 {
            assert(decimal(n as nat) =~= Seq::<char>::empty().push(c));
            lemma_encode_push(Seq::empty(), c);
        } else {
            lemma_encode_push(decimal((n / 10) as nat), c);
        }
        assert(encode_utf8(Seq::<char>::empty()) =~= Seq::<u8>::empty());
    }
    if n >= 10 {
        push_decimal(out, n / 10);
    }
    out.push(0x30 + d);
    assert(out@ =~= old(out)@ + encode_utf8(decimal(n as nat)));
}

/// `n` in decimal is made of digits that stand for `n`.
proof fn lemma_decimal_value(n: nat)
    ensures
        decimal(n).len() > 0,
        all_digits(decimal(n)),
        digits_value(decimal(n)) == n,
    decreases n,
{
    let s = decimal(n);
    if n < 10 {
        assert(s.drop_last() =~= Seq::<char>::empty());
        reveal_with_fuel(digits_value, 2);
    } else {
        lemma_decimal_value(n / 10);
        assert(s.drop_last() =~= decimal(n / 10));
        assert forall|i: int| 0 <= i < s.len() implies is_digit(#[trigger] s[i]) by {
            if i < s.len() - 1 {
                assert(s[i] == decimal(n / 10)[i]);
            }
        }
    }
}

/// A number written in decimal reads as itself, and has no white space around it.
pub proof fn law_parse_decimal(n: u64)
    ensures
        trimmed(decimal(n as nat)) == decimal(n as nat),
        is_digit(decimal(n as nat)[0]),
        decimal(n as nat).len() > 0,
        parsed_u64(decimal(n as nat)) == Some(n),
{
    let s = decimal(n as nat);
    lemma_decimal_value(n as nat);
    assert(is_digit(s[0]) && is_digit(s[s.len() - 1]));
}

/// White space is what Unicode calls so: the ASCII controls from tab to carriage return and
/// the space, and outside of ASCII eight single characters and the run from U+2000 to U+200A.
pub proof fn law_white_space(c: char)
    ensures
        is_white(c) <==> ({
            let u = c as int;
            u == 9 || u == 10 || u == 11 || u == 12 || u == 13 || u == 32 || u == 0x85 || u == 0xA0
                || u == 0x1680 || 0x2000 <= u < 0x200B || u == 0x2028 || u == 0x2029 || u == 0x202F
                || u == 0x205F || u == 0x3000
        }),
{
}

/// Trimming takes off all white space at both ends, and nothing else.
pub proof fn law_trimmed(s: Seq<char>)
    ensures
        exists|i: int, j: int|
            {
                &&& 0 <= i <= j <= s.len()
                &&& trimmed(s) == #[trigger] s.subrange(i, j)
                &&& forall|k: int| 0 <= k < i ==> is_white(#[trigger] s[k])
                &&& forall|k: int| j <= k < s.len() ==> is_white(#[trigger] s[k])
                &&& i < j ==> !is_white(s[i]) && !is_white(s[j - 1])
            },
{
    let i = lemma_trim_start(s);
    let t = trim_start(s);
    let n = lemma_trim_end(t);
    assert(trimmed(s) =~= s.subrange(i, i + n));
    assert forall|k: int| i + n <= k < s.len() implies is_white(#[trigger] s[k]) by {
        assert(t[k - i] == s[k]);
    }
    if n > 0 {
        assert(t[0] == s[i] && t[n - 1] == s[i + n - 1]);
    }
}

/// How much trimming takes off the start.
proof fn lemma_trim_start(s: Seq<char>) -> (i: int)
    ensures
        0 <= i <= s.len(),
        trim_start(s) == s.skip(i),
        forall|k: int| 0 <= k < i ==> is_white(#[trigger] s[k]),
        i < s.len() ==> !is_white(s[i]),
    decreases s.len(),
{
    if s.len() > 0 && is_white(s[0]) {
        let rest = s.skip(1);
        let i = lemma_trim_start(rest);
        assert(rest.skip(i) =~= s.skip(i + 1));
        assert forall|k: int| 0 <= k < i + 1 implies is_white(#[trigger] s[k]) by {
            if k > 0 {
                assert(rest[k - 1] == s[k]);
            }
        }
        i + 1
    } else {
        assert(s.skip(0) =~= s);
        0
    }
}

/// How much trimming leaves before the end.
proof fn lemma_trim_end(s: Seq<char>) -> (n: int)
    ensures
        0 <= n <= s.len(),
        trim_end(s) == s.take(n),
        forall|k: int| n <= k < s.len() ==> is_white(#[trigger] s[k]),
        n > 0 ==> !is_white(s[n - 1]),
    decreases s.len(),
{
    if s.len() > 0 && is_white(s.last()) {
        let front = s.drop_last();
        let n = lemma_trim_end(front);
        assert(front.take(n) =~= s.take(n));
        assert forall|k: int| n <= k < s.len() implies is_white(#[trigger] s[k]) by {
            if k < s.len() - 1 {
                assert(front[k] == s[k]);
            }
        }
        n
    } else {
        assert(s.take(s.len() as int) =~= s);
        s.len() as int
    }
}

/// What text reads as, one character after the other. A digit alone reads as its value. A
/// digit behind a number makes it ten times as large and adds its value, unless 64 bits do
/// not hold that. What does not end in a digit, or does not read as a number without its last
/// digit, does not read as a number; but for one plus sign in front, which changes nothing.
pub proof fn law_parsed_digit_by_digit(s: Seq<char>, c: char)
    ensures
        parsed_u64(Seq::empty()) is None,
        48 <= c as int <= 57 ==> parsed_u64(seq![c]) == Some((c as int - 48) as u64),
        48 <= c as int <= 57 ==> parsed_u64(seq!['+', c]) == Some((c as int - 48) as u64),
        !(48 <= c as int <= 57) ==> parsed_u64(s.push(c)) is None,
        48 <= c as int <= 57 ==> (parsed_u64(s) matches Some(v) ==> if 10 * v + (c as int - 48)
            <= u64::MAX {
            parsed_u64(s.push(c)) == Some((10 * v + (c as int - 48)) as u64)
        } else {
            parsed_u64(s.push(c)) is None
        }),
        s.len() > 0 && s != seq!['+'] && parsed_u64(s) is None ==> parsed_u64(s.push(c)) is None,
{
    let all = s.push(c);
    let digits = unsigned_part(all);
    assert(unsigned_part(seq![c]) =~= if c == '+' {
        Seq::empty()
    } else {
        seq![c]
    });
    assert(seq!['+', c].skip(1) =~= seq![c]);
    assert(seq![c].drop_last() =~= Seq::<char>::empty());
    reveal_with_fuel(digits_value, 2);
    if 48 <= c as int <= 57 {
        assert(all_digits(seq![c]));
    }
    if !(48 <= c as int <= 57) {
        if digits.len() > 0 {
            assert(digits[digits.len() - 1] == c);
            assert(!is_digit(digits[digits.len() - 1]));
        }
    } else if s.len() > 0 {
        let before = unsigned_part(s);
        assert(digits =~= before.push(c));
        assert(digits.drop_last() =~= before);
        if all_digits(before) {
            assert forall|i: int| 0 <= i < digits.len() implies is_digit(#[trigger] digits[i]) by {
                if i < before.len() {
                    assert(digits[i] == before[i]);
                }
            }
            lemma_digits_nonnegative(before);
        } else {
            let k = choose|k: int| 0 <= k < before.len() && !is_digit(#[trigger] before[k]);
            assert(digits[k] == before[k]);
        }
        if before.len() == 0 {
            assert(s =~= seq!['+']);
        }
    }
}

/// A number below ten is written as its digit, and any other as what is written for a tenth
/// of it, followed by the digit of the remainder.
pub proof fn law_decimal_digit_by_digit(n: nat, d: nat)
    requires
        d < 10,
    ensures
        decimal(d) == seq![(48 + d) as char],
        n > 0 ==> decimal(10 * n + d) == decimal(n).push((48 + d) as char),
{
    if n > 0 {
        assert((10 * n + d) / 10 == n && (10 * n + d) % 10 == d);
    }
}

} // verus!
