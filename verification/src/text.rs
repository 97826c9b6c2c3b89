//! Text helpers shared by the parser, the response writer and the logger:
//! byte-level trimming, decimal formatting and parsing, and the two trusted
//! bridges to `std`'s string routines.

use vstd::prelude::*;
use vstd::utf8::{encode_utf8, valid_utf8};

verus! {

/// Appends one character to a string.
///
/// Relies on `String::push`, which appends the given `char` to the end of the
/// string.
#[verifier::external_body]
pub fn push_char(s: &mut String, c: char)
    ensures
        final(s)@ == old(s)@.push(c),
{
    s.push(c);
}

/// Decodes a byte vector as UTF-8.
///
/// Relies on `String::from_utf8`, which returns the decoded string when the
/// bytes are valid UTF-8 and an error otherwise.
#[verifier::external_body]
pub fn bytes_to_string(v: &Vec<u8>) -> (r: Option<String>)
    ensures
        (r is Some) == valid_utf8(v@),
        r matches Some(s) ==> encode_utf8(s@) == v@,
{
    String::from_utf8(v.clone()).ok()
}

/// A copy of `v[from..to]`.
pub fn subvec<T: Copy>(v: &[T], from: usize, to: usize) -> (r: Vec<T>)
    requires
        0 <= from <= to <= v@.len(),
    ensures
        r@ == v@.subrange(from as int, to as int),
{
    let mut r: Vec<T> = Vec::new();
    let mut i: usize = from;
    while i < to
        invariant
            from <= i <= to <= v@.len(),
            r@ == v@.subrange(from as int, i as int),
        decreases to - i,
    {
        r.push(v[i]);
        proof {
            assert(r@ =~= v@.subrange(from as int, i + 1 as int));
        }
        i = i + 1;
    }
    r
}

/// Whether a byte is ASCII whitespace (space, tab, carriage return, line
/// feed).
pub open spec fn is_ws(b: u8) -> bool {
    b == 32 || b == 9 || b == 13 || b == 10
}

/// Number of leading whitespace bytes of `s`.
pub open spec fn spec_ws_prefix_len(s: Seq<u8>, from: int) -> int
    decreases s.len() - from,
{
    if from < 0 || from >= s.len() {
        s.len() as int
    } else if is_ws(s[from]) {
        spec_ws_prefix_len(s, from + 1)
    } else {
        from
    }
}

/// Number of trailing whitespace bytes of `s` before index `upto`.
pub open spec fn spec_end_after_ws(s: Seq<u8>, upto: int) -> int
    decreases upto,
{
    if upto <= 0 || upto > s.len() {
        0
    } else if is_ws(s[upto - 1]) {
        spec_end_after_ws(s, upto - 1)
    } else {
        upto
    }
}

/// `s` with leading and trailing ASCII whitespace removed.
pub open spec fn spec_trim(s: Seq<u8>) -> Seq<u8> {
    let a = spec_ws_prefix_len(s, 0);
    let b = spec_end_after_ws(s, s.len() as int);
    if a <= b {
        s.subrange(a, b)
    } else {
        Seq::empty()
    }
}

/// Removes leading and trailing ASCII whitespace from a byte string.
pub fn trim_bytes(s: &[u8]) -> (r: Vec<u8>)
    ensures
        r@ == spec_trim(s@),
{
    let mut a: usize = 0;
    while a < s.len() && (s[a] == 32 || s[a] == 9 || s[a] == 13 || s[a] == 10)
        invariant
            0 <= a <= s@.len(),
            spec_ws_prefix_len(s@, 0) == spec_ws_prefix_len(s@, a as int),
        decreases s@.len() - a,
    {
        a = a + 1;
    }
    let mut b: usize = s.len();
    while b > a && (s[b - 1] == 32 || s[b - 1] == 9 || s[b - 1] == 13 || s[b - 1] == 10)
        invariant
            a <= b <= s@.len(),
            spec_ws_prefix_len(s@, 0) == a as int,
            spec_end_after_ws(s@, s@.len() as int) == spec_end_after_ws(s@, b as int),
        decreases b,
    {
        b = b - 1;
    }
    proof {
        if b == a {
            assert(spec_end_after_ws(s@, b as int) <= b as int) by {
                lemma_end_after_ws_le(s@, b as int);
            }
        }
        lemma_end_after_ws_le(s@, s@.len() as int);
        lemma_ws_prefix_ge(s@, 0);
    }
    subvec(s, a, b)
}

proof fn lemma_end_after_ws_le(s: Seq<u8>, upto: int)
    ensures
        spec_end_after_ws(s, upto) <= upto || upto < 0,
        spec_end_after_ws(s, upto) >= 0,
    decreases upto,
{
    if 0 < upto <= s.len() && is_ws(s[upto - 1]) {
        lemma_end_after_ws_le(s, upto - 1);
    }
}

proof fn lemma_ws_prefix_ge(s: Seq<u8>, from: int)
    requires
        0 <= from <= s.len(),
    ensures
        from <= spec_ws_prefix_len(s, from) <= s.len(),
    decreases s.len() - from,
{
    if from < s.len() && is_ws(s[from]) {
        lemma_ws_prefix_ge(s, from + 1);
    }
}

/// The character for a single decimal digit.
pub open spec fn spec_digit_char(d: int) -> char {
    ((d + 48) as u8) as char
}

/// The decimal representation of a natural number, most significant digit
/// first, with no leading zeros (`0` is rendered as `"0"`).
pub open spec fn spec_dec_digits(n: nat) -> Seq<char>
    decreases n,
{
    if n < 10 {
        seq![spec_digit_char(n as int)]
    } else {
        spec_dec_digits(n / 10) + seq![spec_digit_char((n % 10) as int)]
    }
}

/// Renders a number in decimal.
pub fn u64_to_string(n: u64) -> (r: String)
    ensures
        r@ == spec_dec_digits(n as nat),
    decreases n,
{
    if n < 10 {
        let d: u8 = (n as u8) + 48;
        let mut s = String::new();
        push_char(&mut s, d as char);
        proof {
            assert(s@ =~= spec_dec_digits(n as nat));
        }
        s
    } else {
        let mut s = u64_to_string(n / 10);
        let d: u8 = ((n % 10) as u8) + 48;
        push_char(&mut s, d as char);
        proof {
            assert(s@ =~= spec_dec_digits(n as nat));
        }
        s
    }
}

/// Whether every character of `s` is a decimal digit.
pub open spec fn is_dec_digits(s: Seq<char>) -> bool {
    forall|i: int| 0 <= i < s.len() ==> '0' <= #[trigger] s[i] <= '9'
}

/// The value of a digit string, most significant digit first.
pub open spec fn spec_dec_value(s: Seq<char>) -> nat
    decreases s.len(),
{
    if s.len() == 0 {
        0
    } else {
        (spec_dec_value(s.drop_last()) * 10 + (s.last() as int - 48)) as nat
    }
}

/// Parses a non-empty string of decimal digits. Returns `None` when the
/// string is empty, contains a non-digit, or encodes a value above
/// `u64::MAX`.
pub fn parse_dec(s: &str) -> (r: Option<u64>)
    ensures
        match r {
            Some(v) => is_dec_digits(s@) && s@.len() > 0 && v as nat == spec_dec_value(s@),
            None => !(is_dec_digits(s@) && s@.len() > 0 && spec_dec_value(s@) <= u64::MAX),
        },
{
    let n = s.unicode_len();
    if n == 0 {
        return None;
    }
    let mut val: u64 = 0;
    let mut i: usize = 0;
    while i < n
        invariant
            0 <= i <= n,
            n == s@.len(),
            is_dec_digits(s@.take(i as int)),
            val as nat == spec_dec_value(s@.take(i as int)),
        decreases n - i,
    {
        let c = s.get_char(i);
        if !('0' <= c && c <= '9') {
            proof {
                assert(s@[i as int] == c);
            }
            return None;
        }
        let d: u64 = (c as u8 - 48) as u64;
        if val > (u64::MAX - d) / 10 {
            proof {
                assert(spec_dec_value(s@.take(i + 1)) > u64::MAX) by {
                    assert(s@.take(i + 1).drop_last() =~= s@.take(i as int));
                    assert(s@.take(i + 1).last() == c);
                    assert(spec_dec_value(s@.take(i + 1)) == val * 10 + d);
                }
                if is_dec_digits(s@) {
                    lemma_dec_value_prefix_monotonic(s@, i + 1);
                }
            }
            return None;
        }
        proof {
            assert(s@.take(i + 1).drop_last() =~= s@.take(i as int));
            assert(s@.take(i + 1).last() == c);
        }
        val = val * 10 + d;
        i = i + 1;
    }
    proof {
        assert(s@.take(n as int) =~= s@);
    }
    Some(val)
}

/// A digit string's value only grows as more digits are appended.
proof fn lemma_dec_value_prefix_monotonic(s: Seq<char>, k: int)
    requires
        0 <= k <= s.len(),
        is_dec_digits(s),
    ensures
        spec_dec_value(s) >= spec_dec_value(s.take(k)),
    decreases s.len() - k,
{
    if k < s.len() {
        assert(s.take(k + 1).drop_last() =~= s.take(k));
        assert(spec_dec_value(s.take(k + 1)) == spec_dec_value(s.take(k)) * 10 + (s.take(k + 1).last() as nat - 48));
        assert(s.take(k + 1).last() == s[k]);
        assert('0' <= s[k] <= '9');
        lemma_dec_value_prefix_monotonic(s, k + 1);
        assert(s.take(s.len() as int) =~= s);
    } else {
        assert(s.take(k) =~= s);
    }
}

} // verus!
