//! File-name hygiene: turning arbitrary text into a string that can be
//! safely used as a file name. Reading and copying directories live with
//! the caller.

use vstd::prelude::*;
use vstd::string::StrSliceExecFns;
use crate::text::push_char;

verus! {

/// Whether a character is ASCII whitespace.
pub open spec fn is_ws_char(c: char) -> bool {
    c == ' ' || c == '\t' || c == '\n' || c == '\r' || c == '\u{b}' || c == '\u{c}'
}

/// A character with an ASCII upper-case letter lowered.
pub open spec fn spec_lower_char(c: char) -> char {
    if 'A' <= c && c <= 'Z' {
        (((c as u8) + 32) as u8) as char
    } else {
        c
    }
}

/// Whether a character is an ASCII letter or digit.
pub open spec fn is_ascii_alnum(c: char) -> bool {
    ('a' <= c && c <= 'z') || ('A' <= c && c <= 'Z') || ('0' <= c && c <= '9')
}

/// One sanitized character: lower-cased; `.` and `_` kept; whitespace
/// becomes `-`; everything else that is not an ASCII letter or digit
/// becomes `_`.
pub open spec fn spec_sanitize_char(c0: char) -> char {
    let c = spec_lower_char(c0);
    if c == '.' || c == '_' {
        c
    } else if is_ws_char(c) {
        '-'
    } else if !is_ascii_alnum(c) {
        '_'
    } else {
        c
    }
}

/// Number of leading whitespace characters of `s` at or after `from`.
pub open spec fn spec_ws_chars_prefix(s: Seq<char>, from: int) -> int
    decreases s.len() - from,
{
    if from < 0 || from >= s.len() {
        s.len() as int
    } else if is_ws_char(s[from]) {
        spec_ws_chars_prefix(s, from + 1)
    } else {
        from
    }
}

/// End position of `s` once trailing whitespace before `upto` is dropped.
pub open spec fn spec_ws_chars_end(s: Seq<char>, upto: int) -> int
    decreases upto,
{
    if upto <= 0 || upto > s.len() {
        0
    } else if is_ws_char(s[upto - 1]) {
        spec_ws_chars_end(s, upto - 1)
    } else {
        upto
    }
}

/// `s` with leading and trailing ASCII whitespace removed.
pub open spec fn spec_trim_chars(s: Seq<char>) -> Seq<char> {
    let a = spec_ws_chars_prefix(s, 0);
    let b = spec_ws_chars_end(s, s.len() as int);
    if a <= b {
        s.subrange(a, b)
    } else {
        Seq::empty()
    }
}

/// The sanitized form of a string: trimmed, then each character mapped by
/// [`spec_sanitize_char`].
pub open spec fn spec_sanitize(s: Seq<char>) -> Seq<char> {
    spec_trim_chars(s).map(|i: int, c: char| spec_sanitize_char(c))
}

/// Checks a character for ASCII whitespace.
fn is_ws_exec(c: char) -> (r: bool)
    ensures
        r == is_ws_char(c),
{
    c == ' ' || c == '\t' || c == '\n' || c == '\r' || c == '\u{b}' || c == '\u{c}'
}

proof fn lemma_ws_chars_prefix_bounds(s: Seq<char>, from: int)
    requires
        0 <= from <= s.len(),
    ensures
        from <= spec_ws_chars_prefix(s, from) <= s.len(),
    decreases s.len() - from,
{
    if from < s.len() && is_ws_char(s[from]) {
        lemma_ws_chars_prefix_bounds(s, from + 1);
    }
}

proof fn lemma_ws_chars_end_bounds(s: Seq<char>, upto: int)
    ensures
        0 <= spec_ws_chars_end(s, upto),
        spec_ws_chars_end(s, upto) <= upto || upto < 0,
    decreases upto,
{
    if 0 < upto <= s.len() && is_ws_char(s[upto - 1]) {
        lemma_ws_chars_end_bounds(s, upto - 1);
    }
}

/// Creates a string that can be safely used as a file name: the input is
/// trimmed and lower-cased, whitespace becomes `-`, and everything else
/// that is not an ASCII letter, digit, `.` or `_` becomes `_`.
pub fn sanitize(s: &str) -> (r: String)
    ensures
        r@ == spec_sanitize(s@),
{
    let n = s.unicode_len();
    let mut a: usize = 0;
    while a < n && is_ws_exec(s.get_char(a))
        invariant
            0 <= a <= n,
            n == s@.len(),
            spec_ws_chars_prefix(s@, 0) == spec_ws_chars_prefix(s@, a as int),
        decreases n - a,
    {
        a = a + 1;
    }
    let mut b: usize = n;
    while b > a && is_ws_exec(s.get_char(b - 1))
        invariant
            a <= b <= n,
            n == s@.len(),
            spec_ws_chars_prefix(s@, 0) == a as int,
            spec_ws_chars_end(s@, s@.len() as int) == spec_ws_chars_end(s@, b as int),
        decreases b,
    {
        b = b - 1;
    }
    proof {
        if b == a {
            lemma_ws_chars_end_bounds(s@, b as int);
        }
        lemma_ws_chars_end_bounds(s@, s@.len() as int);
        lemma_ws_chars_prefix_bounds(s@, 0);
        assert(spec_trim_chars(s@) =~= s@.subrange(a as int, b as int));
    }
    let mut cleaned = String::new();
    let mut i: usize = a;
    while i < b
        invariant
            a <= i <= b <= n,
            n == s@.len(),
            spec_trim_chars(s@) == s@.subrange(a as int, b as int),
            cleaned@ == spec_sanitize(s@).subrange(0, i - a),
        decreases b - i,
    {
        let c0 = s.get_char(i);
        let c = if 'A' <= c0 && c0 <= 'Z' {
            (((c0 as u8) + 32) as u8) as char
        } else {
            c0
        };
        assert(c == spec_lower_char(c0));
        let mapped = if c == '.' || c == '_' {
            c
        } else if is_ws_exec(c) {
            '-'
        } else if !(('a' <= c && c <= 'z') || ('0' <= c && c <= '9')) {
            '_'
        } else {
            c
        };
        proof {
            assert(mapped == spec_sanitize_char(c0));
        }
        push_char(&mut cleaned, mapped);
        proof {
            assert(spec_sanitize(s@)[i - a] == spec_sanitize_char(s@[i as int]));
            assert(cleaned@ =~= spec_sanitize(s@).subrange(0, i + 1 - a));
        }
        i = i + 1;
    }
    proof {
        assert(cleaned@ =~= spec_sanitize(s@));
    }
    cleaned
}

} // verus!
