//! Utilities for manipulating binary data: a simple additive hash and
//! pattern search/replace over byte vectors.

use vstd::prelude::*;

verus! {

/// The sum of a sequence of words, reduced modulo 2^64.
pub open spec fn spec_wrap_sum(s: Seq<u64>) -> u64
    decreases s.len(),
{
    if s.len() == 0 {
        0u64
    } else {
        ((spec_wrap_sum(s.drop_last()) + s.last()) % 0x1_0000_0000_0000_0000) as u64
    }
}

/// Very simple way of hashing words. Not safe, can have collisions: the hash
/// just sums up all values in the vector and wraps around on overflow.
pub fn hash_quick(data: Vec<u64>) -> (r: u64)
    ensures
        r == spec_wrap_sum(data@),
{
    let mut n: u64 = 0;
    let mut i: usize = 0;
    proof {
        assert(data@.take(0) =~= Seq::<u64>::empty());
    }
    while i < data.len()
        invariant
            0 <= i <= data@.len(),
            n == spec_wrap_sum(data@.take(i as int)),
        decreases data@.len() - i,
    {
        let c = data[i];
        proof {
            assert(data@.take(i + 1).drop_last() =~= data@.take(i as int));
            assert(data@.take(i + 1).last() == c);
        }
        n = n.wrapping_add(c);
        i = i + 1;
    }
    proof {
        assert(data@.take(data@.len() as int) =~= data@);
    }
    n
}

/// Whether `pat` occurs in `d` starting exactly at position `i`.
pub open spec fn match_at(d: Seq<u8>, pat: Seq<u8>, i: int) -> bool {
    0 <= i && i + pat.len() <= d.len() && d.subrange(i, i + pat.len() as int) == pat
}

/// The first position at or after `i` where `pat` occurs completely in `d`,
/// if any.
pub open spec fn spec_find(d: Seq<u8>, pat: Seq<u8>, i: int) -> Option<int>
    decreases d.len() - i,
{
    if i < 0 || i >= d.len() {
        None
    } else if match_at(d, pat, i) {
        Some(i)
    } else {
        spec_find(d, pat, i + 1)
    }
}

/// Contains methods to find patterns within data.
pub trait Find {
    /// The byte sequence searched through.
    spec fn bytes(&self) -> Seq<u8>;

    /// Finds the first index of the complete pattern at or after the given
    /// start index. Returns `Err(0)` if the pattern does not occur there.
    fn index_of(&self, pattern: &[u8], start: usize) -> (r: Result<usize, usize>)
        requires
            pattern@.len() >= 1,
        ensures
            match r {
                Ok(i) => spec_find(self.bytes(), pattern@, start as int) == Some(i as int),
                Err(e) => e == 0 && spec_find(self.bytes(), pattern@, start as int) is None,
            },
    ;
}

/// Checks for a complete occurrence of `pattern` at position `i` of `data`.
fn matches_at(data: &[u8], pattern: &[u8], i: usize) -> (r: bool)
    requires
        i < data@.len(),
    ensures
        r == match_at(data@, pattern@, i as int),
{
    let dl = data.len();
    let pl = pattern.len();
    if pl > dl - i {
        assert(!match_at(data@, pattern@, i as int));
        return false;
    }
    let mut n: usize = 0;
    while n < pl
        invariant
            0 <= n <= pl,
            dl == data@.len(),
            pl == pattern@.len(),
            i + pl <= dl,
            forall|m: int| 0 <= m < n ==> data@[i + m] == pattern@[m],
        decreases pl - n,
    {
        if data[i + n] != pattern[n] {
            assert(data@.subrange(i as int, i + pattern@.len()) != pattern@) by {
                assert(data@.subrange(i as int, i + pattern@.len())[n as int] != pattern@[n as int]);
            }
            return false;
        }
        n = n + 1;
    }
    proof {
        assert(data@.subrange(i as int, i + pattern@.len()) =~= pattern@);
    }
    true
}

impl Find for Vec<u8> {
    open spec fn bytes(&self) -> Seq<u8> {
        self@
    }

    fn index_of(&self, pattern: &[u8], start: usize) -> (r: Result<usize, usize>) {
        self.as_slice().index_of(pattern, start)
    }
}

impl Find for [u8] {
    open spec fn bytes(&self) -> Seq<u8> {
        self@
    }

    fn index_of(&self, pattern: &[u8], start: usize) -> (r: Result<usize, usize>) {
        let mut i: usize = start;
        if i >= self.len() {
            return Err(0);
        }
        while i < self.len()
            invariant
                start <= i <= self@.len(),
                spec_find(self@, pattern@, start as int) == spec_find(self@, pattern@, i as int),
            decreases self@.len() - i,
        {
            if matches_at(self, pattern, i) {
                return Ok(i);
            }
            i = i + 1;
        }
        Err(0)
    }
}

/// The result of scanning `d` from position `i`, replacing each complete
/// occurrence of `pat` by `rep`. After a replacement the scan resumes one
/// position past the occurrence, so the byte directly following it is
/// dropped.
pub open spec fn spec_replace_from(d: Seq<u8>, pat: Seq<u8>, rep: Seq<u8>, i: int) -> Seq<u8>
    decreases d.len() - i,
{
    if i < 0 || i >= d.len() {
        Seq::empty()
    } else if match_at(d, pat, i) {
        let next = if i + pat.len() < d.len() {
            i + pat.len() + 1
        } else {
            d.len() as int
        };
        rep + spec_replace_from(d, pat, rep, next)
    } else {
        seq![d[i]] + spec_replace_from(d, pat, rep, i + 1)
    }
}

/// The bytes of `d` strictly between the first occurrence of `ps` and the
/// next occurrence of `pe` after it; a copy of `d` when either pattern is
/// empty or absent.
pub open spec fn spec_between(d: Seq<u8>, ps: Seq<u8>, pe: Seq<u8>) -> Seq<u8> {
    if ps.len() == 0 || pe.len() == 0 {
        d
    } else {
        match spec_find(d, ps, 0) {
            None => d,
            Some(a) => match spec_find(d, pe, a + ps.len()) {
                None => d,
                Some(b) => d.subrange(a + ps.len(), b),
            },
        }
    }
}

/// `d` with the part strictly between the first occurrence of `ps` and the
/// next occurrence of `pe` replaced by `rep` (both patterns stay); a copy of
/// `d` when either pattern is empty or absent.
pub open spec fn spec_replace_between(d: Seq<u8>, ps: Seq<u8>, pe: Seq<u8>, rep: Seq<u8>) -> Seq<
    u8,
> {
    if ps.len() == 0 || pe.len() == 0 {
        d
    } else {
        match spec_find(d, ps, 0) {
            None => d,
            Some(a) => match spec_find(d, pe, a + ps.len()) {
                None => d,
                Some(b) => d.subrange(0, a + ps.len()) + rep + d.subrange(b, d.len() as int),
            },
        }
    }
}

/// Contains methods to replace patterns within data. Depends on [`Find`].
pub trait Replace: Sized {
    /// The byte sequence operated on.
    spec fn rep_bytes(&self) -> Seq<u8>;

    /// Returns a new vector with each complete occurrence of the pattern
    /// replaced by the replacement; the scan resumes one position past an
    /// occurrence.
    fn replace(&self, pattern: &[u8], replacement: &[u8]) -> (r: Self)
        ensures
            pattern@.len() == 0 ==> r.rep_bytes() == self.rep_bytes(),
            pattern@.len() > 0 ==> r.rep_bytes() == spec_replace_from(
                self.rep_bytes(),
                pattern@,
                replacement@,
                0,
            ),
    ;

    /// Returns a new vector with the given replacement instead of the part
    /// surrounded by the two patterns (leaves the patterns in).
    fn replace_between(&self, pattern_start: &[u8], pattern_end: &[u8], replacement: &[u8]) -> (r:
        Self)
        ensures
            r.rep_bytes() == spec_replace_between(
                self.rep_bytes(),
                pattern_start@,
                pattern_end@,
                replacement@,
            ),
    ;

    /// Returns a new vector containing what is between the given patterns.
    fn between(&self, pattern_start: &[u8], pattern_end: &[u8]) -> (r: Self)
        ensures
            r.rep_bytes() == spec_between(self.rep_bytes(), pattern_start@, pattern_end@),
    ;
}

impl Replace for Vec<u8> {
    open spec fn rep_bytes(&self) -> Seq<u8> {
        self@
    }

    fn replace(&self, pattern: &[u8], replacement: &[u8]) -> (r: Vec<u8>) {
        if pattern.len() == 0 {
            return self.clone();
        }
        let mut out: Vec<u8> = Vec::new();
        let mut i: usize = 0;
        proof {
            assert(out@ + spec_replace_from(self@, pattern@, replacement@, 0) =~= spec_replace_from(
                self@,
                pattern@,
                replacement@,
                0,
            ));
        }
        while i < self.len()
            invariant
                0 <= i <= self@.len(),
                pattern@.len() >= 1,
                out@ + spec_replace_from(self@, pattern@, replacement@, i as int)
                    == spec_replace_from(self@, pattern@, replacement@, 0),
            decreases self@.len() - i,
        {
            let ghost out0 = out@;
            if matches_at(self.as_slice(), pattern, i) {
                out.extend_from_slice(replacement);
                let next = if i + pattern.len() < self.len() {
                    i + pattern.len() + 1
                } else {
                    self.len()
                };
                proof {
                    assert(out@ =~= out0 + replacement@);
                    assert(out@ + spec_replace_from(self@, pattern@, replacement@, next as int)
                        =~= out0 + spec_replace_from(self@, pattern@, replacement@, i as int));
                }
                i = next;
            } else {
                out.push(self[i]);
                proof {
                    assert(out@ + spec_replace_from(self@, pattern@, replacement@, i + 1) =~= out0
                        + spec_replace_from(self@, pattern@, replacement@, i as int));
                }
                i = i + 1;
            }
        }
        proof {
            assert(out@ =~= spec_replace_from(self@, pattern@, replacement@, 0));
        }
        out
    }

    fn replace_between(&self, pattern_start: &[u8], pattern_end: &[u8], replacement: &[u8]) -> (r:
        Vec<u8>) {
        // Reading the length pins the view's length below usize::MAX for
        // the index arithmetic below.
        let total = self.len();
        proof {
            assert(total == self@.len());
        }
        if pattern_start.len() == 0 || pattern_end.len() == 0 {
            return self.clone();
        }
        let index_start = match self.index_of(pattern_start, 0) {
            Ok(i) => i,
            Err(_) => {
                return self.clone();
            },
        };
        proof {
            lemma_find_in_range(self@, pattern_start@, 0);
            assert(index_start + pattern_start@.len() <= self@.len() <= usize::MAX);
        }
        let index_end = match self.index_of(pattern_end, index_start + pattern_start.len()) {
            Ok(i) => i,
            Err(_) => {
                return self.clone();
            },
        };
        proof {
            lemma_find_in_range(self@, pattern_end@, index_start + pattern_start@.len());
        }
        let mut out: Vec<u8> = crate::text::subvec(
            self.as_slice(),
            0,
            index_start + pattern_start.len(),
        );
        out.extend_from_slice(replacement);
        let mut tail = crate::text::subvec(self.as_slice(), index_end, self.len());
        out.append(&mut tail);
        proof {
            assert(out@ =~= spec_replace_between(
                self@,
                pattern_start@,
                pattern_end@,
                replacement@,
            ));
        }
        out
    }

    fn between(&self, pattern_start: &[u8], pattern_end: &[u8]) -> (r: Vec<u8>) {
        // Reading the length pins the view's length below usize::MAX for
        // the index arithmetic below.
        let total = self.len();
        proof {
            assert(total == self@.len());
        }
        if pattern_start.len() == 0 || pattern_end.len() == 0 {
            return self.clone();
        }
        let index_start = match self.index_of(pattern_start, 0) {
            Ok(i) => i,
            Err(_) => {
                return self.clone();
            },
        };
        proof {
            lemma_find_in_range(self@, pattern_start@, 0);
            assert(index_start + pattern_start@.len() <= self@.len() <= usize::MAX);
        }
        let index_end = match self.index_of(pattern_end, index_start + pattern_start.len()) {
            Ok(i) => i,
            Err(_) => {
                return self.clone();
            },
        };
        proof {
            lemma_find_in_range(self@, pattern_end@, index_start + pattern_start@.len());
        }
        crate::text::subvec(self.as_slice(), index_start + pattern_start.len(), index_end)
    }
}

/// A found occurrence lies within the data, with room for the pattern.
proof fn lemma_find_in_range(d: Seq<u8>, pat: Seq<u8>, i: int)
    ensures
        spec_find(d, pat, i) matches Some(j) ==> i <= j && j + pat.len() <= d.len(),
    decreases d.len() - i,
{
    if 0 <= i < d.len() && !match_at(d, pat, i) {
        lemma_find_in_range(d, pat, i + 1);
    }
}

} // verus!
