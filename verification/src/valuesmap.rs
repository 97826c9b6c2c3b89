//! The ordered multi-value string map used for request headers and query
//! parameters: insertion order is preserved per key, `add` appends, `set`
//! replaces, and an optional "Header-Case" key normalization makes lookups
//! case-insensitive in the way HTTP header names are in practice.

use vstd::prelude::*;
use crate::text::push_char;

verus! {

/// A single character in "Header-Case": lower-case ASCII letters are
/// upper-cased, every other character is unchanged.
pub open spec fn spec_upper_char(c: char) -> char {
    if 'a' <= c && c <= 'z' {
        (((c as u8) - 32) as u8) as char
    } else {
        c
    }
}

/// The "Header-Case" transform from position `i` on, where `up` says whether
/// the next character starts a segment (the start of the key, or the position
/// after a dash) and is upper-cased.
pub open spec fn spec_hc(s: Seq<char>, up: bool) -> Seq<char>
    decreases s.len(),
{
    if s.len() == 0 {
        Seq::empty()
    } else if up {
        seq![spec_upper_char(s[0])] + spec_hc(s.drop_first(), false)
    } else {
        seq![s[0]] + spec_hc(s.drop_first(), s[0] == '-')
    }
}

/// The "Header-Case" form of a key: the first letter and the letter following
/// each dash are upper-cased, the rest is unchanged.
pub open spec fn spec_header_case(s: Seq<char>) -> Seq<char> {
    spec_hc(s, true)
}

/// The key under which an operation actually stores or looks up `k`.
pub open spec fn spec_key(case_handling: bool, k: Seq<char>) -> Seq<char> {
    if case_handling {
        spec_header_case(k)
    } else {
        k
    }
}

/// Whether some entry of the association sequence `m` has key `k`.
pub open spec fn vm_has(m: Seq<(Seq<char>, Seq<Seq<char>>)>, k: Seq<char>) -> bool {
    exists|i: int| 0 <= i < m.len() && (#[trigger] m[i]).0 == k
}

/// The index of the entry with key `k` (meaningful when `vm_has` holds and
/// keys are unique).
pub open spec fn vm_idx(m: Seq<(Seq<char>, Seq<Seq<char>>)>, k: Seq<char>) -> int {
    choose|i: int| 0 <= i < m.len() && (#[trigger] m[i]).0 == k
}

/// The values stored under key `k`, if any.
pub open spec fn vm_lookup(m: Seq<(Seq<char>, Seq<Seq<char>>)>, k: Seq<char>) -> Option<
    Seq<Seq<char>>,
> {
    if vm_has(m, k) {
        Some(m[vm_idx(m, k)].1)
    } else {
        None
    }
}

/// The map after `add`: appends `v` to the entry for `k`, creating the entry
/// at the end if `k` is absent.
pub open spec fn vm_add(
    m: Seq<(Seq<char>, Seq<Seq<char>>)>,
    k: Seq<char>,
    v: Seq<char>,
) -> Seq<(Seq<char>, Seq<Seq<char>>)> {
    if vm_has(m, k) {
        m.update(vm_idx(m, k), (k, m[vm_idx(m, k)].1.push(v)))
    } else {
        m.push((k, seq![v]))
    }
}

/// The map after `set`: replaces all values for `k` by the single value `v`,
/// creating the entry at the end if `k` is absent.
pub open spec fn vm_set(
    m: Seq<(Seq<char>, Seq<Seq<char>>)>,
    k: Seq<char>,
    v: Seq<char>,
) -> Seq<(Seq<char>, Seq<Seq<char>>)> {
    if vm_has(m, k) {
        m.update(vm_idx(m, k), (k, seq![v]))
    } else {
        m.push((k, seq![v]))
    }
}

/// Entry keys are pairwise distinct.
pub open spec fn vm_unique(m: Seq<(Seq<char>, Seq<Seq<char>>)>) -> bool {
    forall|i: int, j: int|
        0 <= i < j < m.len() ==> (#[trigger] m[i]).0 != (#[trigger] m[j]).0
}

/// Ordered multi-value map for header and query-parameter strings.
///
/// When case handling is enabled, keys are rewritten to "Header-Case" before
/// every insert and lookup, so `content-type` and `Content-Type` collide to
/// the same stored key. Values under one key keep their insertion order.
#[derive(Debug)]
pub struct ValuesMap {
    case_handling: bool,
    values: Vec<(String, Vec<String>)>,
}

impl View for ValuesMap {
    type V = Seq<(Seq<char>, Seq<Seq<char>>)>;

    closed spec fn view(&self) -> Seq<(Seq<char>, Seq<Seq<char>>)> {
        Seq::new(self.values@.len(), |i: int| (self.values@[i].0@, self.values@[i].1.deep_view()))
    }
}

impl ValuesMap {
    /// Entry keys are pairwise distinct. Established by [`ValuesMap::new`]
    /// and preserved by every operation.
    pub closed spec fn wf(&self) -> bool {
        vm_unique(self@)
    }

    /// Whether keys are normalized to "Header-Case" on every operation.
    pub closed spec fn spec_case_handling(&self) -> bool {
        self.case_handling
    }

    /// Creates a new, empty [`ValuesMap`] with case handling disabled.
    pub fn new() -> (r: ValuesMap)
        ensures
            r@ == Seq::<(Seq<char>, Seq<Seq<char>>)>::empty(),
            !r.spec_case_handling(),
            r.wf(),
    {
        let r = ValuesMap { case_handling: false, values: Vec::new() };
        proof {
            assert(r@ =~= Seq::<(Seq<char>, Seq<Seq<char>>)>::empty());
        }
        r
    }

    /// Returns whether case handling is enabled.
    pub fn case_handling(&self) -> (r: bool)
        ensures
            r == self.spec_case_handling(),
    {
        self.case_handling
    }

    /// Enables or disables key normalization for subsequent operations.
    pub fn set_case_handling(&mut self, on: bool)
        requires
            old(self).wf(),
        ensures
            final(self)@ == old(self)@,
            final(self).spec_case_handling() == on,
            final(self).wf(),
    {
        self.case_handling = on;
    }

    /// The "Header-Case" form of `k`: the first letter and the letter after
    /// every dash are upper-cased.
    pub fn header_case(&self, k: &str) -> (r: String)
        ensures
            r@ == spec_header_case(k@),
    {
        header_case_of(k)
    }

    /// The key string an operation uses for `k` under the current mode.
    fn storage_key(&self, k: &str) -> (r: String)
        ensures
            r@ == spec_key(self.spec_case_handling(), k@),
    {
        if self.case_handling {
            self.header_case(k)
        } else {
            String::from_str(k)
        }
    }
}

/// Rewrites a key to "Header-Case": the first letter and the letter after
/// every dash are upper-cased.
pub fn header_case_of(k: &str) -> (r: String)
    ensures
        r@ == spec_header_case(k@),
{
    let n = k.unicode_len();
    let mut out = String::new();
    let mut up = true;
    let mut i: usize = 0;
    proof {
        assert(k@.skip(0) =~= k@);
        assert(out@ + spec_hc(k@, true) =~= spec_hc(k@, true));
    }
    while i < n
        invariant
            0 <= i <= n,
            n == k@.len(),
            out@ + spec_hc(k@.skip(i as int), up) == spec_header_case(k@),
        decreases n - i,
    {
        let c = k.get_char(i);
        let ghost out0 = out@;
        let ghost up0 = up;
        proof {
            assert(k@.skip(i as int)[0] == c);
            assert(k@.skip(i as int).drop_first() =~= k@.skip(i + 1));
        }
        if up {
            let u = if 'a' <= c && c <= 'z' {
                (((c as u8) - 32) as u8) as char
            } else {
                c
            };
            assert(u == spec_upper_char(c));
            push_char(&mut out, u);
            up = false;
        } else {
            push_char(&mut out, c);
            up = c == '-';
        }
        proof {
            assert(out@ + spec_hc(k@.skip(i + 1), up) =~= out0 + spec_hc(
                k@.skip(i as int),
                up0,
            ));
        }
        i = i + 1;
    }
    proof {
        assert(k@.skip(n as int) =~= Seq::<char>::empty());
        assert(out@ =~= spec_header_case(k@));
    }
    out
}

impl ValuesMap {
    /// The position of the entry holding `key`, if any.
    fn find_index(&self, key: &String) -> (r: Option<usize>)
        requires
            self.wf(),
        ensures
            match r {
                Some(i) => 0 <= i < self@.len() && self@[i as int].0 == key@ && vm_has(self@, key@)
                    && vm_idx(self@, key@) == i as int,
                None => !vm_has(self@, key@),
            },
    {
        let mut i: usize = 0;
        while i < self.values.len()
            invariant
                0 <= i <= self.values@.len(),
                self@.len() == self.values@.len(),
                vm_unique(self@),
                forall|j: int| 0 <= j < i ==> (#[trigger] self@[j]).0 != key@,
                forall|j: int|
                    0 <= j < self.values@.len() ==> (#[trigger] self@[j]).0 == self.values@[j].0@,
            decreases self.values@.len() - i,
        {
            if self.values[i].0 == *key {
                return Some(i);
            }
            i = i + 1;
        }
        None
    }

    /// Returns a reference to all currently stored entries, as key/values
    /// pairs in insertion order.
    pub fn all(&self) -> (r: &Vec<(String, Vec<String>)>)
        ensures
            r@.len() == self@.len(),
            forall|i: int|
                0 <= i < self@.len() ==> (#[trigger] r@[i]).0@ == self@[i].0 && r@[i].1.deep_view()
                    == self@[i].1,
    {
        &self.values
    }

    /// Returns true if no values are stored.
    pub fn is_empty(&self) -> (r: bool)
        ensures
            r == (self@.len() == 0),
    {
        self.values.len() == 0
    }

    /// Returns the last value stored under the given name, if any are set.
    pub fn get(&self, k: &str) -> (r: Option<&str>)
        requires
            self.wf(),
        ensures
            match r {
                Some(s) => {
                    &&& vm_lookup(self@, spec_key(self.spec_case_handling(), k@)) matches Some(vs)
                    &&& vs.len() > 0
                    &&& s@ == vs.last()
                },
                None => match vm_lookup(self@, spec_key(self.spec_case_handling(), k@)) {
                    Some(vs) => vs.len() == 0,
                    None => true,
                },
            },
    {
        let key = self.storage_key(k);
        match self.find_index(&key) {
            Some(i) => {
                let vals = &self.values[i].1;
                if vals.len() > 0 {
                    proof {
                        assert(self@[i as int].1 == vals.deep_view());
                        assert(vals.deep_view()[vals@.len() - 1] == vals@[vals@.len() - 1]@);
                    }
                    Some(vals[vals.len() - 1].as_str())
                } else {
                    proof {
                        assert(self@[i as int].1 =~= vals.deep_view());
                    }
                    None
                }
            },
            None => None,
        }
    }

    /// Returns all values stored for the given key, oldest first, if any.
    pub fn get_all(&self, k: &str) -> (r: Option<&Vec<String>>)
        requires
            self.wf(),
        ensures
            match r {
                Some(vs) => vm_lookup(self@, spec_key(self.spec_case_handling(), k@)) == Some(
                    vs.deep_view(),
                ),
                None => vm_lookup(self@, spec_key(self.spec_case_handling(), k@)) is None,
            },
    {
        let key = self.storage_key(k);
        match self.find_index(&key) {
            Some(i) => Some(&self.values[i].1),
            None => None,
        }
    }

    /// Sets the given key to the single value `v`, replacing any values
    /// previously stored for it.
    pub fn set(&mut self, k: &str, v: &str)
        requires
            old(self).wf(),
        ensures
            final(self)@ == vm_set(old(self)@, spec_key(old(self).spec_case_handling(), k@), v@),
            final(self).spec_case_handling() == old(self).spec_case_handling(),
            final(self).wf(),
    {
        proof {
            lemma_set_preserves_unique(self@, spec_key(self.spec_case_handling(), k@), v@);
        }
        let key = self.storage_key(k);
        let mut vs: Vec<String> = Vec::new();
        vs.push(String::from_str(v));
        proof {
            assert(vs.deep_view() =~= seq![v@]);
        }
        match self.find_index(&key) {
            Some(i) => {
                let ghost prev = self@;
                self.values.remove(i);
                self.values.insert(i, (key, vs));
                proof {
                    assert(final(self)@ =~= vm_set(prev, key@, v@));
                }
            },
            None => {
                let ghost prev = self@;
                self.values.push((key, vs));
                proof {
                    assert(final(self)@ =~= vm_set(prev, key@, v@));
                }
            },
        }
    }

    /// Appends the given value under the given key, creating the key if it is
    /// absent.
    pub fn add(&mut self, k: &str, v: &str)
        requires
            old(self).wf(),
        ensures
            final(self)@ == vm_add(old(self)@, spec_key(old(self).spec_case_handling(), k@), v@),
            final(self).spec_case_handling() == old(self).spec_case_handling(),
            final(self).wf(),
    {
        proof {
            lemma_add_preserves_unique(self@, spec_key(self.spec_case_handling(), k@), v@);
        }
        let key = self.storage_key(k);
        match self.find_index(&key) {
            Some(i) => {
                let ghost prev = self@;
                let mut entry = self.values.remove(i);
                entry.1.push(String::from_str(v));
                proof {
                    assert(entry.1.deep_view() =~= prev[i as int].1.push(v@));
                }
                self.values.insert(i, entry);
                proof {
                    assert(final(self)@ =~= vm_add(prev, key@, v@));
                }
            },
            None => {
                let ghost prev = self@;
                let mut vs: Vec<String> = Vec::new();
                vs.push(String::from_str(v));
                self.values.push((key, vs));
                proof {
                    assert(vs.deep_view() =~= seq![v@]);
                    assert(final(self)@ =~= vm_add(prev, key@, v@));
                }
            },
        }
    }
}

/// Upper-casing a character twice is the same as doing it once.
proof fn lemma_upper_char_idempotent(c: char)
    ensures
        spec_upper_char(spec_upper_char(c)) == spec_upper_char(c),
{
}

/// The "Header-Case" transform is idempotent for either starting mode.
proof fn lemma_hc_idempotent(s: Seq<char>, up: bool)
    ensures
        spec_hc(spec_hc(s, up), up) == spec_hc(s, up),
    decreases s.len(),
{
    if s.len() == 0 {
    } else if up {
        lemma_hc_idempotent(s.drop_first(), false);
        lemma_upper_char_idempotent(s[0]);
        assert(spec_hc(s, up).drop_first() =~= spec_hc(s.drop_first(), false));
        assert(spec_hc(spec_hc(s, up), up) =~= spec_hc(s, up));
    } else {
        lemma_hc_idempotent(s.drop_first(), s[0] == '-');
        assert(spec_hc(s, up).drop_first() =~= spec_hc(s.drop_first(), s[0] == '-'));
        assert(spec_hc(spec_hc(s, up), up) =~= spec_hc(s, up));
    }
}

/// The key normalization is idempotent on its own output: re-applying the
/// "Header-Case" transform produces the same key.
pub proof fn lemma_header_case_idempotent(s: Seq<char>)
    ensures
        spec_header_case(spec_header_case(s)) == spec_header_case(s),
{
    lemma_hc_idempotent(s, true);
}

/// After `add(k, v1)` then `add(k, v2)` on a map without `k`, the values for
/// `k` are exactly `[v1, v2]` (so `get_all` returns them in order and `get`
/// returns `v2`), and a subsequent `set(k, v3)` leaves exactly `[v3]`.
pub proof fn lemma_add_add_set(
    m: Seq<(Seq<char>, Seq<Seq<char>>)>,
    k: Seq<char>,
    v1: Seq<char>,
    v2: Seq<char>,
    v3: Seq<char>,
)
    requires
        vm_unique(m),
        !vm_has(m, k),
    ensures
        vm_lookup(vm_add(vm_add(m, k, v1), k, v2), k) == Some(seq![v1, v2]),
        vm_lookup(vm_add(vm_add(m, k, v1), k, v2), k).unwrap().last() == v2,
        vm_lookup(vm_set(vm_add(vm_add(m, k, v1), k, v2), k, v3), k) == Some(seq![v3]),
{
    let m1 = vm_add(m, k, v1);
    assert(m1[m.len() as int].0 == k);
    assert(vm_has(m1, k));
    lemma_add_preserves_unique(m, k, v1);
    assert(vm_idx(m1, k) == m.len() as int) by {
        lemma_vm_idx_unique(m1, k, m.len() as int);
    }
    let m2 = vm_add(m1, k, v2);
    assert(m2[m.len() as int].0 == k);
    assert(vm_has(m2, k));
    lemma_add_preserves_unique(m1, k, v2);
    assert(vm_idx(m2, k) == m.len() as int) by {
        lemma_vm_idx_unique(m2, k, m.len() as int);
    }
    assert(m2[m.len() as int].1 =~= seq![v1, v2]);
    let m3 = vm_set(m2, k, v3);
    assert(m3[m.len() as int].0 == k);
    assert(vm_has(m3, k));
    assert(vm_idx(m3, k) == m.len() as int) by {
        lemma_set_preserves_unique(m2, k, v3);
        lemma_vm_idx_unique(m3, k, m.len() as int);
    }
    assert(m3[m.len() as int].1 =~= seq![v3]);
}

/// Appending the last value under a key makes `get` return exactly that
/// value, whatever the map held before.
pub proof fn lemma_add_get_last(m: Seq<(Seq<char>, Seq<Seq<char>>)>, k: Seq<char>, v: Seq<char>)
    requires
        vm_unique(m),
    ensures
        vm_lookup(vm_add(m, k, v), k) matches Some(vs) && vs.len() > 0 && vs.last() == v,
{
    let m1 = vm_add(m, k, v);
    if vm_has(m, k) {
        let i = vm_idx(m, k);
        assert(m1[i].0 == k);
        assert(vm_has(m1, k));
        lemma_add_preserves_unique(m, k, v);
        lemma_vm_idx_unique(m1, k, i);
    } else {
        assert(m1[m.len() as int].0 == k);
        assert(vm_has(m1, k));
        lemma_add_preserves_unique(m, k, v);
        lemma_vm_idx_unique(m1, k, m.len() as int);
    }
}

/// With case handling enabled, two spellings of a key that share a
/// "Header-Case" form collide to one entry: after adding a value under one
/// spelling, looking the other spelling up returns that value.
pub proof fn lemma_case_colliding_keys_share_entries(
    m: Seq<(Seq<char>, Seq<Seq<char>>)>,
    k1: Seq<char>,
    k2: Seq<char>,
    v: Seq<char>,
)
    requires
        vm_unique(m),
        spec_header_case(k1) == spec_header_case(k2),
    ensures
        vm_lookup(vm_add(m, spec_key(true, k1), v), spec_key(true, k2)) matches Some(vs)
            && vs.len() > 0 && vs.last() == v,
{
    lemma_add_get_last(m, spec_key(true, k1), v);
}

/// In a map with unique keys, any index holding `k` is `vm_idx(m, k)`.
pub proof fn lemma_vm_idx_unique(m: Seq<(Seq<char>, Seq<Seq<char>>)>, k: Seq<char>, i: int)
    requires
        vm_unique(m),
        0 <= i < m.len(),
        m[i].0 == k,
    ensures
        vm_idx(m, k) == i,
{
    assert(vm_has(m, k));
    let j = vm_idx(m, k);
    if i < j {
        assert(m[i].0 != m[j].0);
    } else if j < i {
        assert(m[j].0 != m[i].0);
    }
}

/// `add` preserves key uniqueness.
pub proof fn lemma_add_preserves_unique(m: Seq<(Seq<char>, Seq<Seq<char>>)>, k: Seq<char>, v: Seq<char>)
    requires
        vm_unique(m),
    ensures
        vm_unique(vm_add(m, k, v)),
{
    if !vm_has(m, k) {
        assert forall|i: int, j: int| 0 <= i < j < vm_add(m, k, v).len() implies (#[trigger] vm_add(
            m,
            k,
            v,
        )[i]).0 != (#[trigger] vm_add(m, k, v)[j]).0 by {
            if j == m.len() as int {
                assert(vm_add(m, k, v)[i].0 == m[i].0);
                assert(!(m[i].0 == k));
            }
        }
    }
}

/// `set` preserves key uniqueness.
pub proof fn lemma_set_preserves_unique(m: Seq<(Seq<char>, Seq<Seq<char>>)>, k: Seq<char>, v: Seq<char>)
    requires
        vm_unique(m),
    ensures
        vm_unique(vm_set(m, k, v)),
{
    if !vm_has(m, k) {
        assert forall|i: int, j: int| 0 <= i < j < vm_set(m, k, v).len() implies (#[trigger] vm_set(
            m,
            k,
            v,
        )[i]).0 != (#[trigger] vm_set(m, k, v)[j]).0 by {
            if j == m.len() as int {
                assert(vm_set(m, k, v)[i].0 == m[i].0);
                assert(!(m[i].0 == k));
            }
        }
    }
}

} // verus!
