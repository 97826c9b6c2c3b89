//! The header map used by outgoing responses. It behaves like
//! [`crate::valuesmap::ValuesMap`] — an ordered multi-value map with optional
//! "Header-Case" key normalization — but exposes only the operations a
//! response needs.

use vstd::prelude::*;
use crate::valuesmap::{
    header_case_of, spec_header_case, spec_key, vm_add, vm_has, vm_idx, vm_lookup, vm_set,
    vm_unique,
};

verus! {

/// Ordered multi-value header map.
///
/// When case handling is enabled, keys are rewritten to "Header-Case" before
/// every insert and lookup. It is disabled by default for outgoing headers;
/// incoming request headers use [`crate::valuesmap::ValuesMap`] with it
/// enabled.
#[derive(Debug)]
pub struct Headers {
    case_handling: bool,
    values: Vec<(String, Vec<String>)>,
}

impl View for Headers {
    type V = Seq<(Seq<char>, Seq<Seq<char>>)>;

    closed spec fn view(&self) -> Seq<(Seq<char>, Seq<Seq<char>>)> {
        Seq::new(self.values@.len(), |i: int| (self.values@[i].0@, self.values@[i].1.deep_view()))
    }
}

impl Headers {
    /// Entry keys are pairwise distinct. Established by [`Headers::new`] and
    /// preserved by every operation.
    pub closed spec fn wf(&self) -> bool {
        vm_unique(self@)
    }

    /// Whether keys are normalized to "Header-Case" on every operation.
    pub closed spec fn spec_case_handling(&self) -> bool {
        self.case_handling
    }

    /// Creates a new, empty [`Headers`] with case handling disabled.
    pub fn new() -> (r: Headers)
        ensures
            r@ == Seq::<(Seq<char>, Seq<Seq<char>>)>::empty(),
            !r.spec_case_handling(),
            r.wf(),
    {
        let r = Headers { case_handling: false, values: Vec::new() };
        proof {
            assert(r@ =~= Seq::<(Seq<char>, Seq<Seq<char>>)>::empty());
        }
        r
    }

    /// Returns whether case handling is enabled.
    pub fn case_handling(&self) -> (r: bool)
        ensures
            r == self.spec_case_handling(),
    {
        self.case_handling
    }

    /// Enables or disables key normalization for subsequent operations.
    pub fn set_case_handling(&mut self, on: bool)
        requires
            old(self).wf(),
        ensures
            final(self)@ == old(self)@,
            final(self).spec_case_handling() == on,
            final(self).wf(),
    {
        self.case_handling = on;
    }

    /// The "Header-Case" form of `k`: the first letter and the letter after
    /// every dash are upper-cased.
    pub fn header_case(&self, k: &str) -> (r: String)
        ensures
            r@ == spec_header_case(k@),
    {
        header_case_of(k)
    }

    /// The key string an operation uses for `k` under the current mode.
    fn storage_key(&self, k: &str) -> (r: String)
        ensures
            r@ == spec_key(self.spec_case_handling(), k@),
    {
        if self.case_handling {
            self.header_case(k)
        } else {
            String::from_str(k)
        }
    }

    /// The position of the entry holding `key`, if any.
    fn find_index(&self, key: &String) -> (r: Option<usize>)
        requires
            self.wf(),
        ensures
            match r {
                Some(i) => 0 <= i < self@.len() && self@[i as int].0 == key@ && vm_has(self@, key@)
                    && vm_idx(self@, key@) == i as int,
                None => !vm_has(self@, key@),
            },
    {
        let mut i: usize = 0;
        while i < self.values.len()
            invariant
                0 <= i <= self.values@.len(),
                self@.len() == self.values@.len(),
                vm_unique(self@),
                forall|j: int| 0 <= j < i ==> (#[trigger] self@[j]).0 != key@,
                forall|j: int|
                    0 <= j < self.values@.len() ==> (#[trigger] self@[j]).0 == self.values@[j].0@,
            decreases self.values@.len() - i,
        {
            if self.values[i].0 == *key {
                proof {
                    crate::valuesmap::lemma_vm_idx_unique(self@, key@, i as int);
                }
                return Some(i);
            }
            i = i + 1;
        }
        None
    }

    /// Returns a reference to all currently stored headers, as key/values
    /// pairs in insertion order.
    pub fn all(&self) -> (r: &Vec<(String, Vec<String>)>)
        ensures
            r@.len() == self@.len(),
            forall|i: int|
                0 <= i < self@.len() ==> (#[trigger] r@[i]).0@ == self@[i].0 && r@[i].1.deep_view()
                    == self@[i].1,
    {
        &self.values
    }

    /// Returns the last value stored under the given name, if any are set.
    pub fn get(&self, k: &str) -> (r: Option<&str>)
        requires
            self.wf(),
        ensures
            match r {
                Some(s) => {
                    &&& vm_lookup(self@, spec_key(self.spec_case_handling(), k@)) matches Some(vs)
                    &&& vs.len() > 0
                    &&& s@ == vs.last()
                },
                None => match vm_lookup(self@, spec_key(self.spec_case_handling(), k@)) {
                    Some(vs) => vs.len() == 0,
                    None => true,
                },
            },
    {
        let key = self.storage_key(k);
        match self.find_index(&key) {
            Some(i) => {
                let vals = &self.values[i].1;
                if vals.len() > 0 {
                    proof {
                        assert(self@[i as int].1 == vals.deep_view());
                        assert(vals.deep_view()[vals@.len() - 1] == vals@[vals@.len() - 1]@);
                    }
                    Some(vals[vals.len() - 1].as_str())
                } else {
                    proof {
                        assert(self@[i as int].1 =~= vals.deep_view());
                    }
                    None
                }
            },
            None => None,
        }
    }

    /// Sets the given header to the single value `v`, replacing any values
    /// previously stored for it.
    pub fn set(&mut self, k: &str, v: &str)
        requires
            old(self).wf(),
        ensures
            final(self)@ == vm_set(old(self)@, spec_key(old(self).spec_case_handling(), k@), v@),
            final(self).spec_case_handling() == old(self).spec_case_handling(),
            final(self).wf(),
    {
        proof {
            crate::valuesmap::lemma_set_preserves_unique(
                self@,
                spec_key(self.spec_case_handling(), k@),
                v@,
            );
        }
        let key = self.storage_key(k);
        let mut vs: Vec<String> = Vec::new();
        vs.push(String::from_str(v));
        proof {
            assert(vs.deep_view() =~= seq![v@]);
        }
        match self.find_index(&key) {
            Some(i) => {
                let ghost prev = self@;
                self.values.remove(i);
                self.values.insert(i, (key, vs));
                proof {
                    assert(final(self)@ =~= vm_set(prev, key@, v@));
                }
            },
            None => {
                let ghost prev = self@;
                self.values.push((key, vs));
                proof {
                    assert(final(self)@ =~= vm_set(prev, key@, v@));
                }
            },
        }
    }

    /// Appends the given header value, keeping any previously stored values.
    pub fn add(&mut self, k: &str, v: &str)
        requires
            old(self).wf(),
        ensures
            final(self)@ == vm_add(old(self)@, spec_key(old(self).spec_case_handling(), k@), v@),
            final(self).spec_case_handling() == old(self).spec_case_handling(),
            final(self).wf(),
    {
        proof {
            crate::valuesmap::lemma_add_preserves_unique(
                self@,
                spec_key(self.spec_case_handling(), k@),
                v@,
            );
        }
        let key = self.storage_key(k);
        match self.find_index(&key) {
            Some(i) => {
                let ghost prev = self@;
                let mut entry = self.values.remove(i);
                entry.1.push(String::from_str(v));
                proof {
                    assert(entry.1.deep_view() =~= prev[i as int].1.push(v@));
                }
                self.values.insert(i, entry);
                proof {
                    assert(final(self)@ =~= vm_add(prev, key@, v@));
                }
            },
            None => {
                let ghost prev = self@;
                let mut vs: Vec<String> = Vec::new();
                vs.push(String::from_str(v));
                self.values.push((key, vs));
                proof {
                    assert(vs.deep_view() =~= seq![v@]);
                    assert(final(self)@ =~= vm_add(prev, key@, v@));
                }
            },
        }
    }
}

} // verus!
