//! A string-keyed variable table, the lookup source of expression
//! substitution.

use vstd::prelude::*;

use crate::text::{chars_ci_eq, chars_eq, chars_of, ci_eq};

verus! {

/// Variables by name. Each name occurs at most once.
#[derive(Debug)]
pub struct VarMap {
    entries: Vec<(String, String)>,
}

impl VarMap {
    /// The entries, as character sequences.
    pub closed spec fn entries_view(self) -> Seq<(Seq<char>, Seq<char>)> {
        self.entries@.map_values(|e: (String, String)| (e.0@, e.1@))
    }

    #[verifier::type_invariant]
    spec fn distinct_keys(self) -> bool {
        forall|i: int, j: int|
            0 <= i < self.entries@.len() && 0 <= j < self.entries@.len() && i != j
                ==> self.entries@[i].0@ != self.entries@[j].0@
    }

    /// The value of the first entry, in insertion order, whose name equals
    /// `key` up to ASCII case.
    pub closed spec fn ci_lookup(self, key: Seq<char>) -> Option<Seq<char>> {
        ci_lookup_from(self.entries@, 0, key)
    }

    spec fn index_of(self, k: Seq<char>) -> int {
        choose|i: int| 0 <= i < self.entries@.len() && self.entries@[i].0@ == k
    }

    spec fn has_key(self, k: Seq<char>) -> bool {
        exists|i: int| 0 <= i < self.entries@.len() && self.entries@[i].0@ == k
    }
}

spec fn ci_lookup_from(e: Seq<(String, String)>, i: int, key: Seq<char>) -> Option<Seq<char>>
    decreases e.len() - i,
{
    if i < 0 || i >= e.len() {
        None
    } else if ci_eq(e[i].0@, key) {
        Some(e[i].1@)
    } else {
        ci_lookup_from(e, i + 1, key)
    }
}

proof fn lemma_ci_lookup_from(e: Seq<(String, String)>, i: int, key: Seq<char>)
    requires
        0 <= i,
    ensures
        ci_lookup_from(e, i, key) matches Some(v) ==> exists|j: int|
            i <= j < e.len() && ci_eq(e[j].0@, key) && e[j].1@ == v,
    decreases e.len() - i,
{
    if i < e.len() && !ci_eq(e[i].0@, key) {
        lemma_ci_lookup_from(e, i + 1, key);
    }
}

impl View for VarMap {
    type V = Map<Seq<char>, Seq<char>>;

    closed spec fn view(&self) -> Map<Seq<char>, Seq<char>> {
        Map::new(|k: Seq<char>| self.has_key(k), |k: Seq<char>| self.entries@[self.index_of(k)].1@)
    }
}

impl VarMap {
    proof fn lemma_lookup(self, i: int)
        requires
            self.distinct_keys(),
            0 <= i < self.entries@.len(),
        ensures
            self@.dom().contains(self.entries@[i].0@),
            self@[self.entries@[i].0@] == self.entries@[i].1@,
    {
        let k = self.entries@[i].0@;
        assert(self.has_key(k));
        let j = self.index_of(k);
        assert(j == i);
    }

    /// An empty table.
    pub fn new() -> (r: VarMap)
        ensures
            r@ == Map::<Seq<char>, Seq<char>>::empty(),
    {
        let r = VarMap { entries: Vec::new() };
        assert(r@ =~= Map::<Seq<char>, Seq<char>>::empty());
        r
    }

    /// The entries, in the order they were first inserted: each name of
    /// the table once, with its value.
    pub fn entries(&self) -> (r: &Vec<(String, String)>)
        ensures
            r@.map_values(|e: (String, String)| (e.0@, e.1@)) == self.entries_view(),
            forall|i: int, j: int|
                0 <= i < j < self.entries_view().len() ==> #[trigger] self.entries_view()[i].0
                    != #[trigger] self.entries_view()[j].0,
            forall|i: int|
                0 <= i < self.entries_view().len() ==> self@.dom().contains(#[trigger] self.entries_view()[i].0)
                    && self@[self.entries_view()[i].0] == self.entries_view()[i].1,
            forall|k: Seq<char>|
                self@.dom().contains(k) ==> exists|i: int|
                    0 <= i < self.entries_view().len() && #[trigger] self.entries_view()[i].0 == k,
    {
        proof {
            use_type_invariant(self);
            assert forall|i: int| 0 <= i < self.entries_view().len() implies self@.dom().contains(
                #[trigger] self.entries_view()[i].0,
            ) && self@[self.entries_view()[i].0] == self.entries_view()[i].1 by {
                self.lemma_lookup(i);
            }
            assert forall|k: Seq<char>| self@.dom().contains(k) implies exists|i: int|
                0 <= i < self.entries_view().len() && #[trigger] self.entries_view()[i].0 == k by {
                let i = self.index_of(k);
                assert(self.entries_view()[i].0 == k);
            }
        }
        assert(self.entries@.map_values(|e: (String, String)| (e.0@, e.1@)) == self.entries_view());
        &self.entries
    }

    /// A table with the same entries.
    pub fn copy(&self) -> (r: VarMap)
        ensures
            r@ == self@,
    {
        let es = self.entries();
        let ghost ev = self.entries_view();
        let mut r = VarMap::new();
        let mut i: usize = 0;
        while i < es.len()
            invariant
                i <= es@.len(),
                es@.map_values(|e: (String, String)| (e.0@, e.1@)) == ev,
                forall|a: int, b: int| 0 <= a < b < ev.len() ==> #[trigger] ev[a].0 != #[trigger] ev[b].0,
                forall|q: Seq<char>| r@.dom().contains(q) <==> exists|j: int| 0 <= j < i && #[trigger] ev[j].0 == q,
                forall|j: int| 0 <= j < i ==> #[trigger] r@[ev[j].0] == ev[j].1,
            decreases es.len() - i,
        {
            let ghost before = r@;
            assert(ev[i as int] == (es@[i as int].0@, es@[i as int].1@));
            r.insert(es[i].0.clone(), es[i].1.clone());
            assert forall|q: Seq<char>| r@.dom().contains(q) <==> exists|j: int| 0 <= j < i + 1 && #[trigger] ev[j].0 == q by {
                if r@.dom().contains(q) && q != ev[i as int].0 {
                    assert(before.dom().contains(q));
                }
                if exists|j: int| 0 <= j < i + 1 && #[trigger] ev[j].0 == q {
                    let j = choose|j: int| 0 <= j < i + 1 && #[trigger] ev[j].0 == q;
                    if j < i {
                        assert(before.dom().contains(q));
                    }
                }
            }
            assert forall|j: int| 0 <= j < i + 1 implies #[trigger] r@[ev[j].0] == ev[j].1 by {
                if j < i {
                    assert(ev[j].0 != ev[i as int].0);
                    assert(before[ev[j].0] == ev[j].1);
                }
            }
            i += 1;
        }
        assert(r@ =~= self@) by {
            assert forall|q: Seq<char>| r@.dom().contains(q) <==> self@.dom().contains(q) by {
                if r@.dom().contains(q) {
                    let j = choose|j: int| 0 <= j < ev.len() && #[trigger] ev[j].0 == q;
                    assert(self@.dom().contains(ev[j].0));
                }
            }
            assert forall|q: Seq<char>| r@.dom().contains(q) implies r@[q] == self@[q] by {
                let j = choose|j: int| 0 <= j < ev.len() && #[trigger] ev[j].0 == q;
                assert(self@[ev[j].0] == ev[j].1);
            }
        }
        r
    }

    /// Position of the entry named exactly `key`.
    fn position(&self, key: &[char]) -> (r: Option<usize>)
        ensures
            r matches Some(i) ==> i < self.entries@.len() && self.entries@[i as int].0@ == key@,
            r is None ==> !self@.dom().contains(key@),
    {
        let mut i: usize = 0;
        while i < self.entries.len()
            invariant
                i <= self.entries@.len(),
                forall|j: int| 0 <= j < i ==> self.entries@[j].0@ != key@,
            decreases self.entries.len() - i,
        {
            let name = chars_of(self.entries[i].0.as_str());
            if chars_eq(name.as_slice(), key) {
                return Some(i);
            }
            i += 1;
        }
        None
    }

    /// Set `key` to `value`, replacing any earlier value.
    pub fn insert(&mut self, key: String, value: String)
        ensures
            final(self)@ == old(self)@.insert(key@, value@),
    {
        proof {
            use_type_invariant(&*self);
        }
        let key_chars = chars_of(key.as_str());
        let found = self.position(key_chars.as_slice());
        let mut entries: Vec<(String, String)> = Vec::new();
        std::mem::swap(&mut entries, &mut self.entries);
        let ghost before = VarMap { entries: entries };
        let ghost k = key@;
        let ghost v = value@;
        match found {
            Some(i) => {
                entries.set(i, (key, value));
            },
            None => {
                entries.push((key, value));
            },
        }
        let ghost after = VarMap { entries: entries };
        assert(after.distinct_keys());
        proof {
            assert forall|q: Seq<char>| #[trigger] before@.insert(k, v).dom().contains(q) implies after@.dom().contains(q) by {
                if q == k {
                    let idx = match found {
                        Some(i) => i as int,
                        None => before.entries@.len() as int,
                    };
                    assert(after.entries@[idx].0@ == k);
                } else {
                    assert(before.has_key(q));
                    let j = before.index_of(q);
                    assert(before.entries@[j].0@ == q);
                    assert(after.entries@[j].0@ == q);
                }
            }
            assert forall|q: Seq<char>| #[trigger] after@.dom().contains(q) implies before@.insert(
                k,
                v,
            ).dom().contains(q) && after@[q] == before@.insert(k, v)[q] by {
                let j = after.index_of(q);
                after.lemma_lookup(j);
                if q != k {
                    assert(before.entries@[j].0@ == q);
                    before.lemma_lookup(j);
                }
            }
            assert(after@ =~= before@.insert(k, v));
        }
        self.entries = entries;
    }

    /// The value stored under exactly the name `key`.
    pub fn get_exact(&self, key: &[char]) -> (r: Option<&String>)
        ensures
            r matches Some(v) ==> self@.dom().contains(key@) && self@[key@] == v@,
            r is None ==> !self@.dom().contains(key@),
    {
        proof {
            use_type_invariant(self);
        }
        match self.position(key) {
            Some(i) => {
                proof {
                    self.lemma_lookup(i as int);
                }
                Some(&self.entries[i].1)
            },
            None => None,
        }
    }

    /// The value stored under exactly `key`.
    pub fn get(&self, key: &str) -> (r: Option<&String>)
        ensures
            r matches Some(v) ==> self@.dom().contains(key@) && self@[key@] == v@,
            r is None ==> !self@.dom().contains(key@),
    {
        proof {
            use_type_invariant(self);
        }
        let key_chars = chars_of(key);
        match self.position(key_chars.as_slice()) {
            Some(i) => {
                proof {
                    self.lemma_lookup(i as int);
                }
                Some(&self.entries[i].1)
            },
            None => None,
        }
    }

    /// The value of the first entry whose name equals `key` up to ASCII case.
    pub fn get_ignore_case(&self, key: &[char]) -> (r: Option<&String>)
        ensures
            r matches Some(v) ==> self.ci_lookup(key@) == Some(v@),
            r is None ==> self.ci_lookup(key@) is None,
            r matches Some(v) ==> exists|q: Seq<char>|
                #![trigger self@[q]]
                self@.dom().contains(q) && ci_eq(q, key@) && self@[q] == v@,
    {
        proof {
            use_type_invariant(self);
            lemma_ci_lookup_from(self.entries@, 0, key@);
        }
        let mut i: usize = 0;
        while i < self.entries.len()
            invariant
                i <= self.entries@.len(),
                self.distinct_keys(),
                ci_lookup_from(self.entries@, i as int, key@) == ci_lookup_from(
                    self.entries@,
                    0,
                    key@,
                ),
            decreases self.entries.len() - i,
        {
            let name = chars_of(self.entries[i].0.as_str());
            if chars_ci_eq(name.as_slice(), key) {
                proof {
                    self.lemma_lookup(i as int);
                    let q = self.entries@[i as int].0@;
                    assert(self@.dom().contains(q) && ci_eq(q, key@));
                }
                return Some(&self.entries[i].1);
            }
            i += 1;
        }
        None
    }
}

} // verus!
