//! A map keyed by names, kept as an association list without duplicate keys.
use vstd::prelude::*;
use crate::text::{chars_of, chars_eq};

verus! {

/// Entries keyed by a name; every key occurs at most once.
#[derive(Debug)]
pub struct NameMap<V> {
    entries: Vec<(String, V)>,
}

/// No key occurs twice among the entries.
pub open spec fn distinct_keys<V>(e: Seq<(String, V)>) -> bool {
    forall|i: int, j: int|
        0 <= i < e.len() && 0 <= j < e.len() && i != j ==> #[trigger] e[i].0@ != #[trigger] e[j].0@
}

/// Whether some entry has key `k`.
pub open spec fn entries_have<V>(e: Seq<(String, V)>, k: Seq<char>) -> bool {
    exists|i: int| 0 <= i < e.len() && #[trigger] e[i].0@ == k
}

/// The value of the entry with key `k`, if any.
pub open spec fn lookup<V>(e: Seq<(String, V)>, k: Seq<char>) -> Option<V> {
    if entries_have(e, k) {
        let i = choose|i: int| 0 <= i < e.len() && #[trigger] e[i].0@ == k;
        Some(e[i].1)
    } else {
        None
    }
}

proof fn lemma_lookup_at<V>(e: Seq<(String, V)>, i: int)
    requires
        distinct_keys(e),
        0 <= i < e.len(),
    ensures
        lookup(e, e[i].0@) == Some(e[i].1),
{
    let k = e[i].0@;
    assert(entries_have(e, k));
    let j = choose|j: int| 0 <= j < e.len() && #[trigger] e[j].0@ == k;
    assert(j == i);
}

impl<V> NameMap<V> {
    /// The entries, in insertion order.
    pub closed spec fn entries_view(self) -> Seq<(String, V)> {
        self.entries@
    }

    /// No key occurs twice.
    #[verifier::type_invariant]
    closed spec fn keys_distinct(self) -> bool {
        distinct_keys(self.entries@)
    }

    /// Whether some entry has key `k`.
    pub open spec fn has_key(self, k: Seq<char>) -> bool {
        entries_have(self.entries_view(), k)
    }

    /// The value stored under `k`, if any.
    pub open spec fn spec_get(self, k: Seq<char>) -> Option<V> {
        lookup(self.entries_view(), k)
    }

    /// An empty map.
    pub fn new() -> (m: Self)
        ensures
            m.entries_view().len() == 0,
            forall|q: Seq<char>| !#[trigger] m.has_key(q),
    {
        NameMap { entries: Vec::new() }
    }

    /// Number of entries.
    pub fn len(&self) -> (n: usize)
        ensures
            n == self.entries_view().len(),
    {
        self.entries.len()
    }

    /// Whether there are no entries.
    pub fn is_empty(&self) -> (b: bool)
        ensures
            b == (self.entries_view().len() == 0),
    {
        self.entries.len() == 0
    }

    /// The entries, in insertion order.
    pub fn entries(&self) -> (r: &Vec<(String, V)>)
        ensures
            r@ == self.entries_view(),
            distinct_keys(r@),
    {
        proof { use_type_invariant(self); }
        &self.entries
    }

    /// Index of the entry with key `k`, if any.
    fn position(&self, k: &Vec<char>) -> (r: Option<usize>)
        ensures
            match r {
                Some(i) => i < self.entries@.len() && self.entries@[i as int].0@ == k@,
                None => !entries_have(self.entries@, k@),
            },
    {
        let n = self.entries.len();
        for i in 0..n
            invariant
                n == self.entries@.len(),
                forall|j: int| 0 <= j < i ==> #[trigger] self.entries@[j].0@ != k@,
        {
            let key = chars_of(self.entries[i].0.as_str());
            if chars_eq(&key, k) {
                return Some(i);
            }
        }
        None
    }

    /// The value stored under `k`, if any.
    pub fn get(&self, k: &str) -> (r: Option<&V>)
        ensures
            match r {
                Some(v) => self.spec_get(k@) == Some(*v),
                None => self.spec_get(k@) is None,
            },
    {
        proof { use_type_invariant(self); }
        let kv = chars_of(k);
        match self.position(&kv) {
            Some(i) => {
                proof { lemma_lookup_at(self.entries@, i as int); }
                Some(&self.entries[i].1)
            },
            None => None,
        }
    }

    /// Stores `v` under `k`, replacing the value already stored there.
    pub fn insert(&mut self, k: String, v: V)
        ensures
            final(self).spec_get(k@) == Some(v),
            forall|q: Seq<char>|
                q != k@ ==> #[trigger] final(self).spec_get(q) == old(self).spec_get(q),
            forall|q: Seq<char>|
                #[trigger] final(self).has_key(q) <==> (old(self).has_key(q) || q == k@),
            !old(self).has_key(k@) ==> final(self).entries_view() == old(self).entries_view().push((k, v)),
            old(self).has_key(k@) ==> exists|i: int|
                0 <= i < old(self).entries_view().len() && old(self).entries_view()[i].0@ == k@
                    && final(self).entries_view() == old(self).entries_view().update(i, (k, v)),
    {
        proof { use_type_invariant(&*self); }
        let kv = chars_of(k.as_str());
        let pos = self.position(&kv);
        let ghost e = self.entries@;
        let ghost kk = k@;
        let ghost entry = (k, v);
        let mut entries = Vec::new();
        std::mem::swap(&mut entries, &mut self.entries);
        assert(entries@ == e);
        match pos {
            Some(i) => {
                entries.set(i, (k, v));
                proof {
                    let e2 = entries@;
                    assert(e2 == e.update(i as int, entry));
                    assert(e2 == e.update(i as int, e2[i as int]));
                    assert(distinct_keys(e2)) by {
                        assert forall|a: int, b: int|
                            0 <= a < e2.len() && 0 <= b < e2.len() && a != b
                            implies #[trigger] e2[a].0@ != #[trigger] e2[b].0@ by {
                            assert(e[a].0@ != e[b].0@);
                        }
                    }
                    lemma_lookup_at(e2, i as int);
                    assert forall|q: Seq<char>| q != kk implies #[trigger] lookup(e2, q) == lookup(e, q) by {
                        if entries_have(e, q) {
                            let j = choose|j: int| 0 <= j < e.len() && #[trigger] e[j].0@ == q;
                            lemma_lookup_at(e, j);
                            lemma_lookup_at(e2, j);
                        } else {
                            assert forall|j: int| 0 <= j < e2.len() implies #[trigger] e2[j].0@ != q by {
                                if j != i { assert(e[j].0@ != q); }
                            }
                        }
                    }
                    assert forall|q: Seq<char>| #[trigger] entries_have(e2, q) <==> (entries_have(e, q) || q == kk) by {
                        if entries_have(e2, q) {
                            let j = choose|j: int| 0 <= j < e2.len() && #[trigger] e2[j].0@ == q;
                            if j != i { assert(e[j].0@ == q); }
                        }
                        if entries_have(e, q) {
                            let j = choose|j: int| 0 <= j < e.len() && #[trigger] e[j].0@ == q;
                            assert(e2[j].0@ == q);
                        }
                        if q == kk { assert(e2[i as int].0@ == q); }
                    }
                }
            },
            None => {
                entries.push((k, v));
                proof {
                    let e2 = entries@;
                    let n = e.len() as int;
                    assert(distinct_keys(e2)) by {
                        assert forall|a: int, b: int|
                            0 <= a < e2.len() && 0 <= b < e2.len() && a != b
                            implies #[trigger] e2[a].0@ != #[trigger] e2[b].0@ by {
                            if a < n && b < n { assert(e[a].0@ != e[b].0@); }
                            if a == n { assert(e2[b].0@ == e[b].0@); }
                            if b == n { assert(e2[a].0@ == e[a].0@); }
                        }
                    }
                    lemma_lookup_at(e2, n);
                    assert forall|q: Seq<char>| q != kk implies #[trigger] lookup(e2, q) == lookup(e, q) by {
                        if entries_have(e, q) {
                            let j = choose|j: int| 0 <= j < e.len() && #[trigger] e[j].0@ == q;
                            lemma_lookup_at(e, j);
                            assert(e2[j] == e[j]);
                            lemma_lookup_at(e2, j);
                        } else {
                            assert forall|j: int| 0 <= j < e2.len() implies #[trigger] e2[j].0@ != q by {
                                if j < n { assert(e2[j] == e[j]); }
                            }
                        }
                    }
                    assert forall|q: Seq<char>| #[trigger] entries_have(e2, q) <==> (entries_have(e, q) || q == kk) by {
                        if entries_have(e2, q) {
                            let j = choose|j: int| 0 <= j < e2.len() && #[trigger] e2[j].0@ == q;
                            if j < n { assert(e2[j] == e[j]); }
                        }
                        if entries_have(e, q) {
                            let j = choose|j: int| 0 <= j < e.len() && #[trigger] e[j].0@ == q;
                            assert(e2[j] == e[j]);
                        }
                        if q == kk { assert(e2[n].0@ == q); }
                    }
                }
            },
        }
        self.entries = entries;
    }
}

} // verus!
