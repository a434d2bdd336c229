//! Maps and sets keyed by strings, kept in key order.
//!
//! They stand where the package manager keeps `BTreeMap<String, _>` and
//! `BTreeSet<String>`: iteration visits the keys in increasing order of
//! `String`'s `Ord`, which is the code point order `lex_lt`.

use vstd::prelude::*;
use crate::text::{chars_eq, chars_lt, lemma_lex_irreflexive, lemma_lex_total, lemma_lex_transitive, lex_lt, str_chars};

verus! {

/// The keys are in strictly increasing order.
pub open spec fn sorted_keys(ks: Seq<Seq<char>>) -> bool {
    forall|i: int, j: int| 0 <= i < j < ks.len() ==> lex_lt(#[trigger] ks[i], #[trigger] ks[j])
}

/// A map from strings to values, iterated in key order.
#[derive(Debug)]
pub struct StrMap<V> {
    entries: Vec<(String, V)>,
}

impl<V> StrMap<V> {
    /// The keys, in iteration order.
    pub closed spec fn kseq(&self) -> Seq<Seq<char>> {
        self.entries@.map_values(|e: (String, V)| e.0@)
    }

    /// The values, in iteration order (`vseq()[i]` belongs to `kseq()[i]`).
    pub closed spec fn vseq(&self) -> Seq<V> {
        self.entries@.map_values(|e: (String, V)| e.1)
    }

    #[verifier::type_invariant]
    spec fn inv(&self) -> bool {
        sorted_keys(self.kseq())
    }

    /// Number of entries.
    pub open spec fn size(&self) -> nat {
        self.kseq().len()
    }

    /// Whether `k` is a key.
    pub open spec fn has(&self, k: Seq<char>) -> bool {
        self.kseq().contains(k)
    }

    /// The value stored under `k`, if any.
    pub open spec fn lookup(&self, k: Seq<char>) -> Option<V> {
        if self.has(k) {
            Some(self.vseq()[self.kseq().index_of(k)])
        } else {
            None
        }
    }

    /// The value stored under `k` if `k` is among the first `n` keys.
    pub open spec fn lookup_within(&self, k: Seq<char>, n: int) -> Option<V> {
        if self.kseq().take(n).contains(k) {
            Some(self.vseq()[self.kseq().index_of(k)])
        } else {
            None
        }
    }

    /// Taking one more key into account changes only the lookup of that key.
    pub proof fn lemma_lookup_within_step(&self, k: Seq<char>, n: int)
        requires
            sorted_keys(self.kseq()),
            0 <= n < self.size(),
        ensures
            self.lookup_within(k, n + 1) == (if k == self.kseq()[n] {
                Some(self.vseq()[n])
            } else {
                self.lookup_within(k, n)
            }),
    {
        let ks = self.kseq();
        self.lemma_lookup_at(n);
        if k == ks[n] {
            assert(ks.take(n + 1)[n] == k);
        } else {
            if ks.take(n + 1).contains(k) {
                let j = choose|j: int| 0 <= j < n + 1 && #[trigger] ks.take(n + 1)[j] == k;
                assert(ks.take(n)[j] == k);
            }
            if ks.take(n).contains(k) {
                let j = choose|j: int| 0 <= j < n && #[trigger] ks.take(n)[j] == k;
                assert(ks.take(n + 1)[j] == k);
            }
        }
    }

    /// Looking within all keys is looking up.
    pub proof fn lemma_lookup_within_all(&self, k: Seq<char>)
        ensures
            self.lookup_within(k, self.size() as int) == self.lookup(k),
    {
        assert(self.kseq().take(self.size() as int) =~= self.kseq());
    }

    /// Looking within no keys finds nothing.
    pub proof fn lemma_lookup_within_none(&self, k: Seq<char>)
        ensures
            self.lookup_within(k, 0) is None,
    {
    }

    /// Each key, at its position, holds the value at that position.
    pub proof fn lemma_lookup_at(&self, i: int)
        requires
            sorted_keys(self.kseq()),
            0 <= i < self.size(),
        ensures
            self.has(self.kseq()[i]),
            self.kseq().index_of(self.kseq()[i]) == i,
            self.lookup(self.kseq()[i]) == Some(self.vseq()[i]),
    {
        self.lemma_index_of_unique(self.kseq()[i], i);
    }

    /// There are as many values as keys.
    pub proof fn lemma_sizes(&self)
        ensures
            self.kseq().len() == self.vseq().len(),
    {
    }

    proof fn lemma_lens(&self)
        ensures
            self.kseq().len() == self.vseq().len(),
            self.kseq().len() == self.entries@.len(),
            forall|i: int|
                0 <= i < self.entries@.len() ==> #[trigger] self.kseq()[i] == self.entries@[i].0@
                    && self.vseq()[i] == self.entries@[i].1,
    {
    }

    /// The keys are strictly increasing (so each occurs once).
    pub fn keys_sorted(&self)
        ensures
            sorted_keys(self.kseq()),
    {
        proof {
            use_type_invariant(self);
        }
    }

    /// An empty map.
    pub fn new() -> (m: Self)
        ensures
            m.kseq() == Seq::<Seq<char>>::empty(),
            m.vseq() == Seq::<V>::empty(),
    {
        let m = StrMap { entries: Vec::new() };
        assert(m.kseq() =~= Seq::<Seq<char>>::empty());
        assert(m.vseq() =~= Seq::<V>::empty());
        m
    }

    /// Number of entries.
    pub fn len(&self) -> (n: usize)
        ensures
            n == self.size(),
    {
        proof {
            self.lemma_lens();
        }
        self.entries.len()
    }

    /// Whether the map has no entries.
    pub fn is_empty(&self) -> (b: bool)
        ensures
            b == (self.size() == 0),
    {
        proof {
            self.lemma_lens();
        }
        self.entries.len() == 0
    }

    /// The `i`-th key in iteration order.
    pub fn key_at(&self, i: usize) -> (k: &String)
        requires
            i < self.size(),
        ensures
            k@ == self.kseq()[i as int],
    {
        proof {
            self.lemma_lens();
        }
        &self.entries[i].0
    }

    /// The `i`-th value in iteration order.
    pub fn value_at(&self, i: usize) -> (v: &V)
        requires
            i < self.size(),
        ensures
            *v == self.vseq()[i as int],
    {
        proof {
            self.lemma_lens();
        }
        &self.entries[i].1
    }

    fn key_lt_at(&self, i: usize, kv: &Vec<char>) -> (b: bool)
        requires
            i < self.size(),
        ensures
            b == lex_lt(self.kseq()[i as int], kv@),
    {
        proof {
            self.lemma_lens();
        }
        let ev = str_chars(self.entries[i].0.as_str());
        chars_lt(&ev, kv)
    }

    /// Position of the key `k`, if present.
    pub fn index_of_key(&self, k: &str) -> (r: Option<usize>)
        ensures
            r matches Some(i) ==> i < self.size() && self.kseq()[i as int] == k@,
            r is None ==> !self.has(k@),
    {
        proof {
            self.lemma_lens();
        }
        let kv = str_chars(k);
        let mut i: usize = 0;
        while i < self.entries.len()
            invariant
                i <= self.entries@.len(),
                kv@ == k@,
                self.kseq().len() == self.entries@.len(),
                forall|j: int| 0 <= j < self.entries@.len() ==> #[trigger] self.kseq()[j] == self.entries@[j].0@,
                forall|j: int| 0 <= j < i ==> self.kseq()[j] != k@,
            decreases self.entries.len() - i,
        {
            let ev = str_chars(self.entries[i].0.as_str());
            if chars_eq(&ev, &kv) {
                return Some(i);
            }
            i += 1;
        }
        None
    }

    proof fn lemma_index_of_unique(&self, k: Seq<char>, i: int)
        requires
            sorted_keys(self.kseq()),
            0 <= i < self.kseq().len(),
            self.kseq()[i] == k,
        ensures
            self.has(k),
            self.kseq().index_of(k) == i,
    {
        let j = self.kseq().index_of(k);
        assert(self.kseq()[j] == k);
        if j < i {
            lemma_lex_irreflexive(k);
        } else if j > i {
            lemma_lex_irreflexive(k);
        }
    }

    /// The value stored under `k`, if any.
    pub fn get(&self, k: &str) -> (r: Option<&V>)
        ensures
            r matches Some(v) ==> self.lookup(k@) == Some(*v),
            r is None ==> self.lookup(k@) is None,
    {
        proof {
            use_type_invariant(self);
        }
        match self.index_of_key(k) {
            Some(i) => {
                proof {
                    self.lemma_index_of_unique(k@, i as int);
                }
                Some(self.value_at(i))
            },
            None => None,
        }
    }

    /// Whether `k` is a key.
    pub fn contains_key(&self, k: &str) -> (b: bool)
        ensures
            b == self.has(k@),
    {
        self.index_of_key(k).is_some()
    }

    /// Stores `v` under `k`, replacing any value already there.
    pub fn insert(&mut self, k: String, v: V)
        ensures
            sorted_keys(final(self).kseq()),
            final(self).has(k@),
            final(self).lookup(k@) == Some(v),
            forall|x: Seq<char>| x != k@ ==> final(self).has(x) == old(self).has(x),
            forall|x: Seq<char>| x != k@ ==> #[trigger] final(self).lookup(x) == old(self).lookup(x),
    {
        proof {
            use_type_invariant(&*self);
            self.lemma_lens();
        }
        let ghost ks = self.kseq();
        let kv = str_chars(k.as_str());
        let mut i: usize = 0;
        while i < self.entries.len() && self.key_lt_at(i, &kv)
            invariant
                i <= self.entries@.len(),
                kv@ == k@,
                ks == self.kseq(),
                sorted_keys(ks),
                ks.len() == self.entries@.len(),
                forall|j: int| 0 <= j < self.entries@.len() ==> #[trigger] ks[j] == self.entries@[j].0@,
                forall|j: int| 0 <= j < i ==> lex_lt(#[trigger] ks[j], k@),
            decreases self.entries.len() - i,
        {
            i += 1;
        }
        let ghost old_entries = self.entries@;
        let ghost old_vs = self.vseq();
        if i < self.entries.len() && chars_eq(&str_chars(self.entries[i].0.as_str()), &kv) {
            // replace
            let mut es: Vec<(String, V)> = Vec::new();
            std::mem::swap(&mut es, &mut self.entries);
            es.set(i, (k, v));
            proof {
                assert(es@.map_values(|e: (String, V)| e.0@) =~= ks);
            }
            self.entries = es;
            proof {
                assert(self.entries@ == old_entries.update(i as int, (k, v)));
                assert(self.kseq() =~= ks);
                assert(self.vseq() =~= old_vs.update(i as int, v));
                self.lemma_index_of_unique(k@, i as int);
                assert forall|x: Seq<char>| x != k@ implies #[trigger] self.lookup(x)
                    == old(self).lookup(x) by {
                    if ks.contains(x) {
                        let j = ks.index_of(x);
                        self.lemma_index_of_unique(x, j);
                        old(self).lemma_index_of_unique(x, j);
                    }
                }
            }
        } else {
            proof {
                if i < ks.len() {
                    lemma_lex_total(ks[i as int], k@);
                    assert(lex_lt(k@, ks[i as int]));
                }
            }
            let ghost nks = ks.insert(i as int, k@);
            proof {
                assert forall|a: int, b: int| 0 <= a < b < nks.len() implies lex_lt(
                    #[trigger] nks[a],
                    #[trigger] nks[b],
                ) by {
                    if b < i {
                    } else if b == i {
                    } else if a == i {
                        if b - 1 > i {
                            lemma_lex_transitive(k@, ks[i as int], ks[b - 1]);
                        }
                    } else if a < i {
                        if b - 1 > i {
                            lemma_lex_transitive(ks[a], k@, ks[i as int]);
                            lemma_lex_transitive(ks[a], ks[i as int], ks[b - 1]);
                        } else {
                            lemma_lex_transitive(ks[a], k@, ks[b - 1]);
                        }
                    } else {
                    }
                }
            }
            let mut es: Vec<(String, V)> = Vec::new();
            std::mem::swap(&mut es, &mut self.entries);
            es.insert(i, (k, v));
            proof {
                assert(es@.map_values(|e: (String, V)| e.0@) =~= nks);
            }
            self.entries = es;
            proof {
                assert(self.kseq() =~= nks);
                assert(self.vseq() =~= old_vs.insert(i as int, v));
                self.lemma_index_of_unique(k@, i as int);
                assert forall|x: Seq<char>| x != k@ implies self.has(x) == old(self).has(x) by {
                    if ks.contains(x) {
                        let j = ks.index_of(x);
                        if j < i {
                            assert(nks[j] == x);
                        } else {
                            assert(nks[j + 1] == x);
                        }
                    }
                    if nks.contains(x) {
                        let j = nks.index_of(x);
                        if j < i {
                            assert(ks[j] == x);
                        } else if j > i {
                            assert(ks[j - 1] == x);
                        }
                    }
                }
                assert forall|x: Seq<char>| x != k@ implies #[trigger] self.lookup(x)
                    == old(self).lookup(x) by {
                    if ks.contains(x) {
                        let j = ks.index_of(x);
                        old(self).lemma_index_of_unique(x, j);
                        if j < i {
                            self.lemma_index_of_unique(x, j);
                        } else {
                            self.lemma_index_of_unique(x, j + 1);
                        }
                    }
                }
            }
        }
    }

    /// Removes `k`, giving back its value if it was there.
    pub fn remove(&mut self, k: &str) -> (r: Option<V>)
        ensures
            sorted_keys(final(self).kseq()),
            !final(self).has(k@),
            r == old(self).lookup(k@),
            forall|x: Seq<char>| x != k@ ==> final(self).has(x) == old(self).has(x),
            forall|x: Seq<char>| x != k@ ==> #[trigger] final(self).lookup(x) == old(self).lookup(x),
    {
        proof {
            use_type_invariant(&*self);
            self.lemma_lens();
        }
        let ghost ks = self.kseq();
        let ghost old_vs = self.vseq();
        match self.index_of_key(k) {
            None => None,
            Some(i) => {
                proof {
                    self.lemma_index_of_unique(k@, i as int);
                }
                let ghost nks = ks.remove(i as int);
                proof {
                    assert forall|a: int, b: int| 0 <= a < b < nks.len() implies lex_lt(
                        #[trigger] nks[a],
                        #[trigger] nks[b],
                    ) by {
                        let a2 = if a < i { a } else { a + 1 };
                        let b2 = if b < i { b } else { b + 1 };
                        assert(nks[a] == ks[a2] && nks[b] == ks[b2]);
                    }
                }
                let mut es: Vec<(String, V)> = Vec::new();
                std::mem::swap(&mut es, &mut self.entries);
                let (_, v) = es.remove(i);
                proof {
                    assert(es@.map_values(|e: (String, V)| e.0@) =~= nks);
                }
                self.entries = es;
                proof {
                    assert(self.kseq() =~= nks);
                    assert(self.vseq() =~= old_vs.remove(i as int));
                    assert(v == old_vs[i as int]);
                    assert(!self.has(k@)) by {
                        if nks.contains(k@) {
                            let j = choose|j: int| 0 <= j < nks.len() && nks[j] == k@;
                            let j2 = if j < i { j } else { j + 1 };
                            assert(ks[j2] == k@);
                            lemma_lex_irreflexive(k@);
                        }
                    }
                    assert forall|x: Seq<char>| x != k@ implies self.has(x) == old(self).has(x) by {
                        if ks.contains(x) {
                            let j = ks.index_of(x);
                            if j < i {
                                assert(nks[j] == x);
                            } else {
                                assert(nks[j - 1] == x);
                            }
                        }
                        if nks.contains(x) {
                            let j = nks.index_of(x);
                            if j < i {
                                assert(ks[j] == x);
                            } else {
                                assert(ks[j + 1] == x);
                            }
                        }
                    }
                    assert forall|x: Seq<char>| x != k@ implies #[trigger] self.lookup(x)
                        == old(self).lookup(x) by {
                        if ks.contains(x) {
                            let j = ks.index_of(x);
                            old(self).lemma_index_of_unique(x, j);
                            if j < i {
                                self.lemma_index_of_unique(x, j);
                            } else {
                                self.lemma_index_of_unique(x, j - 1);
                            }
                        }
                    }
                }
                Some(v)
            },
        }
    }
}

/// A set of strings, iterated in increasing order.
#[derive(Debug)]
pub struct StrSet {
    map: StrMap<()>,
}

impl StrSet {
    /// The members, in iteration order.
    pub closed spec fn elems(&self) -> Seq<Seq<char>> {
        self.map.kseq()
    }

    /// Whether `k` is a member.
    pub open spec fn has(&self, k: Seq<char>) -> bool {
        self.elems().contains(k)
    }

    /// The members as a set.
    pub open spec fn set_view(&self) -> Set<Seq<char>> {
        self.elems().to_set()
    }

    /// An empty set.
    pub fn new() -> (s: Self)
        ensures
            s.elems() == Seq::<Seq<char>>::empty(),
    {
        StrSet { map: StrMap::new() }
    }

    /// Number of members.
    pub fn len(&self) -> (n: usize)
        ensures
            n == self.elems().len(),
    {
        self.map.len()
    }

    /// The `i`-th member in iteration order.
    pub fn at(&self, i: usize) -> (k: &String)
        requires
            i < self.elems().len(),
        ensures
            k@ == self.elems()[i as int],
    {
        self.map.key_at(i)
    }

    /// The members are in strictly increasing order.
    pub fn elems_sorted(&self)
        ensures
            sorted_keys(self.elems()),
    {
        self.map.keys_sorted()
    }

    /// Whether `k` is a member.
    pub fn contains(&self, k: &str) -> (b: bool)
        ensures
            b == self.has(k@),
    {
        self.map.contains_key(k)
    }

    /// Adds `k`; returns whether it was new.
    pub fn insert(&mut self, k: String) -> (added: bool)
        ensures
            added == !old(self).has(k@),
            final(self).set_view() == old(self).set_view().insert(k@),
            final(self).has(k@),
            forall|x: Seq<char>| x != k@ ==> final(self).has(x) == old(self).has(x),
    {
        let ghost kv = k@;
        let present = self.map.contains_key(k.as_str());
        self.map.insert(k, ());
        assert forall|x: Seq<char>| x != kv implies self.has(x) == old(self).has(x) by {
            assert(self.map.has(x) == old(self).map.has(x));
        }
        assert forall|x: Seq<char>| self.set_view().contains(x) == old(self).set_view().insert(kv).contains(x) by {
            assert(self.set_view().contains(x) == self.has(x));
            assert(old(self).set_view().contains(x) == old(self).has(x));
        }
        assert(self.set_view() =~= old(self).set_view().insert(kv));
        !present
    }
}

} // verus!

verus! {

/// `ks` with `x` put in its place (nothing added when it is there).
pub open spec fn sorted_insert(ks: Seq<Seq<char>>, x: Seq<char>) -> Seq<Seq<char>>
    decreases ks.len(),
{
    if ks.len() == 0 {
        seq![x]
    } else if ks[0] == x {
        ks
    } else if lex_lt(x, ks[0]) {
        seq![x] + ks
    } else {
        seq![ks[0]] + sorted_insert(ks.drop_first(), x)
    }
}

proof fn lemma_sorted_insert(ks: Seq<Seq<char>>, x: Seq<char>)
    requires
        sorted_keys(ks),
    ensures
        sorted_keys(sorted_insert(ks, x)),
        forall|y: Seq<char>| #[trigger] sorted_insert(ks, x).contains(y) <==> (ks.contains(y) || y == x),
    decreases ks.len(),
{
    let r = sorted_insert(ks, x);
    if ks.len() == 0 {
        assert(r[0] == x);
    } else if ks[0] == x {
    } else if lex_lt(x, ks[0]) {
        assert forall|i: int, j: int| 0 <= i < j < r.len() implies lex_lt(#[trigger] r[i], #[trigger] r[j]) by {
            if i == 0 {
                assert(r[j] == ks[j - 1]);
                if j - 1 > 0 {
                    lemma_lex_transitive(x, ks[0], ks[j - 1]);
                }
            } else {
                assert(r[i] == ks[i - 1] && r[j] == ks[j - 1]);
            }
        }
        assert forall|y: Seq<char>| r.contains(y) <==> (ks.contains(y) || y == x) by {
            if r.contains(y) {
                let i = choose|i: int| 0 <= i < r.len() && r[i] == y;
                if i > 0 {
                    assert(ks[i - 1] == y);
                }
            }
            if ks.contains(y) {
                let i = choose|i: int| 0 <= i < ks.len() && ks[i] == y;
                assert(r[i + 1] == y);
            }
            if y == x {
                assert(r[0] == x);
            }
        }
    } else {
        let t = ks.drop_first();
        assert(sorted_keys(t)) by {
            assert forall|i: int, j: int| 0 <= i < j < t.len() implies lex_lt(#[trigger] t[i], #[trigger] t[j]) by {
                assert(t[i] == ks[i + 1] && t[j] == ks[j + 1]);
            }
        }
        lemma_sorted_insert(t, x);
        let rt = sorted_insert(t, x);
        lemma_lex_total(x, ks[0]);
        assert(lex_lt(ks[0], x));
        assert forall|k: int| 0 <= k < rt.len() implies lex_lt(ks[0], #[trigger] rt[k]) by {
            assert(rt.contains(rt[k]));
            if rt[k] != x {
                assert(t.contains(rt[k]));
                let i = choose|i: int| 0 <= i < t.len() && t[i] == rt[k];
                assert(ks[i + 1] == rt[k]);
                assert(lex_lt(ks[0], ks[i + 1]));
            }
        }
        assert forall|i: int, j: int| 0 <= i < j < r.len() implies lex_lt(#[trigger] r[i], #[trigger] r[j]) by {
            assert(r[j] == rt[j - 1]);
            if i > 0 {
                assert(r[i] == rt[i - 1]);
            }
        }
        assert forall|y: Seq<char>| r.contains(y) <==> (ks.contains(y) || y == x) by {
            if r.contains(y) {
                let i = choose|i: int| 0 <= i < r.len() && r[i] == y;
                if i == 0 {
                    assert(ks[0] == y);
                } else {
                    assert(rt[i - 1] == y);
                    assert(rt.contains(y));
                    if y != x {
                        assert(t.contains(y));
                        let k = choose|k: int| 0 <= k < t.len() && t[k] == y;
                        assert(ks[k + 1] == y);
                    }
                }
            }
            if ks.contains(y) {
                let i = choose|i: int| 0 <= i < ks.len() && ks[i] == y;
                if i > 0 {
                    assert(t[i - 1] == y);
                    assert(t.contains(y));
                    assert(rt.contains(y));
                    let k = choose|k: int| 0 <= k < rt.len() && rt[k] == y;
                    assert(r[k + 1] == y);
                } else {
                    assert(r[0] == y);
                }
            }
            if y == x {
                assert(rt.contains(x));
                let k = choose|k: int| 0 <= k < rt.len() && rt[k] == y;
                assert(r[k + 1] == y);
            }
        }
    }
}

/// Every finite list of keys can be put in strictly increasing order.
pub proof fn lemma_sorted_of(s: Seq<Seq<char>>) -> (ks: Seq<Seq<char>>)
    ensures
        sorted_keys(ks),
        forall|y: Seq<char>| #[trigger] ks.contains(y) <==> s.contains(y),
    decreases s.len(),
{
    if s.len() == 0 {
        Seq::empty()
    } else {
        let p = lemma_sorted_of(s.drop_last());
        lemma_sorted_insert(p, s.last());
        assert forall|y: Seq<char>| s.contains(y) <==> (s.drop_last().contains(y) || y == s.last()) by {
            if s.contains(y) {
                let i = choose|i: int| 0 <= i < s.len() && s[i] == y;
                if i < s.len() - 1 {
                    assert(s.drop_last()[i] == y);
                }
            }
            if s.drop_last().contains(y) {
                let i = choose|i: int| 0 <= i < s.drop_last().len() && s.drop_last()[i] == y;
                assert(s[i] == y);
            }
            if y == s.last() {
                assert(s[s.len() - 1] == y);
            }
        }
        sorted_insert(p, s.last())
    }
}

} // verus!
