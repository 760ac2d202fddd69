//! An ordered map from strings to values.
//!
//! Entries are kept strictly sorted by key in code-point order, which is the
//! order in which `String` keys of a `BTreeMap` are visited.  The abstract
//! model is a finite `Map<Seq<char>, V>`.
use vstd::prelude::*;

use crate::text::{seq_lt, str_lt, str_eq, owned};

verus! {

// ── Order lemmas ────────────────────────────────────────────────────────────

/// The code-point order on strings is irreflexive.
pub proof fn lemma_seq_lt_irreflexive(a: Seq<char>)
    ensures
        !seq_lt(a, a),
    decreases a.len(),
{
    if a.len() > 0 {
        lemma_seq_lt_irreflexive(a.drop_first());
    }
}

/// The code-point order on strings is transitive.
pub proof fn lemma_seq_lt_transitive(a: Seq<char>, b: Seq<char>, c: Seq<char>)
    requires
        seq_lt(a, b),
        seq_lt(b, c),
    ensures
        seq_lt(a, c),
    decreases a.len(),
{
    if a.len() > 0 && b.len() > 0 && c.len() > 0 && a[0] == b[0] && b[0] == c[0] {
        lemma_seq_lt_transitive(a.drop_first(), b.drop_first(), c.drop_first());
    }
}

/// Any two distinct strings are ordered one way or the other.
pub proof fn lemma_seq_lt_total(a: Seq<char>, b: Seq<char>)
    requires
        a != b,
    ensures
        seq_lt(a, b) || seq_lt(b, a),
    decreases a.len(),
{
    if a.len() > 0 && b.len() > 0 && a[0] == b[0] {
        if a.drop_first() == b.drop_first() {
            assert(a =~= seq![a[0]] + a.drop_first());
            assert(b =~= seq![b[0]] + b.drop_first());
            assert(a == b);
        } else {
            lemma_seq_lt_total(a.drop_first(), b.drop_first());
        }
    } else if a.len() == 0 && b.len() == 0 {
        assert(a =~= b);
    } else if a.len() > 0 && b.len() > 0 {
        assert(a[0] != b[0]);
    }
}

/// The order is asymmetric.
pub proof fn lemma_seq_lt_asymmetric(a: Seq<char>, b: Seq<char>)
    requires
        seq_lt(a, b),
    ensures
        !seq_lt(b, a),
{
    if seq_lt(b, a) {
        lemma_seq_lt_transitive(a, b, a);
        lemma_seq_lt_irreflexive(a);
    }
}

// ── The map ─────────────────────────────────────────────────────────────────

/// Ordered map from strings to values, kept as a sorted association list.
pub struct StrMap<V> {
    entries: Vec<(String, V)>,
}

impl<V> StrMap<V> {
    /// Key of the `i`-th entry.
    pub closed spec fn key(&self, i: int) -> Seq<char> {
        self.entries@[i].0@
    }

    /// Entries in key order, as `(key, value)` pairs.
    pub closed spec fn sorted_entries(&self) -> Seq<(Seq<char>, V)> {
        self.entries@.map_values(|e: (String, V)| (e.0@, e.1))
    }

    /// Keys strictly increase.
    #[verifier::type_invariant]
    closed spec fn sorted(&self) -> bool {
        forall|i: int, j: int|
            0 <= i < j < self.entries@.len() ==> seq_lt(#[trigger] self.key(i), #[trigger] self.key(j))
    }

    /// Index of key `k`, if present.
    closed spec fn has_key_at(&self, k: Seq<char>, i: int) -> bool {
        0 <= i < self.entries@.len() && self.key(i) == k
    }

    /// The abstract map.
    pub closed spec fn view(&self) -> Map<Seq<char>, V> {
        Map::new(
            |k: Seq<char>| exists|i: int| self.has_key_at(k, i),
            |k: Seq<char>| self.entries@[choose|i: int| self.has_key_at(k, i)].1,
        )
    }

    proof fn lemma_unique(&self, i: int, j: int)
        requires
            self.sorted(),
            0 <= i < self.entries@.len(),
            0 <= j < self.entries@.len(),
            self.key(i) == self.key(j),
        ensures
            i == j,
    {
        if i < j {
            lemma_seq_lt_irreflexive(self.key(i));
        } else if j < i {
            lemma_seq_lt_irreflexive(self.key(i));
        }
    }

    proof fn lemma_view_at(&self, i: int)
        requires
            self.sorted(),
            0 <= i < self.entries@.len(),
        ensures
            self@.contains_key(self.key(i)),
            self@[self.key(i)] == self.entries@[i].1,
    {
        let k = self.key(i);
        assert(self.has_key_at(k, i));
        let j = choose|j: int| self.has_key_at(k, j);
        self.lemma_unique(i, j);
    }

    /// The entries describe the abstract map exactly, in strictly increasing key order.
    proof fn lemma_sorted_entries(&self)
        requires
            self.sorted(),
        ensures
            self.sorted_entries().len() == self@.dom().len(),
            self@.dom().finite(),
            forall|i: int|
                0 <= i < self.sorted_entries().len() ==> #[trigger] self@.contains_key(
                    self.sorted_entries()[i].0,
                ) && self@[self.sorted_entries()[i].0] == self.sorted_entries()[i].1,
            forall|k: Seq<char>|
                #[trigger] self@.contains_key(k) ==> exists|i: int|
                    0 <= i < self.sorted_entries().len() && self.sorted_entries()[i].0 == k,
            forall|i: int, j: int|
                0 <= i < j < self.sorted_entries().len() ==> seq_lt(
                    #[trigger] self.sorted_entries()[i].0,
                    #[trigger] self.sorted_entries()[j].0,
                ),
    {
        let es = self.sorted_entries();
        assert forall|i: int| 0 <= i < es.len() implies #[trigger] self@.contains_key(es[i].0)
            && self@[es[i].0] == es[i].1 by {
            self.lemma_view_at(i);
        }
        assert forall|k: Seq<char>| #[trigger] self@.contains_key(k) implies exists|i: int|
            0 <= i < es.len() && es[i].0 == k by {
            let i = choose|i: int| self.has_key_at(k, i);
            assert(es[i].0 == k);
        }
        assert forall|i: int, j: int| 0 <= i < j < es.len() implies seq_lt(
            #[trigger] es[i].0,
            #[trigger] es[j].0,
        ) by {
            assert(es[i].0 == self.key(i));
            assert(es[j].0 == self.key(j));
        }
        // the domain is the image of the key sequence, which has no duplicates
        let keys = es.map_values(|e: (Seq<char>, V)| e.0);
        assert forall|i: int, j: int| 0 <= i < keys.len() && 0 <= j < keys.len() && i != j implies keys[i]
            != keys[j] by {
            if keys[i] == keys[j] {
                assert(self.key(i) == keys[i]);
                assert(self.key(j) == keys[j]);
                self.lemma_unique(i, j);
            }
        }
        assert(keys.no_duplicates());
        assert(keys.to_set() =~= self@.dom()) by {
            assert forall|k: Seq<char>| keys.to_set().contains(k) <==> self@.dom().contains(k) by {
                if keys.to_set().contains(k) {
                    let i = choose|i: int| 0 <= i < keys.len() && keys[i] == k;
                    assert(keys[i] == es[i].0);
                    assert(self@.contains_key(es[i].0));
                }
                if self@.dom().contains(k) {
                    let i = choose|i: int| self.has_key_at(k, i);
                    assert(keys[i] == k);
                }
            }
        }
        keys.unique_seq_to_set();
        vstd::seq_lib::seq_to_set_is_finite(keys);
    }

    /// An empty map.
    pub fn new() -> (m: Self)
        ensures
            m@ == Map::<Seq<char>, V>::empty(),
            m.sorted_entries() == Seq::<(Seq<char>, V)>::empty(),
    {
        let m = StrMap { entries: Vec::new() };
        assert(m@ =~= Map::<Seq<char>, V>::empty());
        assert(m.sorted_entries() =~= Seq::<(Seq<char>, V)>::empty());
        m
    }

    /// Number of entries.
    pub fn len(&self) -> (n: usize)
        ensures
            self@.dom().finite(),
            n == self@.dom().len(),
            n == self.sorted_entries().len(),
    {
        proof {
            use_type_invariant(self);
            self.lemma_sorted_entries();
        }
        self.entries.len()
    }

    /// Whether the map has no entries.
    pub fn is_empty(&self) -> (b: bool)
        ensures
            b == (self@.dom().len() == 0),
    {
        self.len() == 0
    }

    /// Position of `k`: either its index, or the index where it would be inserted.
    fn search(&self, k: &str) -> (r: (usize, bool))
        ensures
            r.0 <= self.entries@.len(),
            r.1 ==> r.0 < self.entries@.len() && self.key(r.0 as int) == k@,
            forall|i: int| 0 <= i < r.0 ==> seq_lt(#[trigger] self.key(i), k@),
            !r.1 ==> forall|i: int| r.0 <= i < self.entries@.len() ==> seq_lt(k@, #[trigger] self.key(i)),
    {
        proof {
            use_type_invariant(self);
        }
        let mut i: usize = 0;
        while i < self.entries.len()
            invariant
                self.sorted(),
                i <= self.entries@.len(),
                forall|j: int| 0 <= j < i ==> seq_lt(#[trigger] self.key(j), k@),
            decreases self.entries@.len() - i,
        {
            let here = self.entries[i].0.as_str();
            if str_eq(here, k) {
                return (i, true);
            }
            if !str_lt(here, k) {
                proof {
                    lemma_seq_lt_total(self.key(i as int), k@);
                    assert forall|j: int| i <= j < self.entries@.len() implies seq_lt(
                        k@,
                        #[trigger] self.key(j),
                    ) by {
                        if j > i {
                            lemma_seq_lt_transitive(k@, self.key(i as int), self.key(j));
                        }
                    }
                }
                return (i, false);
            }
            i += 1;
        }
        (i, false)
    }

    /// Whether `k` is a key of the map.
    pub fn contains_key(&self, k: &str) -> (b: bool)
        ensures
            b == self@.contains_key(k@),
    {
        proof {
            use_type_invariant(self);
        }
        let (i, found) = self.search(k);
        proof {
            if found {
                self.lemma_view_at(i as int);
            } else if self@.contains_key(k@) {
                let j = choose|j: int| self.has_key_at(k@, j);
                if j < i {
                    lemma_seq_lt_irreflexive(k@);
                } else {
                    lemma_seq_lt_irreflexive(k@);
                }
            }
        }
        found
    }

    /// Value stored under `k`, if any.
    pub fn get(&self, k: &str) -> (r: Option<&V>)
        ensures
            r matches Some(v) ==> self@.contains_key(k@) && self@[k@] == *v,
            r is None ==> !self@.contains_key(k@),
    {
        proof {
            use_type_invariant(self);
        }
        let (i, found) = self.search(k);
        if found {
            proof {
                self.lemma_view_at(i as int);
            }
            Some(&self.entries[i].1)
        } else {
            proof {
                if self@.contains_key(k@) {
                    let j = choose|j: int| self.has_key_at(k@, j);
                    lemma_seq_lt_irreflexive(k@);
                }
            }
            None
        }
    }

    /// Stores `v` under `k`, replacing any previous value.
    pub fn insert(&mut self, k: &str, v: V)
        ensures
            final(self)@ == old(self)@.insert(k@, v),
            final(self)@.dom().finite(),
    {
        proof {
            use_type_invariant(&*self);
        }
        let (i, found) = self.search(k);
        let ghost old_entries = self.entries@;
        let ghost old_self = *self;
        let mut entries: Vec<(String, V)> = Vec::new();
        std::mem::swap(&mut entries, &mut self.entries);
        let key = owned(k);
        if found {
            entries.set(i, (key, v));
        } else {
            entries.insert(i, (key, v));
        }
        let ghost ne = entries@;
        proof {
            assert forall|a: int, b: int| 0 <= a < b < ne.len() implies seq_lt(
                #[trigger] ne[a].0@,
                #[trigger] ne[b].0@,
            ) by {
                if found {
                    assert(ne[a].0@ == old_self.key(a));
                    assert(ne[b].0@ == old_self.key(b));
                } else {
                    if b < i {
                        assert(ne[a] == old_entries[a]);
                        assert(ne[b] == old_entries[b]);
                        assert(seq_lt(old_self.key(a), old_self.key(b)));
                    } else if b == i {
                        assert(ne[a] == old_entries[a]);
                        assert(seq_lt(old_self.key(a), k@));
                    } else if a < i {
                        assert(ne[a] == old_entries[a]);
                        assert(ne[b] == old_entries[b - 1]);
                        assert(seq_lt(old_self.key(a), k@));
                        assert(seq_lt(k@, old_self.key(b - 1)));
                        lemma_seq_lt_transitive(old_self.key(a), k@, old_self.key(b - 1));
                    } else if a == i {
                        assert(ne[b] == old_entries[b - 1]);
                        assert(seq_lt(k@, old_self.key(b - 1)));
                    } else {
                        assert(ne[a] == old_entries[a - 1]);
                        assert(ne[b] == old_entries[b - 1]);
                        assert(seq_lt(old_self.key(a - 1), old_self.key(b - 1)));
                    }
                }
            }
        }
        self.entries = entries;
        proof {
            let m1 = self@;
            let m0 = old_self@.insert(k@, v);
            assert(self.key(i as int) == k@);
            assert(self.has_key_at(k@, i as int));
            self.lemma_view_at(i as int);
            assert forall|q: Seq<char>| m1.contains_key(q) <==> m0.contains_key(q) by {
                if m1.contains_key(q) && q != k@ {
                    let j = choose|j: int| self.has_key_at(q, j);
                    if found {
                        assert(old_self.has_key_at(q, j));
                    } else if j < i {
                        assert(old_self.has_key_at(q, j));
                    } else {
                        assert(j != i);
                        assert(old_self.has_key_at(q, j - 1));
                    }
                }
                if old_self@.contains_key(q) && q != k@ {
                    let j = choose|j: int| old_self.has_key_at(q, j);
                    if found || j < i {
                        assert(self.has_key_at(q, j));
                    } else {
                        assert(self.has_key_at(q, j + 1));
                    }
                }
            }
            assert forall|q: Seq<char>| #[trigger] m1.contains_key(q) implies m1[q] == m0[q] by {
                if q != k@ {
                    let j = choose|j: int| self.has_key_at(q, j);
                    self.lemma_view_at(j);
                    if found || j < i {
                        assert(old_self.has_key_at(q, j));
                        old_self.lemma_view_at(j);
                    } else {
                        assert(old_self.has_key_at(q, j - 1));
                        old_self.lemma_view_at(j - 1);
                    }
                }
            }
            assert(m1 =~= m0);
            self.lemma_sorted_entries();
        }
    }

    /// Entries in strictly increasing key order; they describe the map exactly.
    pub fn entries(&self) -> (r: &Vec<(String, V)>)
        ensures
            r@.map_values(|e: (String, V)| (e.0@, e.1)) == self.sorted_entries(),
            r@.len() == self@.dom().len(),
            forall|i: int|
                0 <= i < r@.len() ==> #[trigger] self@.contains_key(r@[i].0@) && self@[r@[i].0@]
                    == r@[i].1,
            forall|k: Seq<char>|
                #[trigger] self@.contains_key(k) ==> exists|i: int| 0 <= i < r@.len() && r@[i].0@ == k,
            forall|i: int, j: int|
                0 <= i < j < r@.len() ==> seq_lt(#[trigger] r@[i].0@, #[trigger] r@[j].0@),
    {
        proof {
            use_type_invariant(self);
            self.lemma_sorted_entries();
            let es = self.sorted_entries();
            assert(es.len() == self.entries@.len());
            assert forall|i: int| 0 <= i < self.entries@.len() implies es[i].0 == self.entries@[i].0@
                && es[i].1 == self.entries@[i].1 by {}
            assert forall|k: Seq<char>| #[trigger] self@.contains_key(k) implies exists|i: int|
                0 <= i < self.entries@.len() && self.entries@[i].0@ == k by {
                let i = choose|i: int| 0 <= i < es.len() && es[i].0 == k;
                assert(es[i].0 == self.entries@[i].0@);
            }
            assert forall|i: int| 0 <= i < self.entries@.len() implies #[trigger] self@.contains_key(
                self.entries@[i].0@,
            ) && self@[self.entries@[i].0@] == self.entries@[i].1 by {
                assert(es[i].0 == self.entries@[i].0@);
                assert(self@.contains_key(es[i].0));
            }
            assert forall|i: int, j: int| 0 <= i < j < self.entries@.len() implies seq_lt(
                #[trigger] self.entries@[i].0@,
                #[trigger] self.entries@[j].0@,
            ) by {
                assert(es[i].0 == self.entries@[i].0@);
                assert(es[j].0 == self.entries@[j].0@);
            }
        }
        &self.entries
    }
}

} // verus!
