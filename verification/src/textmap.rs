//! A map from strings to values that iterates in key order.
//!
//! Property sets, parameter bags, and the element store all need stable, sorted iteration so
//! that export is byte-reproducible. This is that map: a vector of entries kept strictly
//! sorted by key.

use vstd::prelude::*;
use crate::text::{compare_str, lemma_seq_lt_irreflexive, lemma_seq_lt_transitive, seq_lt, Rank};

verus! {

/// A string-keyed map with entries held in strictly increasing key order.
#[derive(Debug, PartialEq)]
pub struct TextMap<V> {
    entries: Vec<(String, V)>,
}

/// Keys of a list of entries, in order.
pub open spec fn keys_of<V>(s: Seq<(String, V)>) -> Seq<Seq<char>> {
    s.map_values(|e: (String, V)| e.0@)
}

/// Strictly increasing keys: sorted, and therefore no key twice.
pub open spec fn strictly_sorted(k: Seq<Seq<char>>) -> bool {
    forall|i: int, j: int| 0 <= i < j < k.len() ==> seq_lt(#[trigger] k[i], #[trigger] k[j])
}

impl<V> TextMap<V> {
    #[verifier::type_invariant]
    closed spec fn sorted(&self) -> bool {
        strictly_sorted(keys_of(self.entries@))
    }

    /// The entries, in key order.
    pub closed spec fn items(&self) -> Seq<(String, V)> {
        self.entries@
    }

    /// The map the entries describe.
    pub closed spec fn view(&self) -> Map<Seq<char>, V> {
        view_of(self.entries@)
    }

    /// Entries are strictly sorted by key, and each one is what the map holds for its key.
    pub open spec fn items_describe_view(&self) -> bool {
        &&& strictly_sorted(keys_of(self.items()))
        &&& forall|i: int|
                0 <= i < self.items().len() ==> self@.contains_key(#[trigger] self.items()[i].0@)
                    && self@[self.items()[i].0@] == self.items()[i].1
        &&& forall|k: Seq<char>| #[trigger]
                self@.contains_key(k) ==> exists|i: int|
                    0 <= i < self.items().len() && #[trigger] self.items()[i].0@ == k
        &&& self@.dom().finite()
        &&& self@.len() == self.items().len()
    }

    proof fn lemma_items(&self)
        requires
            strictly_sorted(keys_of(self.entries@)),
        ensures
            strictly_sorted(keys_of(self.items())),
            forall|i: int|
                0 <= i < self.items().len() ==> self@.contains_key(#[trigger] self.items()[i].0@)
                    && self@[self.items()[i].0@] == self.items()[i].1,
            forall|k: Seq<char>| #[trigger]
                self@.contains_key(k) ==> exists|i: int|
                    0 <= i < self.items().len() && #[trigger] self.items()[i].0@ == k,
            self@.dom().finite(),
            self@.len() == self.items().len(),
    {
        assert forall|i: int| 0 <= i < self.items().len() implies self@.contains_key(
            #[trigger] self.items()[i].0@,
        ) && self@[self.items()[i].0@] == self.items()[i].1 by {
            self.lemma_at(i);
        }
        assert forall|k: Seq<char>| #[trigger] self@.contains_key(k) implies exists|i: int|
            0 <= i < self.items().len() && #[trigger] self.items()[i].0@ == k by {
            let i = choose|i: int| 0 <= i < self.entries@.len() && #[trigger] self.entries@[i].0@ == k;
            assert(self.items()[i].0@ == k);
        }
        self.lemma_dom_len();
    }

    proof fn lemma_at(&self, i: int)
        requires
            strictly_sorted(keys_of(self.entries@)),
            0 <= i < self.entries@.len(),
        ensures
            self@.contains_key(self.entries@[i].0@),
            self@[self.entries@[i].0@] == self.entries@[i].1,
    {
        lemma_view_of_at(self.entries@, i);
    }

    proof fn lemma_dom_len(&self)
        requires
            strictly_sorted(keys_of(self.entries@)),
        ensures
            self@.dom().finite(),
            self@.len() == self.entries@.len(),
        decreases self.entries@.len(),
    {
        let ks = keys_of(self.entries@);
        let s = ks.to_set();
        assert(self@.dom() =~= s) by {
            assert forall|k: Seq<char>| self@.dom().contains(k) <==> s.contains(k) by {
                if self@.dom().contains(k) {
                    let i = choose|i: int| 0 <= i < self.entries@.len() && #[trigger] self.entries@[i].0@ == k;
                    assert(ks[i] == k);
                }
                if s.contains(k) {
                    let i = choose|i: int| 0 <= i < ks.len() && ks[i] == k;
                    assert(self.entries@[i].0@ == k);
                }
            }
        }
        assert(ks.no_duplicates()) by {
            assert forall|i: int, j: int| 0 <= i < ks.len() && 0 <= j < ks.len() && i != j implies ks[i] != ks[j] by {
                lemma_seq_lt_irreflexive(ks[i]);
                if i < j {
                    assert(seq_lt(ks[i], ks[j]));
                } else {
                    assert(seq_lt(ks[j], ks[i]));
                }
            }
        }
        ks.unique_seq_to_set();
    }

    /// The keys present are finitely many.
    pub proof fn lemma_finite(&self)
        ensures
            self@.dom().finite(),
    {
        let ks = keys_of(self.entries@);
        assert(self@.dom() =~= ks.to_set()) by {
            assert forall|k: Seq<char>| self@.dom().contains(k) <==> ks.to_set().contains(k) by {
                if self@.dom().contains(k) {
                    let i = choose|i: int| 0 <= i < self.entries@.len() && #[trigger] self.entries@[i].0@ == k;
                    assert(ks[i] == k);
                }
                if ks.to_set().contains(k) {
                    let i = choose|i: int| 0 <= i < ks.len() && ks[i] == k;
                    assert(self.entries@[i].0@ == k);
                }
            }
        }
        vstd::seq_lib::seq_to_set_is_finite(ks);
    }

    /// An empty map.
    pub fn new() -> (r: Self)
        ensures
            r@ == Map::<Seq<char>, V>::empty(),
            r.items().len() == 0,
    {
        let r = TextMap { entries: Vec::new() };
        assert(r@ =~= Map::<Seq<char>, V>::empty());
        r
    }

    pub fn len(&self) -> (r: usize)
        ensures
            r == self.items().len(),
            r == self@.len(),
    {
        proof { use_type_invariant(self); self.lemma_items(); }
        self.entries.len()
    }

    pub fn is_empty(&self) -> (r: bool)
        ensures
            r == (self@.len() == 0),
            r == (self.items().len() == 0),
    {
        proof { use_type_invariant(self); self.lemma_items(); }
        self.entries.len() == 0
    }

    /// The entries in key order.
    pub fn as_slice(&self) -> (r: &[(String, V)])
        ensures
            r@ == self.items(),
            self.items_describe_view(),
    {
        proof { use_type_invariant(self); self.lemma_items(); }
        self.entries.as_slice()
    }

    /// The entry at `i` in key order.
    pub fn entry(&self, i: usize) -> (r: &(String, V))
        requires
            i < self.items().len(),
        ensures
            *r == self.items()[i as int],
    {
        &self.entries[i]
    }

    /// Where `key` sits: the first entry not below it, and whether that entry is `key`.
    fn position(&self, key: &str) -> (r: (usize, bool))
        ensures
            r.0 <= self.items().len(),
            forall|i: int| 0 <= i < r.0 ==> seq_lt(#[trigger] self.items()[i].0@, key@),
            r.1 ==> r.0 < self.items().len() && self.items()[r.0 as int].0@ == key@,
            !r.1 ==> r.0 < self.items().len() ==> seq_lt(key@, self.items()[r.0 as int].0@),
            !r.1 ==> !self@.contains_key(key@),
    {
        proof { use_type_invariant(self); }
        let mut i: usize = 0;
        while i < self.entries.len()
            invariant
                strictly_sorted(keys_of(self.entries@)),
                i <= self.entries.len(),
                forall|j: int| 0 <= j < i ==> seq_lt(#[trigger] self.entries@[j].0@, key@),
            decreases self.entries.len() - i,
        {
            let r = compare_str(self.entries[i].0.as_str(), key);
            match r {
                Rank::Less => {},
                Rank::Equal => {
                    return (i, true);
                },
                Rank::Greater => {
                    proof { self.lemma_absent_from(i as int, key@); }
                    return (i, false);
                },
            }
            i += 1;
        }
        proof { self.lemma_absent_from(i as int, key@); }
        (i, false)
    }

    proof fn lemma_absent_from(&self, p: int, k: Seq<char>)
        requires
            strictly_sorted(keys_of(self.entries@)),
            0 <= p <= self.entries@.len(),
            forall|j: int| 0 <= j < p ==> seq_lt(#[trigger] self.entries@[j].0@, k),
            p < self.entries@.len() ==> seq_lt(k, self.entries@[p].0@),
        ensures
            !self@.contains_key(k),
    {
        let ks = keys_of(self.entries@);
        if self@.contains_key(k) {
            let i = choose|i: int| 0 <= i < self.entries@.len() && #[trigger] self.entries@[i].0@ == k;
            lemma_seq_lt_irreflexive(k);
            if i >= p {
                if i > p {
                    assert(seq_lt(ks[p], ks[i]));
                    lemma_seq_lt_transitive(k, ks[p], ks[i]);
                }
            } else {
                assert(seq_lt(self.entries@[i].0@, k));
            }
        }
    }

    /// Whether some entry has this key.
    pub fn contains_key(&self, key: &str) -> (r: bool)
        ensures
            r == self@.contains_key(key@),
    {
        let (_, found) = self.position(key);
        found
    }

    /// The value for `key`, if any.
    pub fn get(&self, key: &str) -> (r: Option<&V>)
        ensures
            match r {
                Some(v) => self@.contains_key(key@) && *v == self@[key@],
                None => !self@.contains_key(key@),
            },
    {
        proof { use_type_invariant(self); }
        let (i, found) = self.position(key);
        if found {
            proof { self.lemma_at(i as int); }
            Some(&self.entries[i].1)
        } else {
            None
        }
    }

    /// Set `key` to `value`, returning what it held before.
    pub fn insert(&mut self, key: String, value: V) -> (r: Option<V>)
        ensures
            final(self)@ == old(self)@.insert(key@, value),
            match r {
                Some(v) => old(self)@.contains_key(key@) && v == old(self)@[key@],
                None => !old(self)@.contains_key(key@),
            },
    {
        proof { use_type_invariant(&*self); }
        let (p, found) = self.position(key.as_str());
        let ghost old_entries = self.entries@;
        let ghost k = key@;
        let mut entries: Vec<(String, V)> = Vec::new();
        std::mem::swap(&mut entries, &mut self.entries);
        assert(entries@ == old_entries);
        if found {
            proof { self.lemma_at_seq(old_entries, p as int); }
            let (old_key, previous) = entries.remove(p);
            entries.insert(p, (old_key, value));
            proof {
                assert(keys_of(entries@) =~= keys_of(old_entries));
                lemma_replace_view(old_entries, entries@, p as int, value);
            }
            self.entries = entries;
            Some(previous)
        } else {
            entries.insert(p, (key, value));
            proof {
                lemma_insert_sorted(old_entries, entries@, p as int, k);
                lemma_insert_view(old_entries, entries@, p as int, k, value);
            }
            self.entries = entries;
            None
        }
    }

    proof fn lemma_at_seq(&self, s: Seq<(String, V)>, i: int)
        requires
            strictly_sorted(keys_of(s)),
            0 <= i < s.len(),
        ensures
            view_of(s).contains_key(s[i].0@),
            view_of(s)[s[i].0@] == s[i].1,
    {
        lemma_view_of_at(s, i);
    }

    /// Remove `key`, returning what it held.
    pub fn remove(&mut self, key: &str) -> (r: Option<V>)
        ensures
            final(self)@ == old(self)@.remove(key@),
            match r {
                Some(v) => old(self)@.contains_key(key@) && v == old(self)@[key@],
                None => !old(self)@.contains_key(key@),
            },
    {
        proof { use_type_invariant(&*self); }
        let (p, found) = self.position(key);
        if !found {
            proof {
                assert(self@ =~= self@.remove(key@));
            }
            return None;
        }
        let ghost old_entries = self.entries@;
        let mut entries: Vec<(String, V)> = Vec::new();
        std::mem::swap(&mut entries, &mut self.entries);
        proof { lemma_view_of_at(old_entries, p as int); }
        let (_, previous) = entries.remove(p);
        proof {
            lemma_remove_sorted(old_entries, entries@, p as int);
            lemma_remove_view(old_entries, entries@, p as int);
        }
        self.entries = entries;
        Some(previous)
    }
}

/// A value that can be copied with its view kept.
pub trait Duplicate: View + Sized {
    fn duplicate(&self) -> (r: Self)
        ensures
            r@ == self@,
    ;
}

/// The views of a map's values.
pub open spec fn view_values<V: View>(m: Map<Seq<char>, V>) -> Map<Seq<char>, V::V> {
    m.map_values(|v: V| v@)
}

impl<V: Duplicate> TextMap<V> {
    /// A copy whose keys are the same and whose values have the same views.
    pub fn duplicate_map(&self) -> (r: Self)
        ensures
            r@.dom() == self@.dom(),
            forall|k: Seq<char>| #[trigger] r@.contains_key(k) ==> r@[k]@ == self@[k]@,
            view_values(r@) == view_values(self@),
            keys_of(r.items()) == keys_of(self.items()),
    {
        proof { use_type_invariant(self); }
        let mut out: Vec<(String, V)> = Vec::new();
        let mut i: usize = 0;
        while i < self.entries.len()
            invariant
                i <= self.entries.len(),
                out@.len() == i,
                forall|j: int| 0 <= j < i ==> (#[trigger] out@[j]).0 == self.entries@[j].0 && out@[j].1@ == self.entries@[j].1@,
            decreases self.entries.len() - i,
        {
            let e = &self.entries[i];
            out.push((e.0.clone(), e.1.duplicate()));
            i += 1;
        }
        assert(keys_of(out@) =~= keys_of(self.entries@));
        let r = TextMap { entries: out };
        proof {
            assert forall|k: Seq<char>| r@.contains_key(k) <==> self@.contains_key(k) by {
                if r@.contains_key(k) {
                    let j = choose|j: int| 0 <= j < out@.len() && #[trigger] out@[j].0@ == k;
                    assert(self.entries@[j].0@ == k);
                }
                if self@.contains_key(k) {
                    let j = choose|j: int| 0 <= j < self.entries@.len() && #[trigger] self.entries@[j].0@ == k;
                    assert(out@[j].0@ == k);
                }
            }
            assert(r@.dom() =~= self@.dom());
            assert forall|k: Seq<char>| #[trigger] r@.contains_key(k) implies r@[k]@ == self@[k]@ by {
                let j = choose|j: int| 0 <= j < out@.len() && #[trigger] out@[j].0@ == k;
                lemma_view_of_at(out@, j);
                lemma_view_of_at(self.entries@, j);
            }
            assert(view_values(r@) =~= view_values(self@));
        }
        r
    }
}

/// The view of a list of entries, as `TextMap::view` defines it.
pub open spec fn view_of<V>(s: Seq<(String, V)>) -> Map<Seq<char>, V> {
    Map::new(
        |k: Seq<char>| exists|i: int| 0 <= i < s.len() && #[trigger] s[i].0@ == k,
        |k: Seq<char>| s[index_of(s, k)].1,
    )
}

/// Where an entry with key `k` sits, if there is one.
pub open spec fn index_of<V>(s: Seq<(String, V)>, k: Seq<char>) -> int {
    choose|i: int| 0 <= i < s.len() && #[trigger] s[i].0@ == k
}

proof fn lemma_view_of_at<V>(s: Seq<(String, V)>, i: int)
    requires
        strictly_sorted(keys_of(s)),
        0 <= i < s.len(),
    ensures
        view_of(s).contains_key(s[i].0@),
        view_of(s)[s[i].0@] == s[i].1,
{
    let k = s[i].0@;
    assert(exists|i: int| 0 <= i < s.len() && #[trigger] s[i].0@ == k);
    let j = index_of(s, k);
    if j != i {
        let ks = keys_of(s);
        assert(ks[i] == k && ks[j] == k);
        lemma_seq_lt_irreflexive(k);
        if i < j {
            assert(seq_lt(ks[i], ks[j]));
        } else {
            assert(seq_lt(ks[j], ks[i]));
        }
    }
}

proof fn lemma_insert_sorted<V>(s: Seq<(String, V)>, t: Seq<(String, V)>, p: int, k: Seq<char>)
    requires
        strictly_sorted(keys_of(s)),
        0 <= p <= s.len(),
        t.len() == s.len() + 1,
        t[p].0@ == k,
        forall|i: int| 0 <= i < p ==> t[i] == s[i],
        forall|i: int| p < i < t.len() ==> t[i] == s[i - 1],
        forall|j: int| 0 <= j < p ==> seq_lt(#[trigger] s[j].0@, k),
        p < s.len() ==> seq_lt(k, s[p].0@),
    ensures
        strictly_sorted(keys_of(t)),
{
    let ks = keys_of(s);
    let kt = keys_of(t);
    assert forall|i: int, j: int| 0 <= i < j < kt.len() implies seq_lt(#[trigger] kt[i], #[trigger] kt[j]) by {
        if j < p {
            assert(kt[i] == ks[i] && kt[j] == ks[j]);
        } else if j == p {
            assert(kt[i] == ks[i]);
        } else if i == p {
            assert(kt[j] == ks[j - 1]);
            if j - 1 > p {
                assert(seq_lt(ks[p], ks[j - 1]));
                lemma_seq_lt_transitive(k, ks[p], ks[j - 1]);
            }
        } else if i < p {
            assert(kt[i] == ks[i] && kt[j] == ks[j - 1]);
            assert(seq_lt(ks[i], k));
            if p < s.len() {
                lemma_seq_lt_transitive(ks[i], k, ks[p]);
                if j - 1 > p {
                    assert(seq_lt(ks[p], ks[j - 1]));
                    lemma_seq_lt_transitive(ks[i], ks[p], ks[j - 1]);
                }
            }
        } else {
            assert(kt[i] == ks[i - 1] && kt[j] == ks[j - 1]);
        }
    }
}

proof fn lemma_insert_view<V>(s: Seq<(String, V)>, t: Seq<(String, V)>, p: int, k: Seq<char>, v: V)
    requires
        strictly_sorted(keys_of(s)),
        strictly_sorted(keys_of(t)),
        0 <= p <= s.len(),
        t.len() == s.len() + 1,
        t[p].0@ == k,
        t[p].1 == v,
        forall|i: int| 0 <= i < p ==> t[i] == s[i],
        forall|i: int| p < i < t.len() ==> t[i] == s[i - 1],
        !(exists|i: int| 0 <= i < s.len() && #[trigger] s[i].0@ == k),
    ensures
        view_of(t) == view_of(s).insert(k, v),
{
    let a = view_of(s);
    let b = view_of(t);
    lemma_view_of_at(t, p);
    assert forall|q: Seq<char>| #[trigger] b.contains_key(q) <==> a.insert(k, v).contains_key(q) by {
        if q != k {
            if b.contains_key(q) {
                let i = choose|i: int| 0 <= i < t.len() && #[trigger] t[i].0@ == q;
                if i < p {
                    assert(s[i].0@ == q);
                } else {
                    assert(s[i - 1].0@ == q);
                }
            }
            if a.contains_key(q) {
                let i = choose|i: int| 0 <= i < s.len() && #[trigger] s[i].0@ == q;
                if i < p {
                    assert(t[i].0@ == q);
                } else {
                    assert(t[i + 1].0@ == q);
                }
            }
        }
    }
    assert forall|q: Seq<char>| #[trigger] b.contains_key(q) implies b[q] == a.insert(k, v)[q] by {
        if q != k {
            let i = choose|i: int| 0 <= i < s.len() && #[trigger] s[i].0@ == q;
            lemma_view_of_at(s, i);
            if i < p {
                lemma_view_of_at(t, i);
            } else {
                lemma_view_of_at(t, i + 1);
            }
        }
    }
    assert(b =~= a.insert(k, v));
}

proof fn lemma_replace_view<V>(s: Seq<(String, V)>, t: Seq<(String, V)>, p: int, v: V)
    requires
        strictly_sorted(keys_of(s)),
        0 <= p < s.len(),
        t.len() == s.len(),
        t[p].0@ == s[p].0@,
        t[p].1 == v,
        forall|i: int| 0 <= i < t.len() && i != p ==> t[i] == s[i],
        keys_of(t) == keys_of(s),
    ensures
        view_of(t) == view_of(s).insert(s[p].0@, v),
{
    let k = s[p].0@;
    let a = view_of(s);
    let b = view_of(t);
    lemma_view_of_at(t, p);
    assert forall|q: Seq<char>| #[trigger] b.contains_key(q) <==> a.insert(k, v).contains_key(q) by {
        if b.contains_key(q) {
            let i = choose|i: int| 0 <= i < t.len() && #[trigger] t[i].0@ == q;
            assert(keys_of(t)[i] == keys_of(s)[i]);
            assert(s[i].0@ == q);
        }
        if a.contains_key(q) {
            let i = choose|i: int| 0 <= i < s.len() && #[trigger] s[i].0@ == q;
            assert(keys_of(t)[i] == keys_of(s)[i]);
            assert(t[i].0@ == q);
        }
    }
    assert forall|q: Seq<char>| #[trigger] b.contains_key(q) implies b[q] == a.insert(k, v)[q] by {
        if q != k {
            let i = choose|i: int| 0 <= i < s.len() && #[trigger] s[i].0@ == q;
            lemma_view_of_at(s, i);
            lemma_view_of_at(t, i);
        }
    }
    assert(b =~= a.insert(k, v));
}

proof fn lemma_remove_sorted<V>(s: Seq<(String, V)>, t: Seq<(String, V)>, p: int)
    requires
        strictly_sorted(keys_of(s)),
        0 <= p < s.len(),
        t == s.remove(p),
    ensures
        strictly_sorted(keys_of(t)),
{
    let ks = keys_of(s);
    let kt = keys_of(t);
    assert forall|i: int, j: int| 0 <= i < j < kt.len() implies seq_lt(#[trigger] kt[i], #[trigger] kt[j]) by {
        if j < p {
            assert(kt[i] == ks[i] && kt[j] == ks[j]);
        } else if i < p {
            assert(kt[i] == ks[i] && kt[j] == ks[j + 1]);
        } else {
            assert(kt[i] == ks[i + 1] && kt[j] == ks[j + 1]);
        }
    }
}

proof fn lemma_remove_view<V>(s: Seq<(String, V)>, t: Seq<(String, V)>, p: int)
    requires
        strictly_sorted(keys_of(s)),
        strictly_sorted(keys_of(t)),
        0 <= p < s.len(),
        t == s.remove(p),
    ensures
        view_of(t) == view_of(s).remove(s[p].0@),
{
    let k = s[p].0@;
    let a = view_of(s);
    let b = view_of(t);
    assert forall|q: Seq<char>| #[trigger] b.contains_key(q) <==> a.remove(k).contains_key(q) by {
        if b.contains_key(q) {
            let i = choose|i: int| 0 <= i < t.len() && #[trigger] t[i].0@ == q;
            let ks = keys_of(s);
            lemma_seq_lt_irreflexive(k);
            if i < p {
                assert(s[i].0@ == q);
                assert(seq_lt(ks[i], ks[p]));
            } else {
                assert(s[i + 1].0@ == q);
                assert(seq_lt(ks[p], ks[i + 1]));
            }
        }
        if a.remove(k).contains_key(q) {
            let i = choose|i: int| 0 <= i < s.len() && #[trigger] s[i].0@ == q;
            if i < p {
                assert(t[i].0@ == q);
            } else {
                assert(i != p);
                assert(t[i - 1].0@ == q);
            }
        }
    }
    assert forall|q: Seq<char>| #[trigger] b.contains_key(q) implies b[q] == a.remove(k)[q] by {
        let i = choose|i: int| 0 <= i < t.len() && #[trigger] t[i].0@ == q;
        lemma_view_of_at(t, i);
        if i < p {
            lemma_view_of_at(s, i);
        } else {
            lemma_view_of_at(s, i + 1);
        }
    }
    assert(b =~= a.remove(k));
}

}
