//! A map from `(CIK, fiscal year)` to a drift fact, with the semantics of a
//! `HashMap`: inserting under a present key replaces its value.

use vstd::prelude::*;
use crate::filing::DriftKeyView;

verus! {

/// The abstract key of a concrete `(CIK, fiscal year)` key.
pub open spec fn key_view(k: (String, u16)) -> DriftKeyView {
    (k.0@, k.1)
}

/// The map that a list of entries with distinct keys denotes.
pub open spec fn entries_map<T>(e: Seq<((String, u16), T)>) -> Map<DriftKeyView, T>
    decreases e.len(),
{
    if e.len() == 0 {
        Map::empty()
    } else {
        entries_map(e.drop_last()).insert(key_view(e.last().0), e.last().1)
    }
}

/// No key occurs twice among the entries.
pub open spec fn distinct_keys<T>(e: Seq<((String, u16), T)>) -> bool {
    forall|i: int, j: int|
        0 <= i < j < e.len() ==> key_view(#[trigger] e[i].0) != key_view(#[trigger] e[j].0)
}

proof fn lemma_entries_map_dom<T>(e: Seq<((String, u16), T)>, k: DriftKeyView)
    ensures
        entries_map(e).dom().contains(k) <==> exists|i: int|
            0 <= i < e.len() && key_view(#[trigger] e[i].0) == k,
    decreases e.len(),
{
    if e.len() > 0 {
        lemma_entries_map_dom(e.drop_last(), k);
        if entries_map(e.drop_last()).dom().contains(k) {
            let i = choose|i: int| 0 <= i < e.drop_last().len() && key_view(#[trigger] e.drop_last()[i].0) == k;
            assert(e[i] == e.drop_last()[i]);
        }
        if exists|i: int| 0 <= i < e.len() && key_view(#[trigger] e[i].0) == k {
            let i = choose|i: int| 0 <= i < e.len() && key_view(#[trigger] e[i].0) == k;
            if i < e.len() - 1 {
                assert(e.drop_last()[i] == e[i]);
            }
        }
    }
}

proof fn lemma_entries_map_at<T>(e: Seq<((String, u16), T)>, i: int)
    requires
        distinct_keys(e),
        0 <= i < e.len(),
    ensures
        entries_map(e).dom().contains(key_view(e[i].0)),
        entries_map(e)[key_view(e[i].0)] == e[i].1,
    decreases e.len(),
{
    if i < e.len() - 1 {
        let d = e.drop_last();
        assert(d[i] == e[i]);
        assert(distinct_keys(d)) by {
            assert forall|a: int, b: int| 0 <= a < b < d.len() implies key_view(#[trigger] d[a].0)
                != key_view(#[trigger] d[b].0) by {
                assert(d[a] == e[a] && d[b] == e[b]);
            }
        }
        lemma_entries_map_at(d, i);
        assert(key_view(e[i].0) != key_view(e[e.len() - 1].0));
    }
}

proof fn lemma_entries_map_update<T>(e: Seq<((String, u16), T)>, i: int, k: (String, u16), v: T)
    requires
        distinct_keys(e),
        0 <= i < e.len(),
        key_view(k) == key_view(e[i].0),
    ensures
        entries_map(e.update(i, (k, v))) == entries_map(e).insert(key_view(k), v),
        distinct_keys(e.update(i, (k, v))),
    decreases e.len(),
{
    let u = e.update(i, (k, v));
    assert(distinct_keys(u)) by {
        assert forall|a: int, b: int| 0 <= a < b < u.len() implies key_view(#[trigger] u[a].0)
            != key_view(#[trigger] u[b].0) by {
            assert(key_view(u[a].0) == key_view(e[a].0));
            assert(key_view(u[b].0) == key_view(e[b].0));
        }
    }
    let d = e.drop_last();
    assert(distinct_keys(d)) by {
        assert forall|a: int, b: int| 0 <= a < b < d.len() implies key_view(#[trigger] d[a].0)
            != key_view(#[trigger] d[b].0) by {
            assert(d[a] == e[a] && d[b] == e[b]);
        }
    }
    if i == e.len() - 1 {
        assert(u.drop_last() =~= d);
        assert(entries_map(u) =~= entries_map(e).insert(key_view(k), v));
    } else {
        lemma_entries_map_update(d, i, k, v);
        assert(u.drop_last() =~= d.update(i, (k, v)));
        assert(key_view(e.last().0) != key_view(k)) by {
            assert(e.last() == e[e.len() - 1]);
        }
        assert(u.last() == e.last());
        assert(entries_map(u) =~= entries_map(e).insert(key_view(k), v));
    }
}

/// Drift facts keyed by `(CIK, fiscal year)`.
pub struct DriftMap<T> {
    entries: Vec<((String, u16), T)>,
}

impl<T> View for DriftMap<T> {
    type V = Map<DriftKeyView, T>;

    closed spec fn view(&self) -> Map<DriftKeyView, T> {
        entries_map(self.entries@)
    }
}

impl<T> DriftMap<T> {
    #[verifier::type_invariant]
    closed spec fn keys_are_distinct(self) -> bool {
        distinct_keys(self.entries@)
    }

    /// The keys in the order they were first inserted.
    pub closed spec fn keys_in_order(&self) -> Seq<DriftKeyView> {
        self.entries@.map_values(|e: ((String, u16), T)| key_view(e.0))
    }

    /// An empty map.
    pub fn new() -> (r: Self)
        ensures
            r@ == Map::<DriftKeyView, T>::empty(),
            r.keys_in_order() == Seq::<DriftKeyView>::empty(),
    {
        let r = DriftMap { entries: Vec::new() };
        assert(r.keys_in_order() =~= Seq::<DriftKeyView>::empty());
        r
    }

    fn find(&self, key: &(String, u16)) -> (r: Option<usize>)
        ensures
            match r {
                Some(i) => i < self.entries@.len() && key_view(self.entries@[i as int].0) == key_view(
                    *key,
                ),
                None => forall|i: int|
                    0 <= i < self.entries@.len() ==> key_view(#[trigger] self.entries@[i].0)
                        != key_view(*key),
            },
    {
        let n = self.entries.len();
        let mut i: usize = 0;
        while i < n
            invariant
                n == self.entries@.len(),
                i <= n,
                forall|j: int|
                    0 <= j < i ==> key_view(#[trigger] self.entries@[j].0) != key_view(*key),
            decreases n - i,
        {
            let e = &self.entries[i];
            if e.0.0 == key.0 && e.0.1 == key.1 {
                return Some(i);
            }
            i = i + 1;
        }
        None
    }

    /// The number of keys; also states that the keys in order are exactly
    /// the map's domain, each once.
    pub fn len(&self) -> (r: usize)
        ensures
            r == self.keys_in_order().len(),
            self.keys_in_order().no_duplicates(),
            forall|k: DriftKeyView| #[trigger]
                self@.dom().contains(k) <==> self.keys_in_order().contains(k),
            forall|i: int|
                0 <= i < self.keys_in_order().len() ==> self@.contains_key(
                    #[trigger] self.keys_in_order()[i],
                ),
    {
        proof {
            use_type_invariant(self);
            let ks = self.keys_in_order();
            assert forall|k: DriftKeyView| #[trigger]
                self@.dom().contains(k) <==> ks.contains(k) by {
                lemma_entries_map_dom(self.entries@, k);
                if ks.contains(k) {
                    let i = choose|i: int| 0 <= i < ks.len() && ks[i] == k;
                    assert(key_view(self.entries@[i].0) == k);
                }
                if self@.dom().contains(k) {
                    let i = choose|i: int|
                        0 <= i < self.entries@.len() && key_view(#[trigger] self.entries@[i].0) == k;
                    assert(ks[i] == k);
                }
            }
            assert forall|i: int| 0 <= i < ks.len() implies self@.contains_key(#[trigger] ks[i]) by {
                assert(ks.contains(ks[i]));
            }
            assert forall|i: int, j: int|
                0 <= i < ks.len() && 0 <= j < ks.len() && i != j implies ks[i] != ks[j] by {
                if i < j {
                    assert(key_view(self.entries@[i].0) != key_view(self.entries@[j].0));
                } else {
                    assert(key_view(self.entries@[j].0) != key_view(self.entries@[i].0));
                }
            }
        }
        self.entries.len()
    }

    /// The key that was `i`-th to be inserted.
    pub fn key_at(&self, i: usize) -> (r: &(String, u16))
        requires
            i < self.keys_in_order().len(),
        ensures
            key_view(*r) == self.keys_in_order()[i as int],
    {
        &self.entries[i].0
    }

    /// The value under `key`, if any.
    pub fn get(&self, key: &(String, u16)) -> (r: Option<&T>)
        ensures
            match r {
                Some(v) => self@.contains_key(key_view(*key)) && *v == self@[key_view(*key)],
                None => !self@.contains_key(key_view(*key)),
            },
    {
        proof {
            use_type_invariant(self);
        }
        match self.find(key) {
            Some(i) => {
                proof {
                    lemma_entries_map_at(self.entries@, i as int);
                }
                Some(&self.entries[i].1)
            },
            None => {
                proof {
                    lemma_entries_map_dom(self.entries@, key_view(*key));
                }
                None
            },
        }
    }

    /// Whether `key` has a value.
    pub fn contains_key(&self, key: &(String, u16)) -> (r: bool)
        ensures
            r == self@.contains_key(key_view(*key)),
    {
        match self.get(key) {
            Some(_) => true,
            None => false,
        }
    }

    /// Puts `value` under `key`, replacing what was there; a new key goes
    /// after the keys already present.
    pub fn insert(&mut self, key: (String, u16), value: T)
        ensures
            final(self)@ == old(self)@.insert(key_view(key), value),
            old(self)@.contains_key(key_view(key)) ==> final(self).keys_in_order() == old(
                self,
            ).keys_in_order(),
            !old(self)@.contains_key(key_view(key)) ==> final(self).keys_in_order() == old(
                self,
            ).keys_in_order().push(key_view(key)),
    {
        proof {
            use_type_invariant(&*self);
        }
        let ghost old_entries = self.entries@;
        let found = self.find(&key);
        let mut entries: Vec<((String, u16), T)> = Vec::new();
        std::mem::swap(&mut entries, &mut self.entries);
        match found {
            Some(i) => {
                proof {
                    lemma_entries_map_update(old_entries, i as int, key, value);
                    lemma_entries_map_at(old_entries, i as int);
                }
                entries.set(i, (key, value));
                assert(entries@.map_values(|e: ((String, u16), T)| key_view(e.0)) =~= old_entries.map_values(
                    |e: ((String, u16), T)| key_view(e.0),
                ));
            },
            None => {
                proof {
                    lemma_entries_map_dom(old_entries, key_view(key));
                }
                entries.push((key, value));
                assert(entries@.drop_last() =~= old_entries);
                assert(entries@.map_values(|e: ((String, u16), T)| key_view(e.0)) =~= old_entries.map_values(
                    |e: ((String, u16), T)| key_view(e.0),
                ).push(key_view(key)));
                assert(distinct_keys(entries@)) by {
                    assert forall|a: int, b: int| 0 <= a < b < entries@.len() implies key_view(
                        #[trigger] entries@[a].0,
                    ) != key_view(#[trigger] entries@[b].0) by {
                        if b < old_entries.len() {
                            assert(entries@[a] == old_entries[a] && entries@[b] == old_entries[b]);
                        } else {
                            assert(entries@[a] == old_entries[a]);
                        }
                    }
                }
            },
        }
        self.entries = entries;
    }
}

}
