//! A map keyed by strings, kept as a sequence of entries with distinct keys.
use vstd::prelude::*;
use crate::text::str_eq;

verus! {

/// The keys of a sequence of entries are pairwise distinct.
pub open spec fn keys_distinct<V>(s: Seq<(Seq<char>, V)>) -> bool {
    forall|i: int, j: int| 0 <= i < s.len() && 0 <= j < s.len() && i != j ==> s[i].0 != s[j].0
}

/// The position of key `k` among the entries, if it is there.
pub open spec fn key_index<V>(s: Seq<(Seq<char>, V)>, k: Seq<char>) -> int {
    choose|i: int| 0 <= i < s.len() && s[i].0 == k
}

/// Some entry has key `k`.
pub open spec fn has_key<V>(s: Seq<(Seq<char>, V)>, k: Seq<char>) -> bool {
    exists|i: int| 0 <= i < s.len() && s[i].0 == k
}

/// The map that a sequence of entries with distinct keys denotes.
pub open spec fn map_of<V>(s: Seq<(Seq<char>, V)>) -> Map<Seq<char>, V> {
    Map::new(|k: Seq<char>| has_key(s, k), |k: Seq<char>| s[key_index(s, k)].1)
}

/// With distinct keys, the entry at a position is what the map gives for its key.
pub proof fn lemma_map_of_index<V>(s: Seq<(Seq<char>, V)>, i: int)
    requires
        keys_distinct(s),
        0 <= i < s.len(),
    ensures
        map_of(s).dom().contains(s[i].0),
        map_of(s)[s[i].0] == s[i].1,
        key_index(s, s[i].0) == i,
{
    assert(has_key(s, s[i].0));
}

/// A map from strings to values. Entries keep the order in which their keys
/// were first inserted; no key occurs twice.
#[derive(Debug)]
pub struct StrMap<V> {
    entries: Vec<(String, V)>,
}

impl<V> View for StrMap<V> {
    type V = Map<Seq<char>, V>;

    open spec fn view(&self) -> Map<Seq<char>, V> {
        map_of(self.items())
    }
}

impl<V> StrMap<V> {
    /// The entries, in order, with keys taken by their characters.
    pub closed spec fn items(self) -> Seq<(Seq<char>, V)> {
        Self::items_of(self.entries@)
    }

    closed spec fn items_of(e: Seq<(String, V)>) -> Seq<(Seq<char>, V)> {
        Seq::new(e.len(), |i: int| (e[i].0@, e[i].1))
    }

    #[verifier::type_invariant]
    closed spec fn inv(self) -> bool {
        keys_distinct(self.items())
    }

    /// An empty map.
    pub fn new() -> (m: Self)
        ensures
            m.items() == Seq::<(Seq<char>, V)>::empty(),
            m@ == Map::<Seq<char>, V>::empty(),
            keys_distinct(m.items()),
    {
        let m = StrMap { entries: Vec::new() };
        assert(m.items() =~= Seq::<(Seq<char>, V)>::empty());
        assert(m@ =~= Map::<Seq<char>, V>::empty());
        m
    }

    /// The number of entries.
    pub fn len(&self) -> (n: usize)
        ensures
            n == self.items().len(),
            keys_distinct(self.items()),
    {
        proof { use_type_invariant(self); }
        self.entries.len()
    }

    /// The key of the `i`-th entry.
    pub fn key_at(&self, i: usize) -> (k: &String)
        requires
            i < self.items().len(),
        ensures
            k@ == self.items()[i as int].0,
    {
        &self.entries[i].0
    }

    /// The value of the `i`-th entry.
    pub fn value_at(&self, i: usize) -> (v: &V)
        requires
            i < self.items().len(),
        ensures
            *v == self.items()[i as int].1,
    {
        &self.entries[i].1
    }

    /// The position of key `k`, if present.
    pub fn find(&self, k: &str) -> (r: Option<usize>)
        ensures
            r is None <==> !has_key(self.items(), k@),
            r matches Some(i) ==> i < self.items().len() && self.items()[i as int].0 == k@
                && key_index(self.items(), k@) == i,
            keys_distinct(self.items()),
    {
        proof { use_type_invariant(self); }
        let mut i: usize = 0;
        while i < self.entries.len()
            invariant
                i <= self.entries@.len(),
                keys_distinct(self.items()),
                forall|j: int| 0 <= j < i ==> self.items()[j].0 != k@,
            decreases self.entries@.len() - i,
        {
            if str_eq(self.entries[i].0.as_str(), k) {
                proof { lemma_map_of_index(self.items(), i as int); }
                return Some(i);
            }
            i = i + 1;
        }
        None
    }

    /// Whether key `k` is present.
    pub fn contains_key(&self, k: &str) -> (b: bool)
        ensures
            b == self@.dom().contains(k@),
            keys_distinct(self.items()),
    {
        self.find(k).is_some()
    }

    /// The value under key `k`, if present.
    pub fn get(&self, k: &str) -> (r: Option<&V>)
        ensures
            r is None <==> !self@.dom().contains(k@),
            r matches Some(v) ==> *v == self@[k@],
            keys_distinct(self.items()),
    {
        match self.find(k) {
            Some(i) => Some(&self.entries[i].1),
            None => None,
        }
    }

    /// Sets the value under key `k`; a key already present keeps its position,
    /// a new key goes last. Returns the value that was replaced.
    pub fn insert(&mut self, k: String, v: V) -> (old_v: Option<V>)
        ensures
            final(self)@ == old(self)@.insert(k@, v),
            old(self)@.dom().contains(k@) ==> old_v == Some(old(self)@[k@]),
            !old(self)@.dom().contains(k@) ==> old_v is None,
            has_key(old(self).items(), k@) ==> final(self).items()
                == old(self).items().update(key_index(old(self).items(), k@), (k@, v)),
            !has_key(old(self).items(), k@) ==> final(self).items() == old(self).items().push((k@, v)),
            keys_distinct(old(self).items()),
            keys_distinct(final(self).items()),
    {
        proof { use_type_invariant(&*self); }
        let ghost old_items = self.items();
        let found = self.find(k.as_str());
        let mut entries: Vec<(String, V)> = Vec::new();
        std::mem::swap(&mut entries, &mut self.entries);
        assert(Self::items_of(entries@) == old_items);
        match found {
            Some(i) => {
                let (_, prev) = entries.remove(i);
                entries.insert(i, (k, v));
                proof {
                    let new_items = Self::items_of(entries@);
                    assert(new_items =~= old_items.update(i as int, (k@, v)));
                    assert(keys_distinct(new_items));
                    lemma_map_of_index(old_items, i as int);
                    assert forall|key: Seq<char>|
                        map_of(new_items).dom().contains(key) <==> map_of(old_items).insert(k@, v).dom().contains(key)
                    by {
                        if has_key(old_items, key) {
                            let j = choose|j: int| 0 <= j < old_items.len() && old_items[j].0 == key;
                            assert(new_items[j].0 == key);
                        }
                        if has_key(new_items, key) {
                            let j = choose|j: int| 0 <= j < new_items.len() && new_items[j].0 == key;
                            assert(old_items[j].0 == key);
                        }
                    }
                    assert forall|key: Seq<char>| #[trigger] map_of(new_items).dom().contains(key)
                        implies map_of(new_items)[key] == map_of(old_items).insert(k@, v)[key]
                    by {
                        let j = choose|j: int| 0 <= j < new_items.len() && new_items[j].0 == key;
                        lemma_map_of_index(new_items, j);
                        if j != i {
                            lemma_map_of_index(old_items, j);
                        }
                    }
                    assert(map_of(new_items) =~= map_of(old_items).insert(k@, v));
                }
                self.entries = entries;
                Some(prev)
            },
            None => {
                entries.push((k, v));
                proof {
                    let new_items = Self::items_of(entries@);
                    assert(new_items =~= old_items.push((k@, v)));
                    assert(keys_distinct(new_items));
                    assert forall|key: Seq<char>|
                        map_of(new_items).dom().contains(key) <==> map_of(old_items).insert(k@, v).dom().contains(key)
                    by {
                        if has_key(old_items, key) {
                            let j = choose|j: int| 0 <= j < old_items.len() && old_items[j].0 == key;
                            assert(new_items[j].0 == key);
                        }
                        if key == k@ {
                            assert(new_items[old_items.len() as int].0 == key);
                        }
                    }
                    assert forall|key: Seq<char>| #[trigger] map_of(new_items).dom().contains(key)
                        implies map_of(new_items)[key] == map_of(old_items).insert(k@, v)[key]
                    by {
                        let j = choose|j: int| 0 <= j < new_items.len() && new_items[j].0 == key;
                        lemma_map_of_index(new_items, j);
                        if j < old_items.len() {
                            lemma_map_of_index(old_items, j);
                        }
                    }
                    assert(map_of(new_items) =~= map_of(old_items).insert(k@, v));
                }
                self.entries = entries;
                None
            },
        }
    }

    /// Removes the entry under key `k`, keeping the order of the others.
    /// Returns its value.
    pub fn remove(&mut self, k: &str) -> (r: Option<V>)
        ensures
            final(self)@ == old(self)@.remove(k@),
            old(self)@.dom().contains(k@) ==> r == Some(old(self)@[k@]),
            !old(self)@.dom().contains(k@) ==> r is None && final(self).items() == old(self).items(),
            has_key(old(self).items(), k@) ==> final(self).items()
                == old(self).items().remove(key_index(old(self).items(), k@)),
            keys_distinct(old(self).items()),
            keys_distinct(final(self).items()),
    {
        proof { use_type_invariant(&*self); }
        let ghost old_items = self.items();
        match self.find(k) {
            Some(i) => {
                let mut entries: Vec<(String, V)> = Vec::new();
                std::mem::swap(&mut entries, &mut self.entries);
                assert(Self::items_of(entries@) == old_items);
                let (_, prev) = entries.remove(i);
                proof {
                    let new_items = Self::items_of(entries@);
                    assert(new_items =~= old_items.remove(i as int));
                    assert(keys_distinct(new_items));
                    lemma_map_of_index(old_items, i as int);
                    assert forall|key: Seq<char>|
                        map_of(new_items).dom().contains(key) <==> map_of(old_items).remove(k@).dom().contains(key)
                    by {
                        if has_key(old_items, key) && key != k@ {
                            let j = choose|j: int| 0 <= j < old_items.len() && old_items[j].0 == key;
                            if j < i { assert(new_items[j].0 == key); } else { assert(new_items[j - 1].0 == key); }
                        }
                        if has_key(new_items, key) {
                            let j = choose|j: int| 0 <= j < new_items.len() && new_items[j].0 == key;
                            if j < i { assert(old_items[j].0 == key); } else { assert(old_items[j + 1].0 == key); }
                        }
                    }
                    assert forall|key: Seq<char>| #[trigger] map_of(new_items).dom().contains(key)
                        implies map_of(new_items)[key] == map_of(old_items).remove(k@)[key]
                    by {
                        let j = choose|j: int| 0 <= j < new_items.len() && new_items[j].0 == key;
                        lemma_map_of_index(new_items, j);
                        if j < i { lemma_map_of_index(old_items, j); } else { lemma_map_of_index(old_items, j + 1); }
                    }
                    assert(map_of(new_items) =~= map_of(old_items).remove(k@));
                }
                self.entries = entries;
                Some(prev)
            },
            None => {
                proof {
                    assert(map_of(old_items).remove(k@) =~= map_of(old_items));
                }
                None
            },
        }
    }
}

} // verus!

verus! {

impl<V: View> StrMap<V> {
    /// The entries, in order, with values taken by their views.
    pub open spec fn deep_items(self) -> Seq<(Seq<char>, V::V)> {
        Seq::new(self.items().len(), |i: int| (self.items()[i].0, self.items()[i].1@))
    }
}

impl<V: Clone> Clone for StrMap<V> {
    /// A copy with the same keys in the same order, each value cloned.
    fn clone(&self) -> (r: Self)
        ensures
            r.items().len() == self.items().len(),
            keys_distinct(self.items()),
            keys_distinct(r.items()),
            forall|i: int| 0 <= i < self.items().len() ==> #[trigger] r.items()[i].0 == self.items()[i].0
                && cloned(self.items()[i].1, r.items()[i].1),
    {
        proof { use_type_invariant(self); }
        let mut entries: Vec<(String, V)> = Vec::new();
        let mut i: usize = 0;
        while i < self.entries.len()
            invariant
                i <= self.entries@.len(),
                keys_distinct(self.items()),
                entries@.len() == i,
                forall|j: int| 0 <= j < i ==> #[trigger] entries@[j].0@ == self.items()[j].0
                    && cloned(self.items()[j].1, entries@[j].1),
            decreases self.entries@.len() - i,
        {
            let k = self.entries[i].0.clone();
            let v = self.entries[i].1.clone();
            entries.push((k, v));
            i = i + 1;
        }
        let r = StrMap { entries };
        assert(keys_distinct(r.items())) by {
            assert forall|a: int, b: int| 0 <= a < r.items().len() && 0 <= b < r.items().len() && a != b
                implies r.items()[a].0 != r.items()[b].0 by {
                assert(r.items()[a].0 == self.items()[a].0);
                assert(r.items()[b].0 == self.items()[b].0);
            }
        }
        r
    }
}

} // verus!

verus! {

/// The map of a sequence of entries, with each value taken by its view.
pub open spec fn deep_map<V: View>(m: Map<Seq<char>, V>) -> Map<Seq<char>, V::V> {
    m.map_values(|v: V| v@)
}

/// For entries with distinct keys, viewing each value commutes with building the map.
pub proof fn lemma_deep_items_map<V: View>(m: StrMap<V>)
    requires
        keys_distinct(m.items()),
    ensures
        keys_distinct(m.deep_items()),
        map_of(m.deep_items()) == deep_map(m@),
{
    let s = m.items();
    let d = m.deep_items();
    assert(keys_distinct(d)) by {
        assert forall|i: int, j: int| 0 <= i < d.len() && 0 <= j < d.len() && i != j implies d[i].0 != d[j].0 by {
            assert(d[i].0 == s[i].0 && d[j].0 == s[j].0);
        }
    }
    assert forall|k: Seq<char>| map_of(d).dom().contains(k) <==> deep_map(m@).dom().contains(k) by {
        if has_key(s, k) {
            let i = choose|i: int| 0 <= i < s.len() && s[i].0 == k;
            assert(d[i].0 == k);
        }
        if has_key(d, k) {
            let i = choose|i: int| 0 <= i < d.len() && d[i].0 == k;
            assert(s[i].0 == k);
        }
    }
    assert forall|k: Seq<char>| #[trigger] map_of(d).dom().contains(k) implies map_of(d)[k] == deep_map(m@)[k] by {
        let i = choose|i: int| 0 <= i < d.len() && d[i].0 == k;
        assert(s[i].0 == k);
        lemma_map_of_index(d, i);
        lemma_map_of_index(s, i);
    }
    assert(map_of(d) =~= deep_map(m@));
}

} // verus!
