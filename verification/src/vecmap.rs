//! A verified association map from string keys to values.
//!
//! Entries are kept in a vector with pairwise-distinct keys; the abstract
//! value is a `Map<Seq<char>, <V as DeepView>::V>`. Unlike a hash map, the entry
//! sequence is observable, which the index uses to snapshot and to walk
//! its contents.

use vstd::prelude::*;

verus! {

/// The map denoted by a sequence of key-value pairs; later entries win.
pub open spec fn map_of<W>(kvs: Seq<(Seq<char>, W)>) -> Map<Seq<char>, W>
    decreases kvs.len(),
{
    if kvs.len() == 0 {
        Map::empty()
    } else {
        map_of(kvs.drop_last()).insert(kvs.last().0, kvs.last().1)
    }
}

/// Pairwise-distinct keys.
pub open spec fn distinct_keys<W>(kvs: Seq<(Seq<char>, W)>) -> bool {
    forall|i: int, j: int| 0 <= i < j < kvs.len() ==> kvs[i].0 != kvs[j].0
}

pub proof fn lemma_map_of_contains<W>(kvs: Seq<(Seq<char>, W)>, k: Seq<char>)
    ensures
        map_of(kvs).contains_key(k) <==> (exists|i: int|
            0 <= i < kvs.len() && #[trigger] kvs[i].0 == k),
    decreases kvs.len(),
{
    if kvs.len() == 0 {
    } else {
        lemma_map_of_contains(kvs.drop_last(), k);
        if kvs.last().0 == k {
            assert(kvs[kvs.len() - 1].0 == k);
        } else {
            if map_of(kvs).contains_key(k) {
                let i = choose|i: int|
                    0 <= i < kvs.drop_last().len() && #[trigger] kvs.drop_last()[i].0 == k;
                assert(kvs[i].0 == k);
            }
            if exists|i: int| 0 <= i < kvs.len() && #[trigger] kvs[i].0 == k {
                let i = choose|i: int| 0 <= i < kvs.len() && #[trigger] kvs[i].0 == k;
                assert(i < kvs.len() - 1);
                assert(kvs.drop_last()[i].0 == k);
            }
        }
    }
}

pub proof fn lemma_map_of_index<W>(kvs: Seq<(Seq<char>, W)>, i: int)
    requires
        distinct_keys(kvs),
        0 <= i < kvs.len(),
    ensures
        map_of(kvs).contains_key(kvs[i].0),
        map_of(kvs)[kvs[i].0] == kvs[i].1,
    decreases kvs.len(),
{
    if i == kvs.len() - 1 {
    } else {
        lemma_map_of_index(kvs.drop_last(), i);
        assert(kvs.drop_last()[i] == kvs[i]);
        assert(kvs.last().0 != kvs[i].0);
    }
}

pub proof fn lemma_map_of_len<W>(kvs: Seq<(Seq<char>, W)>)
    requires
        distinct_keys(kvs),
    ensures
        map_of(kvs).dom().finite(),
        map_of(kvs).len() == kvs.len(),
    decreases kvs.len(),
{
    if kvs.len() == 0 {
        assert(map_of(kvs).dom() =~= Set::<Seq<char>>::empty());
    } else {
        lemma_map_of_len(kvs.drop_last());
        lemma_map_of_contains(kvs.drop_last(), kvs.last().0);
        assert(forall|i: int|
            0 <= i < kvs.drop_last().len() ==> #[trigger] kvs.drop_last()[i].0 != kvs.last().0);
        assert(!map_of(kvs.drop_last()).contains_key(kvs.last().0));
    }
}

pub proof fn lemma_map_of_push<W>(kvs: Seq<(Seq<char>, W)>, k: Seq<char>, v: W)
    ensures
        map_of(kvs.push((k, v))) == map_of(kvs).insert(k, v),
{
    assert(kvs.push((k, v)).drop_last() =~= kvs);
    assert(kvs.push((k, v)).last() == (k, v));
}

pub proof fn lemma_map_of_update<W>(kvs: Seq<(Seq<char>, W)>, i: int, v: W)
    requires
        distinct_keys(kvs),
        0 <= i < kvs.len(),
    ensures
        map_of(kvs.update(i, (kvs[i].0, v))) == map_of(kvs).insert(kvs[i].0, v),
    decreases kvs.len(),
{
    let k = kvs[i].0;
    let upd = kvs.update(i, (k, v));
    if i == kvs.len() - 1 {
        assert(upd.drop_last() =~= kvs.drop_last());
        assert(upd.last() == (k, v));
    } else {
        lemma_map_of_update(kvs.drop_last(), i, v);
        assert(upd.drop_last() =~= kvs.drop_last().update(i, (k, v)));
        assert(upd.last() == kvs.last());
        assert(kvs.last().0 != k);
        assert(map_of(upd) == map_of(kvs.drop_last()).insert(k, v).insert(
            kvs.last().0,
            kvs.last().1,
        ));
        assert(map_of(kvs.drop_last()).insert(k, v).insert(kvs.last().0, kvs.last().1)
            =~= map_of(kvs.drop_last()).insert(kvs.last().0, kvs.last().1).insert(k, v));
    }
}

pub proof fn lemma_map_of_remove<W>(kvs: Seq<(Seq<char>, W)>, i: int)
    requires
        distinct_keys(kvs),
        0 <= i < kvs.len(),
    ensures
        map_of(kvs.remove(i)) == map_of(kvs).remove(kvs[i].0),
    decreases kvs.len(),
{
    let k = kvs[i].0;
    if i == kvs.len() - 1 {
        assert(kvs.remove(i) =~= kvs.drop_last());
        lemma_map_of_contains(kvs.drop_last(), k);
        assert(forall|j: int|
            0 <= j < kvs.drop_last().len() ==> #[trigger] kvs.drop_last()[j].0 != k);
        assert(!map_of(kvs.drop_last()).contains_key(k));
        assert(map_of(kvs).remove(k) =~= map_of(kvs.drop_last()));
    } else {
        lemma_map_of_remove(kvs.drop_last(), i);
        assert(kvs.remove(i).drop_last() =~= kvs.drop_last().remove(i));
        assert(kvs.remove(i).last() == kvs.last());
        assert(kvs.last().0 != k);
        assert(map_of(kvs.remove(i)) == map_of(kvs.drop_last()).remove(k).insert(
            kvs.last().0,
            kvs.last().1,
        ));
        assert(map_of(kvs.drop_last()).remove(k).insert(kvs.last().0, kvs.last().1)
            =~= map_of(kvs.drop_last()).insert(kvs.last().0, kvs.last().1).remove(k));
    }
}

/// Association map with `String` keys, abstracted as `Map<Seq<char>, <V as DeepView>::V>`.
pub struct VecMap<V> {
    entries: Vec<(String, V)>,
}

impl<V: DeepView> View for VecMap<V> {
    type V = Map<Seq<char>, <V as DeepView>::V>;

    closed spec fn view(&self) -> Map<Seq<char>, <V as DeepView>::V> {
        map_of(self.kvs())
    }
}

impl<V: DeepView> VecMap<V> {
    /// The sequence of abstract key-value entries, in storage order.
    pub closed spec fn kvs(&self) -> Seq<(Seq<char>, <V as DeepView>::V)> {
        self.entries.deep_view()
    }

    /// Keys are pairwise distinct.
    pub open spec fn inv(&self) -> bool {
        distinct_keys(self.kvs())
    }

    /// The abstract map is the one the entry sequence denotes.
    pub proof fn lemma_view_is_map_of(&self)
        ensures
            self@ == map_of(self.kvs()),
    {
    }

    /// Ties the entry sequence to the abstract map.
    pub proof fn lemma_entries(&self)
        requires
            self.inv(),
        ensures
            self@.dom().finite(),
            self@.len() == self.kvs().len(),
            forall|i: int|
                0 <= i < self.kvs().len() ==> self@.contains_key(#[trigger] self.kvs()[i].0)
                    && self@[self.kvs()[i].0] == self.kvs()[i].1,
            forall|k: Seq<char>|
                self@.contains_key(k) ==> exists|i: int|
                    0 <= i < self.kvs().len() && #[trigger] self.kvs()[i].0 == k,
    {
        lemma_map_of_len(self.kvs());
        assert forall|i: int| 0 <= i < self.kvs().len() implies self@.contains_key(
            #[trigger] self.kvs()[i].0,
        ) && self@[self.kvs()[i].0] == self.kvs()[i].1 by {
            lemma_map_of_index(self.kvs(), i);
        }
        assert forall|k: Seq<char>| self@.contains_key(k) implies exists|i: int|
            0 <= i < self.kvs().len() && #[trigger] self.kvs()[i].0 == k by {
            lemma_map_of_contains(self.kvs(), k);
        }
    }

    pub fn new() -> (r: Self)
        ensures
            r.inv(),
            r@ == Map::<Seq<char>, <V as DeepView>::V>::empty(),
            r.kvs() == Seq::<(Seq<char>, <V as DeepView>::V)>::empty(),
    {
        let r = VecMap { entries: Vec::new() };
        proof {
            assert(r.kvs() =~= Seq::<(Seq<char>, <V as DeepView>::V)>::empty());
        }
        r
    }

    /// Number of entries.
    pub fn len(&self) -> (r: usize)
        requires
            self.inv(),
        ensures
            r == self.kvs().len(),
            r == self@.len(),
    {
        proof {
            lemma_map_of_len(self.kvs());
        }
        self.entries.len()
    }

    /// Position of the entry holding `k`, if any.
    fn find_index(&self, k: &str) -> (r: Option<usize>)
        ensures
            match r {
                Some(i) => i < self.kvs().len() && self.kvs()[i as int].0 == k@,
                None => forall|i: int|
                    0 <= i < self.kvs().len() ==> (#[trigger] self.kvs()[i]).0 != k@,
            },
    {
        let n = self.entries.len();
        let mut i: usize = 0;
        while i < n
            invariant
                i <= n,
                n == self.kvs().len(),
                n == self.entries.len(),
                forall|j: int| 0 <= j < i ==> (#[trigger] self.kvs()[j]).0 != k@,
            decreases n - i,
        {
            assert(self.kvs()[i as int].0 == self.entries[i as int].0@);
            if crate::text::str_eq(self.entries[i].0.as_str(), k) {
                return Some(i);
            }
            i += 1;
        }
        None
    }

    pub fn contains_key(&self, k: &str) -> (r: bool)
        requires
            self.inv(),
        ensures
            r == self@.contains_key(k@),
    {
        proof {
            lemma_map_of_contains(self.kvs(), k@);
        }
        self.find_index(k).is_some()
    }

    pub fn get<'a>(&'a self, k: &str) -> (r: Option<&'a V>)
        requires
            self.inv(),
        ensures
            match r {
                Some(v) => self@.contains_key(k@) && v.deep_view() == self@[k@],
                None => !self@.contains_key(k@),
            },
    {
        proof {
            lemma_map_of_contains(self.kvs(), k@);
        }
        match self.find_index(k) {
            Some(i) => {
                proof {
                    lemma_map_of_index(self.kvs(), i as int);
                    assert(self.kvs()[i as int].1 == self.entries[i as int].1.deep_view());
                }
                Some(&self.entries[i].1)
            },
            None => None,
        }
    }

    /// Insert `v` under `k`, replacing any previous value.
    pub fn insert(&mut self, k: String, v: V)
        requires
            old(self).inv(),
        ensures
            final(self).inv(),
            final(self)@ == old(self)@.insert(k@, v.deep_view()),
    {
        let ghost old_kvs = self.kvs();
        match self.find_index(k.as_str()) {
            Some(i) => {
                proof {
                    lemma_map_of_update(old_kvs, i as int, v.deep_view());
                }
                self.entries[i] = (k, v);
                proof {
                    assert(self.kvs() =~= old_kvs.update(i as int, (k@, v.deep_view())));
                }
            },
            None => {
                proof {
                    lemma_map_of_push(old_kvs, k@, v.deep_view());
                }
                self.entries.push((k, v));
                proof {
                    assert(self.kvs() =~= old_kvs.push((k@, v.deep_view())));
                }
            },
        }
    }

    /// Remove the entry for `k`, returning its value if it was present.
    pub fn take(&mut self, k: &str) -> (r: Option<V>)
        requires
            old(self).inv(),
        ensures
            final(self).inv(),
            final(self)@ == old(self)@.remove(k@),
            match r {
                Some(v) => old(self)@.contains_key(k@) && v.deep_view() == old(self)@[k@],
                None => !old(self)@.contains_key(k@) && final(self)@ == old(self)@,
            },
    {
        let ghost old_kvs = self.kvs();
        proof {
            lemma_map_of_contains(old_kvs, k@);
        }
        match self.find_index(k) {
            Some(i) => {
                proof {
                    lemma_map_of_index(old_kvs, i as int);
                    lemma_map_of_remove(old_kvs, i as int);
                }
                let (_, v) = self.entries.remove(i);
                proof {
                    assert(self.kvs() =~= old_kvs.remove(i as int));
                }
                Some(v)
            },
            None => {
                proof {
                    assert(final(self)@ =~= old(self)@.remove(k@));
                }
                None
            },
        }
    }

    /// Drop every entry.
    pub fn clear(&mut self)
        ensures
            final(self).inv(),
            final(self)@ == Map::<Seq<char>, <V as DeepView>::V>::empty(),
            final(self).kvs() == Seq::<(Seq<char>, <V as DeepView>::V)>::empty(),
    {
        self.entries.clear();
        proof {
            assert(self.kvs() =~= Seq::<(Seq<char>, <V as DeepView>::V)>::empty());
        }
    }

    /// The key stored at position `i`.
    pub fn key_at(&self, i: usize) -> (r: &String)
        requires
            i < self.kvs().len(),
        ensures
            r@ == self.kvs()[i as int].0,
    {
        proof {
            assert(self.kvs()[i as int].0 == self.entries[i as int].0@);
        }
        &self.entries[i].0
    }

    /// The value stored at position `i`.
    pub fn value_at(&self, i: usize) -> (r: &V)
        requires
            i < self.kvs().len(),
        ensures
            r.deep_view() == self.kvs()[i as int].1,
    {
        proof {
            assert(self.kvs()[i as int].1 == self.entries[i as int].1.deep_view());
        }
        &self.entries[i].1
    }
}

} // verus!
