//! A small verified map: an association vector with unique keys, viewed as a
//! `Map` from key views to values. Every cache and table of the indexer is
//! built on it.

use vstd::prelude::*;

verus! {

/// Exec types that serve as map keys: equality and cloning follow the view.
pub trait MapKey: View + Sized {
    fn key_eq(&self, other: &Self) -> (r: bool)
        ensures
            r == (self@ == other@),
    ;

    fn key_clone(&self) -> (r: Self)
        ensures
            r@ == self@,
    ;
}

/// The map denoted by an association list; later entries win.
pub open spec fn assoc_map<K: View, V>(s: Seq<(K, V)>) -> Map<<K as View>::V, V>
    decreases s.len(),
{
    if s.len() == 0 {
        Map::empty()
    } else {
        assoc_map(s.drop_last()).insert(s.last().0@, s.last().1)
    }
}

/// No two entries share a key view.
pub open spec fn unique_keys<K: View, V>(s: Seq<(K, V)>) -> bool {
    forall|i: int, j: int| 0 <= i < j < s.len() ==> (#[trigger] s[i]).0@ != (#[trigger] s[j]).0@
}

pub proof fn lemma_assoc_map_index<K: View, V>(s: Seq<(K, V)>, i: int)
    requires
        unique_keys(s),
        0 <= i < s.len(),
    ensures
        assoc_map(s).contains_key(s[i].0@),
        assoc_map(s)[s[i].0@] == s[i].1,
    decreases s.len(),
{
    if i == s.len() - 1 {
    } else {
        assert(unique_keys(s.drop_last()));
        assert(s.drop_last()[i] == s[i]);
        lemma_assoc_map_index(s.drop_last(), i);
        assert(s[i].0@ != s.last().0@);
    }
}

pub proof fn lemma_assoc_map_absent<K: View, V>(s: Seq<(K, V)>, k: <K as View>::V)
    requires
        forall|i: int| 0 <= i < s.len() ==> (#[trigger] s[i]).0@ != k,
    ensures
        !assoc_map(s).contains_key(k),
    decreases s.len(),
{
    if s.len() > 0 {
        assert(forall|i: int|
            0 <= i < s.drop_last().len() ==> (#[trigger] s.drop_last()[i]).0@ != k);
        lemma_assoc_map_absent(s.drop_last(), k);
        assert(s.last() == s[s.len() - 1]);
    }
}

pub proof fn lemma_assoc_map_remove_at<K: View, V>(s: Seq<(K, V)>, i: int)
    requires
        unique_keys(s),
        0 <= i < s.len(),
    ensures
        assoc_map(s.remove(i)) == assoc_map(s).remove(s[i].0@),
        unique_keys(s.remove(i)),
    decreases s.len(),
{
    let k = s[i].0@;
    assert(unique_keys(s.remove(i))) by {
        assert(forall|a: int, b: int|
            0 <= a < b < s.remove(i).len() ==> (#[trigger] s.remove(i)[a]).0@ != (
            #[trigger] s.remove(i)[b]).0@) by {
            assert(forall|a: int|
                0 <= a < s.remove(i).len() ==> #[trigger] s.remove(i)[a] == if a < i {
                    s[a]
                } else {
                    s[a + 1]
                });
        }
    }
    if i == s.len() - 1 {
        assert(s.remove(i) =~= s.drop_last());
        assert(forall|j: int| 0 <= j < s.drop_last().len() ==> (#[trigger] s[j]).0@ != k);
        assert(forall|j: int|
            0 <= j < s.drop_last().len() ==> (#[trigger] s.drop_last()[j]) == s[j]);
        lemma_assoc_map_absent(s.drop_last(), k);
        assert(assoc_map(s) == assoc_map(s.drop_last()).insert(k, s.last().1));
        assert(assoc_map(s).remove(k) =~= assoc_map(s.drop_last()));
    } else {
        let t = s.drop_last();
        assert(unique_keys(t)) by {
            assert(forall|a: int| 0 <= a < t.len() ==> #[trigger] t[a] == s[a]);
        }
        assert(t[i] == s[i]);
        lemma_assoc_map_remove_at(t, i);
        assert(s.remove(i).drop_last() =~= t.remove(i));
        assert(s.remove(i).last() == s.last());
        assert(assoc_map(s.remove(i)) == assoc_map(t.remove(i)).insert(s.last().0@, s.last().1));
        assert(assoc_map(s.remove(i)) == assoc_map(t).remove(k).insert(s.last().0@, s.last().1));
        assert(s.last().0@ != k);
        assert(assoc_map(t).remove(k).insert(s.last().0@, s.last().1) =~= assoc_map(t).insert(
            s.last().0@,
            s.last().1,
        ).remove(k));
        assert(assoc_map(s) == assoc_map(t).insert(s.last().0@, s.last().1));
    }
}

pub proof fn lemma_assoc_map_len<K: View, V>(s: Seq<(K, V)>)
    requires
        unique_keys(s),
    ensures
        assoc_map(s).dom().finite(),
        assoc_map(s).dom().len() == s.len(),
    decreases s.len(),
{
    if s.len() > 0 {
        let t = s.drop_last();
        assert(unique_keys(t)) by {
            assert(forall|a: int| 0 <= a < t.len() ==> #[trigger] t[a] == s[a]);
        }
        lemma_assoc_map_len(t);
        assert(forall|j: int| 0 <= j < t.len() ==> (#[trigger] t[j]).0@ != s.last().0@) by {
            assert(forall|j: int| 0 <= j < t.len() ==> t[j] == s[j]);
            assert(s.last() == s[s.len() - 1]);
        }
        lemma_assoc_map_absent(t, s.last().0@);
    }
}

/// An association vector with unique keys.
pub struct VecMap<K: MapKey, V> {
    entries: Vec<(K, V)>,
}

impl<K: MapKey, V> View for VecMap<K, V> {
    type V = Map<<K as View>::V, V>;

    closed spec fn view(&self) -> Map<<K as View>::V, V> {
        assoc_map(self.entries@)
    }
}

impl<K: MapKey, V> VecMap<K, V> {
    /// The underlying entries, for callers that walk the map.
    pub closed spec fn kv(&self) -> Seq<(K, V)> {
        self.entries@
    }

    #[verifier::type_invariant]
    spec fn wf(&self) -> bool {
        unique_keys(self.entries@)
    }

    pub open spec fn spec_len(&self) -> int {
        self.kv().len() as int
    }

    /// Put the facts that tie the entry list to the map view in scope.
    pub fn view_facts(&self)
        ensures
            self@ == assoc_map(self.kv()),
            unique_keys(self.kv()),
            self@.dom().finite(),
            self@.dom().len() == self.kv().len(),
            forall|i: int|
                0 <= i < self.kv().len() ==> self@.contains_key((#[trigger] self.kv()[i]).0@)
                    && self@[self.kv()[i].0@] == self.kv()[i].1,
    {
        proof {
            use_type_invariant(self);
            lemma_assoc_map_len(self.entries@);
            assert forall|i: int| 0 <= i < self.kv().len() implies self@.contains_key(
                (#[trigger] self.kv()[i]).0@,
            ) && self@[self.kv()[i].0@] == self.kv()[i].1 by {
                lemma_assoc_map_index(self.entries@, i);
            }
        }
    }

    pub fn new() -> (r: Self)
        ensures
            r@ == Map::<<K as View>::V, V>::empty(),
            r.kv() == Seq::<(K, V)>::empty(),
    {
        let r = VecMap { entries: Vec::new() };
        proof {
            assert(r.entries@ =~= Seq::<(K, V)>::empty());
        }
        r
    }

    pub fn len(&self) -> (r: usize)
        ensures
            r as int == self.spec_len(),
            r as int == self@.dom().len(),
    {
        self.view_facts();
        self.entries.len()
    }

    pub fn entry_at(&self, i: usize) -> (r: &(K, V))
        requires
            i < self.spec_len(),
        ensures
            *r == self.kv()[i as int],
            self@.contains_key(r.0@),
            self@[r.0@] == r.1,
    {
        self.view_facts();
        &self.entries[i]
    }

    /// Index of the entry holding `k`, if any.
    fn find(&self, k: &K) -> (r: Option<usize>)
        ensures
            match r {
                Some(i) => i < self.kv().len() && self.kv()[i as int].0@ == k@
                    && self@.contains_key(k@) && self@[k@] == self.kv()[i as int].1,
                None => !self@.contains_key(k@),
            },
    {
        proof {
            use_type_invariant(self);
        }
        let n = self.entries.len();
        let mut i: usize = 0;
        while i < n
            invariant
                0 <= i <= n,
                n == self.entries@.len(),
                unique_keys(self.entries@),
                self@ == assoc_map(self.entries@),
                forall|j: int| 0 <= j < i ==> (#[trigger] self.entries@[j]).0@ != k@,
            decreases n - i,
        {
            if self.entries[i].0.key_eq(k) {
                proof {
                    lemma_assoc_map_index(self.entries@, i as int);
                }
                return Some(i);
            }
            i = i + 1;
        }
        proof {
            lemma_assoc_map_absent(self.entries@, k@);
        }
        None
    }

    pub fn contains_key(&self, k: &K) -> (r: bool)
        ensures
            r == self@.contains_key(k@),
    {
        self.find(k).is_some()
    }

    pub fn get(&self, k: &K) -> (r: Option<&V>)
        ensures
            match r {
                Some(v) => self@.contains_key(k@) && *v == self@[k@],
                None => !self@.contains_key(k@),
            },
    {
        match self.find(k) {
            Some(i) => Some(&self.entries[i].1),
            None => None,
        }
    }

    /// Bind `k` to `v`, replacing any earlier binding.
    pub fn insert(&mut self, k: K, v: V)
        ensures
            final(self)@ == old(self)@.insert(k@, v),
            final(self)@.dom() == old(self)@.dom().insert(k@),
    {
        proof {
            use_type_invariant(&*self);
        }
        let ghost m0 = self@;
        let found = self.find(&k);
        let mut tmp = VecMap::new();
        core::mem::swap(self, &mut tmp);
        let VecMap { mut entries } = tmp;
        proof {
            assert(entries@ == old(self).entries@);
        }
        match found {
            Some(i) => {
                proof {
                    lemma_assoc_map_remove_at(entries@, i as int);
                }
                let _ = entries.remove(i);
            },
            None => {},
        }
        let ghost mid = entries@;
        proof {
            assert(unique_keys(mid));
            assert(assoc_map(mid) == m0.remove(k@) || assoc_map(mid) == m0);
            assert(!assoc_map(mid).contains_key(k@));
            assert forall|j: int| 0 <= j < mid.len() implies (#[trigger] mid[j]).0@ != k@ by {
                if mid[j].0@ == k@ {
                    lemma_assoc_map_index(mid, j);
                }
            }
        }
        entries.push((k, v));
        proof {
            assert(entries@.drop_last() =~= mid);
            assert(unique_keys(entries@)) by {
                assert(forall|a: int| 0 <= a < mid.len() ==> #[trigger] entries@[a] == mid[a]);
            }
            assert(assoc_map(entries@) == assoc_map(mid).insert(k@, v));
            assert(assoc_map(entries@) =~= m0.insert(k@, v));
        }
        *self = VecMap { entries };
        proof {
            assert(self@.dom() =~= m0.dom().insert(k@));
        }
    }

    /// Remove the binding of `k`, returning its value.
    pub fn remove(&mut self, k: &K) -> (r: Option<V>)
        ensures
            final(self)@ == old(self)@.remove(k@),
            final(self)@.dom() == old(self)@.dom().remove(k@),
            match r {
                Some(v) => old(self)@.contains_key(k@) && v == old(self)@[k@],
                None => !old(self)@.contains_key(k@),
            },
    {
        proof {
            use_type_invariant(&*self);
        }
        let ghost m0 = self@;
        let found = self.find(k);
        let mut tmp = VecMap::new();
        core::mem::swap(self, &mut tmp);
        let VecMap { mut entries } = tmp;
        proof {
            assert(entries@ == old(self).entries@);
        }
        let r = match found {
            Some(i) => {
                proof {
                    lemma_assoc_map_remove_at(entries@, i as int);
                }
                let e = entries.remove(i);
                Some(e.1)
            },
            None => None,
        };
        proof {
            assert(unique_keys(entries@));
            assert(assoc_map(entries@) == m0.remove(k@)) by {
                if found is None {
                    assert(assoc_map(entries@) =~= m0.remove(k@));
                }
            }
        }
        *self = VecMap { entries };
        proof {
            assert(self@.dom() =~= m0.dom().remove(k@));
        }
        r
    }

    /// Hand the entries out, consuming the map.
    pub fn into_entries(self) -> (r: Vec<(K, V)>)
        ensures
            r@ == self.kv(),
            unique_keys(r@),
            assoc_map(r@) == self@,
    {
        proof {
            use_type_invariant(&self);
        }
        let VecMap { entries } = self;
        entries
    }
}

impl<K: MapKey, V: Copy> VecMap<K, V> {
    /// Copy out the value bound to `k`.
    pub fn get_copy(&self, k: &K) -> (r: Option<V>)
        ensures
            match r {
                Some(v) => self@.contains_key(k@) && v == self@[k@],
                None => !self@.contains_key(k@),
            },
    {
        match self.get(k) {
            Some(v) => Some(*v),
            None => None,
        }
    }
}

} // verus!
