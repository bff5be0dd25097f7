//! A string-keyed map kept as an insertion-ordered list of entries with
//! distinct keys; its view is a `Map` from key characters to values.
use vstd::prelude::*;

use crate::text::{str_eq, to_owned};

verus! {

/// The map a list of entries denotes (later entries win on equal keys).
pub open spec fn map_of<V>(s: Seq<(String, V)>) -> Map<Seq<char>, V>
    decreases s.len(),
{
    if s.len() == 0 {
        Map::empty()
    } else {
        map_of(s.drop_last()).insert(s.last().0@, s.last().1)
    }
}

/// No two entries share a key.
pub open spec fn keys_distinct<V>(s: Seq<(String, V)>) -> bool {
    forall|i: int, j: int| 0 <= i < s.len() && 0 <= j < s.len() && i != j ==> s[i].0@ != s[j].0@
}

/// Index of the entry whose key is `k`, or -1.
pub open spec fn key_index<V>(s: Seq<(String, V)>, k: Seq<char>) -> int
    decreases s.len(),
{
    if s.len() == 0 {
        -1
    } else if s.last().0@ == k {
        s.len() - 1
    } else {
        key_index(s.drop_last(), k)
    }
}

pub proof fn lemma_key_index<V>(s: Seq<(String, V)>, k: Seq<char>)
    ensures
        -1 <= key_index(s, k) < s.len(),
        key_index(s, k) >= 0 ==> s[key_index(s, k)].0@ == k,
        key_index(s, k) == -1 ==> forall|i: int| 0 <= i < s.len() ==> s[i].0@ != k,
        map_of(s).contains_key(k) <==> key_index(s, k) >= 0,
        key_index(s, k) >= 0 ==> map_of(s)[k] == s[key_index(s, k)].1,
    decreases s.len(),
{
    if s.len() > 0 {
        lemma_key_index(s.drop_last(), k);
        if key_index(s, k) == -1 {
            assert forall|i: int| 0 <= i < s.len() implies s[i].0@ != k by {
                if i < s.len() - 1 {
                    assert(s.drop_last()[i] == s[i]);
                }
            }
        }
    }
}

pub proof fn lemma_unique_index<V>(s: Seq<(String, V)>, i: int)
    requires
        keys_distinct(s),
        0 <= i < s.len(),
    ensures
        key_index(s, s[i].0@) == i,
        map_of(s).contains_key(s[i].0@),
        map_of(s)[s[i].0@] == s[i].1,
{
    lemma_key_index(s, s[i].0@);
}

pub proof fn lemma_map_of_dom_finite<V>(s: Seq<(String, V)>)
    ensures
        map_of(s).dom().finite(),
        keys_distinct(s) ==> map_of(s).dom().len() == s.len(),
    decreases s.len(),
{
    if s.len() > 0 {
        lemma_map_of_dom_finite(s.drop_last());
        if keys_distinct(s) {
            lemma_key_index(s.drop_last(), s.last().0@);
            assert(keys_distinct(s.drop_last()));
            assert(!map_of(s.drop_last()).contains_key(s.last().0@));
        }
    }
}

pub proof fn lemma_map_of_remove<V>(s: Seq<(String, V)>, i: int)
    requires
        keys_distinct(s),
        0 <= i < s.len(),
    ensures
        keys_distinct(s.remove(i)),
        map_of(s.remove(i)) == map_of(s).remove(s[i].0@),
    decreases s.len(),
{
    let r = s.remove(i);
    if i == s.len() - 1 {
        assert(r =~= s.drop_last());
        lemma_key_index(s.drop_last(), s[i].0@);
        assert(map_of(s.drop_last()) =~= map_of(s).remove(s[i].0@));
    } else {
        let d = s.drop_last();
        assert(keys_distinct(d));
        lemma_map_of_remove(d, i);
        assert(r.drop_last() =~= d.remove(i));
        assert(r.last() == s.last());
        assert(map_of(r) =~= map_of(s).remove(s[i].0@));
    }
}

pub proof fn lemma_map_of_update<V>(s: Seq<(String, V)>, i: int, v: V)
    requires
        keys_distinct(s),
        0 <= i < s.len(),
    ensures
        keys_distinct(s.update(i, (s[i].0, v))),
        map_of(s.update(i, (s[i].0, v))) == map_of(s).insert(s[i].0@, v),
    decreases s.len(),
{
    let u = s.update(i, (s[i].0, v));
    if i == s.len() - 1 {
        assert(u.drop_last() =~= s.drop_last());
        assert(map_of(u) =~= map_of(s).insert(s[i].0@, v));
    } else {
        let d = s.drop_last();
        lemma_map_of_update(d, i, v);
        assert(u.drop_last() =~= d.update(i, (d[i].0, v)));
        assert(map_of(u) =~= map_of(s).insert(s[i].0@, v));
    }
}

/// A map from strings to `V`, iterated in insertion order.
#[derive(Debug)]
pub struct StrMap<V> {
    entries: Vec<(String, V)>,
}

impl<V> View for StrMap<V> {
    type V = Map<Seq<char>, V>;

    /// Key/value pairs of the map.
    closed spec fn view(&self) -> Map<Seq<char>, V> {
        map_of(self.entries@)
    }
}

impl<V> StrMap<V> {
    #[verifier::type_invariant]
    pub open spec fn inv(&self) -> bool {
        keys_distinct(self.seq())
    }

    /// The entries in iteration order.
    pub closed spec fn seq(&self) -> Seq<(String, V)> {
        self.entries@
    }

    /// The map is the one its entries denote.
    pub proof fn lemma_view(&self)
        ensures
            self@ == map_of(self.seq()),
    {
    }

    /// The entries list and the map agree, and no key occurs twice.
    pub proof fn lemma_seq(&self)
        requires
            keys_distinct(self.seq()),
        ensures
            keys_distinct(self.seq()),
            self@ == map_of(self.seq()),
            forall|i: int|
                0 <= i < self.seq().len() ==> #[trigger] self@.contains_key(self.seq()[i].0@)
                    && self@[self.seq()[i].0@] == self.seq()[i].1,
            forall|k: Seq<char>|
                self@.contains_key(k) ==> 0 <= key_index(self.seq(), k) && self.seq()[key_index(
                    self.seq(),
                    k,
                )].0@ == k,
            self@.dom().finite(),
            self@.dom().len() == self.seq().len(),
    {
        assert forall|i: int| 0 <= i < self.seq().len() implies #[trigger] self@.contains_key(
            self.seq()[i].0@,
        ) && self@[self.seq()[i].0@] == self.seq()[i].1 by {
            lemma_unique_index(self.entries@, i);
        }
        assert forall|k: Seq<char>| self@.contains_key(k) implies 0 <= key_index(
            self.seq(),
            k,
        ) && self.seq()[key_index(self.seq(), k)].0@ == k by {
            lemma_key_index(self.entries@, k);
        }
        lemma_map_of_dom_finite(self.entries@);
    }

    /// An empty map.
    pub fn new() -> (m: Self)
        ensures
            m@ == Map::<Seq<char>, V>::empty(),
            m.seq() == Seq::<(String, V)>::empty(),
    {
        StrMap { entries: Vec::new() }
    }

    /// Number of keys.
    pub fn len(&self) -> (n: usize)
        ensures
            n == self.seq().len(),
            n == self@.dom().len(),
    {
        proof {
            use_type_invariant(self);
            self.lemma_seq();
        }
        self.entries.len()
    }

    /// The entries in iteration order.
    pub fn entries(&self) -> (r: &Vec<(String, V)>)
        ensures
            r@ == self.seq(),
            keys_distinct(self.seq()),
    {
        proof {
            use_type_invariant(self);
        }
        &self.entries
    }

    fn index_of(&self, k: &str) -> (r: Option<usize>)
        ensures
            match r {
                Some(i) => i < self.seq().len() && i == key_index(self.seq(), k@),
                None => key_index(self.seq(), k@) == -1,
            },
    {
        proof {
            use_type_invariant(self);
        }
        let mut i: usize = 0;
        while i < self.entries.len()
            invariant
                i <= self.entries@.len(),
                keys_distinct(self.entries@),
                forall|j: int| 0 <= j < i ==> self.entries@[j].0@ != k@,
            decreases self.entries@.len() - i,
        {
            if str_eq(self.entries[i].0.as_str(), k) {
                proof {
                    lemma_unique_index(self.entries@, i as int);
                }
                return Some(i);
            }
            i = i + 1;
        }
        proof {
            lemma_key_index(self.entries@, k@);
            if key_index(self.entries@, k@) >= 0 {
                assert(self.entries@[key_index(self.entries@, k@)].0@ == k@);
            }
        }
        None
    }

    /// Whether `k` is a key.
    pub fn contains_key(&self, k: &str) -> (r: bool)
        ensures
            r == self@.contains_key(k@),
    {
        proof {
            lemma_key_index(self.entries@, k@);
        }
        self.index_of(k).is_some()
    }

    /// The value stored under `k`.
    pub fn get(&self, k: &str) -> (r: Option<&V>)
        ensures
            match r {
                Some(v) => self@.contains_key(k@) && *v == self@[k@],
                None => !self@.contains_key(k@),
            },
    {
        proof {
            lemma_key_index(self.entries@, k@);
        }
        match self.index_of(k) {
            Some(i) => Some(&self.entries[i].1),
            None => None,
        }
    }

    /// Stores `v` under `k`, returning the value it replaces.
    pub fn insert(&mut self, k: String, v: V) -> (r: Option<V>)
        ensures
            final(self)@ == old(self)@.insert(k@, v),
            match r {
                Some(o) => old(self)@.contains_key(k@) && o == old(self)@[k@],
                None => !old(self)@.contains_key(k@),
            },
    {
        proof {
            use_type_invariant(&*self);
            lemma_key_index(self.entries@, k@);
        }
        match self.index_of(k.as_str()) {
            Some(i) => {
                let ghost s = self.entries@;
                let mut entries: Vec<(String, V)> = Vec::new();
                std::mem::swap(&mut entries, &mut self.entries);
                let (key, old_v) = entries.remove(i);
                entries.insert(i, (key, v));
                proof {
                    assert(entries@ =~= s.update(i as int, (s[i as int].0, v)));
                    lemma_map_of_update(s, i as int, v);
                }
                self.entries = entries;
                Some(old_v)
            },
            None => {
                let ghost s = self.entries@;
                let mut entries: Vec<(String, V)> = Vec::new();
                std::mem::swap(&mut entries, &mut self.entries);
                entries.push((k, v));
                proof {
                    assert(entries@.drop_last() =~= s);
                    assert(keys_distinct(entries@));
                }
                self.entries = entries;
                None
            },
        }
    }

    /// Removes the entry for `k`, returning its value.
    pub fn remove(&mut self, k: &str) -> (r: Option<V>)
        ensures
            final(self)@ == old(self)@.remove(k@),
            match r {
                Some(o) => old(self)@.contains_key(k@) && o == old(self)@[k@],
                None => !old(self)@.contains_key(k@),
            },
    {
        proof {
            use_type_invariant(&*self);
            lemma_key_index(self.entries@, k@);
        }
        match self.index_of(k) {
            Some(i) => {
                let ghost s = self.entries@;
                let mut entries: Vec<(String, V)> = Vec::new();
                std::mem::swap(&mut entries, &mut self.entries);
                let (_key, old_v) = entries.remove(i);
                proof {
                    lemma_map_of_remove(s, i as int);
                }
                self.entries = entries;
                Some(old_v)
            },
            None => {
                proof {
                    assert(self@.remove(k@) =~= self@);
                }
                None
            },
        }
    }
}

impl<V: Clone> Clone for StrMap<V> {
    fn clone(&self) -> (r: Self) {
        proof {
            use_type_invariant(self);
        }
        let mut entries: Vec<(String, V)> = Vec::new();
        let mut i: usize = 0;
        while i < self.entries.len()
            invariant
                i <= self.entries@.len(),
                keys_distinct(self.entries@),
                entries@.len() == i,
                forall|j: int| 0 <= j < i ==> #[trigger] entries@[j].0@ == self.entries@[j].0@,
            decreases self.entries@.len() - i,
        {
            let k = self.entries[i].0.clone();
            let v = self.entries[i].1.clone();
            entries.push((k, v));
            i = i + 1;
        }
        StrMap { entries }
    }
}

} // verus!
