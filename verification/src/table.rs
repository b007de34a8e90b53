//! A verified association table keyed by byte strings.
//!
//! The registry's maps (auth key to consumer, auth key to limiter set, auth
//! key to metric point) are all small tables keyed by a decoded auth key.
//! `Table<T>` stores the entries in a vector with pairwise-distinct keys and
//! is viewed as a `Map` from the key to the entry's view, which is what every
//! contract in this crate speaks about.

use vstd::prelude::*;

use crate::util::bytes_eq;

verus! {

/// An entry that carries its own key and an optional value invariant.
pub trait Keyed: View + Sized {
    /// The key under which this entry is filed.
    spec fn skey(&self) -> Seq<u8>;

    /// An invariant every stored entry satisfies.
    spec fn val_inv(&self) -> bool;

    /// The key, as the executable sees it.
    fn key_bytes(&self) -> (r: &[u8])
        ensures
            r@ == self.skey(),
    ;
}

/// The map described by a sequence of entries; later entries win.
pub open spec fn seq_map<T: Keyed>(s: Seq<T>) -> Map<Seq<u8>, <T as View>::V>
    decreases s.len(),
{
    if s.len() == 0 {
        Map::empty()
    } else {
        seq_map(s.drop_last()).insert(s.last().skey(), s.last()@)
    }
}

/// An association table with pairwise-distinct keys, viewed as a `Map`.
pub struct Table<T: Keyed> {
    pub entries: Vec<T>,
}

impl<T: Keyed> View for Table<T> {
    type V = Map<Seq<u8>, <T as View>::V>;

    open spec fn view(&self) -> Map<Seq<u8>, <T as View>::V> {
        seq_map(self.entries@)
    }
}

pub open spec fn unique_keys<T: Keyed>(s: Seq<T>) -> bool {
    forall|i: int, j: int| 0 <= i < j < s.len() ==> s[i].skey() != s[j].skey()
}

pub proof fn lemma_seq_map_index<T: Keyed>(s: Seq<T>, i: int)
    requires
        0 <= i < s.len(),
        forall|j: int| i < j < s.len() ==> s[j].skey() != s[i].skey(),
    ensures
        seq_map(s).contains_key(s[i].skey()),
        seq_map(s)[s[i].skey()] == s[i]@,
    decreases s.len(),
{
    if i == s.len() - 1 {
    } else {
        lemma_seq_map_index(s.drop_last(), i);
    }
}

pub proof fn lemma_seq_map_index_contains<T: Keyed>(s: Seq<T>, i: int)
    requires
        0 <= i < s.len(),
    ensures
        seq_map(s).contains_key(s[i].skey()),
    decreases s.len(),
{
    if i == s.len() - 1 {
    } else {
        lemma_seq_map_index_contains(s.drop_last(), i);
    }
}

/// How the indices of a sequence shift when one element is removed.
pub proof fn lemma_entries_remove<T: Keyed>(s: Seq<T>, i: int)
    requires
        0 <= i < s.len(),
    ensures
        s.remove(i).len() == s.len() - 1,
        forall|a: int| 0 <= a < i ==> s.remove(i)[a] == s[a],
        forall|a: int| i <= a < s.len() - 1 ==> s.remove(i)[a] == s[a + 1],
{
}

pub proof fn lemma_seq_map_absent<T: Keyed>(s: Seq<T>, k: Seq<u8>)
    requires
        forall|i: int| 0 <= i < s.len() ==> s[i].skey() != k,
    ensures
        !seq_map(s).contains_key(k),
    decreases s.len(),
{
    if s.len() > 0 {
        lemma_seq_map_absent(s.drop_last(), k);
    }
}

pub proof fn lemma_seq_map_push<T: Keyed>(s: Seq<T>, v: T)
    ensures
        seq_map(s.push(v)) == seq_map(s).insert(v.skey(), v@),
{
    assert(s.push(v).drop_last() =~= s);
}

pub proof fn lemma_seq_map_remove<T: Keyed>(s: Seq<T>, i: int)
    requires
        unique_keys(s),
        0 <= i < s.len(),
    ensures
        seq_map(s.remove(i)) =~= seq_map(s).remove(s[i].skey()),
    decreases s.len(),
{
    let k = s[i].skey();
    if i == s.len() - 1 {
        assert(s.remove(i) =~= s.drop_last());
        assert(forall|j: int| 0 <= j < s.drop_last().len() ==> s.drop_last()[j].skey() != k);
        lemma_seq_map_absent(s.drop_last(), k);
        assert(seq_map(s.drop_last()) =~= seq_map(s.drop_last()).insert(k, s[i]@).remove(k));
    } else {
        assert(s.remove(i).drop_last() =~= s.drop_last().remove(i));
        assert(s.remove(i).last() == s.last());
        lemma_seq_map_remove(s.drop_last(), i);
        assert(s.last().skey() != k);
        assert(seq_map(s.drop_last()).remove(k).insert(s.last().skey(), s.last()@) =~= seq_map(
            s.drop_last(),
        ).insert(s.last().skey(), s.last()@).remove(k));
    }
}

impl<T: Keyed> Table<T> {
    /// The stored entries, in storage order.
    pub open spec fn seq(&self) -> Seq<T> {
        self.entries@
    }

    /// Distinct keys, and every entry's own invariant.
    pub open spec fn wf(&self) -> bool {
        &&& unique_keys(self.entries@)
        &&& forall|i: int| 0 <= i < self.entries@.len() ==> (#[trigger] self.entries@[i]).val_inv()
    }

    pub fn new() -> (t: Self)
        ensures
            t.wf(),
            t@ == Map::<Seq<u8>, <T as View>::V>::empty(),
            t.seq() == Seq::<T>::empty(),
    {
        let t = Table { entries: Vec::new() };
        assert(t@ =~= Map::<Seq<u8>, <T as View>::V>::empty());
        t
    }

    pub fn len(&self) -> (n: usize)
        ensures
            n == self.seq().len(),
    {
        self.entries.len()
    }

    pub fn nth(&self, i: usize) -> (r: &T)
        requires
            i < self.seq().len(),
        ensures
            *r == self.seq()[i as int],
    {
        &self.entries[i]
    }

    /// The position of the entry filed under `key`, if any.
    pub fn find(&self, key: &[u8]) -> (r: Option<usize>)
        requires
            self.wf(),
        ensures
            match r {
                Some(i) => i < self.seq().len() && self.seq()[i as int].skey() == key@
                    && self@.contains_key(key@) && self@[key@] == self.seq()[i as int]@,
                None => !self@.contains_key(key@),
            },
    {
        let mut i: usize = 0;
        while i < self.entries.len()
            invariant
                self.wf(),
                0 <= i <= self.entries@.len(),
                forall|j: int| 0 <= j < i ==> self.entries@[j].skey() != key@,
            decreases self.entries@.len() - i,
        {
            if bytes_eq(self.entries[i].key_bytes(), key) {
                proof {
                    lemma_seq_map_index(self.entries@, i as int);
                }
                return Some(i);
            }
            i = i + 1;
        }
        proof {
            lemma_seq_map_absent(self.entries@, key@);
        }
        None
    }

    pub fn contains(&self, key: &[u8]) -> (r: bool)
        requires
            self.wf(),
        ensures
            r == self@.contains_key(key@),
    {
        self.find(key).is_some()
    }

    pub fn get(&self, key: &[u8]) -> (r: Option<&T>)
        requires
            self.wf(),
        ensures
            match r {
                Some(v) => self@.contains_key(key@) && v@ == self@[key@] && v.skey() == key@
                    && v.val_inv(),
                None => !self@.contains_key(key@),
            },
    {
        match self.find(key) {
            Some(i) => Some(&self.entries[i]),
            None => None,
        }
    }

    /// Files `v` under its own key, replacing any previous entry.
    pub fn insert(&mut self, v: T)
        requires
            old(self).wf(),
            v.val_inv(),
        ensures
            final(self).wf(),
            final(self)@ == old(self)@.insert(v.skey(), v@),
    {
        let ghost k = v.skey();
        match self.find(v.key_bytes()) {
            Some(i) => {
                proof {
                    lemma_seq_map_remove(self.entries@, i as int);
                    lemma_entries_remove(self.entries@, i as int);
                }
                self.entries.remove(i);
                assert(self.wf());
                assert(!self@.contains_key(k));
            },
            None => {},
        }
        proof {
            lemma_seq_map_push(self.entries@, v);
            if exists|j: int| 0 <= j < self.entries@.len() && self.entries@[j].skey() == k {
                let j = choose|j: int|
                    0 <= j < self.entries@.len() && self.entries@[j].skey() == k;
                lemma_seq_map_index_contains(self.entries@, j);
                assert(false);
            }
        }
        let ghost before = self.entries@;
        self.entries.push(v);
        assert(forall|a: int| 0 <= a < before.len() ==> self.entries@[a] == before[a]);
        assert(self.wf());
        assert(self@ =~= old(self)@.insert(k, v@));
    }

    /// Removes the entry filed under `key`, if any; returns it.
    pub fn remove(&mut self, key: &[u8]) -> (r: Option<T>)
        requires
            old(self).wf(),
        ensures
            final(self).wf(),
            final(self)@ == old(self)@.remove(key@),
            match r {
                Some(v) => old(self)@.contains_key(key@) && v@ == old(self)@[key@] && v.skey()
                    == key@ && v.val_inv(),
                None => !old(self)@.contains_key(key@) && final(self)@ == old(self)@,
            },
    {
        match self.find(key) {
            Some(i) => {
                proof {
                    lemma_seq_map_remove(self.entries@, i as int);
                    lemma_seq_map_index(self.entries@, i as int);
                    lemma_entries_remove(self.entries@, i as int);
                }
                let v = self.entries.remove(i);
                assert(self.wf());
                Some(v)
            },
            None => {
                assert(self@ =~= old(self)@.remove(key@));
                None
            },
        }
    }

    /// Drops every entry.
    pub fn clear(&mut self)
        ensures
            final(self).wf(),
            final(self)@ == Map::<Seq<u8>, <T as View>::V>::empty(),
            final(self).seq() == Seq::<T>::empty(),
    {
        self.entries.clear();
        assert(self@ =~= Map::<Seq<u8>, <T as View>::V>::empty());
    }
}

} // verus!
