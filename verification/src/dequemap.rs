//! A double-ended queue of key/value entries that is also a map: each key
//! occurs at most once, and entries keep the order in which they were queued.
use vstd::prelude::*;
use crate::order::{lawful_eq, lemma_eq_laws};

verus! {

/// Index of the first entry of `s` with key `k`, or -1.
pub open spec fn key_index<K, V>(s: Seq<(K, V)>, k: K) -> int
    decreases s.len(),
{
    if s.len() == 0 {
        -1
    } else if s.last().0 == k {
        let r = key_index(s.drop_last(), k);
        if r >= 0 {
            r
        } else {
            s.len() - 1
        }
    } else {
        key_index(s.drop_last(), k)
    }
}

/// No key occurs twice.
pub open spec fn distinct_keys<K, V>(s: Seq<(K, V)>) -> bool {
    forall|i: int, j: int| 0 <= i < j < s.len() ==> (#[trigger] s[i]).0 != (#[trigger] s[j]).0
}

/// `k` is the key of some entry of `s`.
pub open spec fn has_key<K, V>(s: Seq<(K, V)>, k: K) -> bool {
    exists|i: int| 0 <= i < s.len() && (#[trigger] s[i]).0 == k
}

/// The value stored under `k`, if any.
pub open spec fn lookup<K, V>(s: Seq<(K, V)>, k: K) -> Option<V> {
    if has_key(s, k) {
        Some(s[key_index(s, k)].1)
    } else {
        None
    }
}

/// `s` after `insert(k, v)`: the value is replaced in place when `k` is
/// present, else the entry goes to the back.
pub open spec fn inserted<K, V>(s: Seq<(K, V)>, k: K, v: V) -> Seq<(K, V)> {
    if has_key(s, k) {
        s.update(key_index(s, k), (s[key_index(s, k)].0, v))
    } else {
        s.push((k, v))
    }
}

/// `s` without the entry with key `k`.
pub open spec fn without<K, V>(s: Seq<(K, V)>, k: K) -> Seq<(K, V)> {
    if has_key(s, k) {
        s.remove(key_index(s, k))
    } else {
        s
    }
}

/// `s` after inserting the entries of `t`, front to back.
pub open spec fn insert_all<K, V>(s: Seq<(K, V)>, t: Seq<(K, V)>) -> Seq<(K, V)>
    decreases t.len(),
{
    if t.len() == 0 {
        s
    } else {
        inserted(insert_all(s, t.drop_last()), t.last().0, t.last().1)
    }
}

pub proof fn lemma_key_index<K, V>(s: Seq<(K, V)>, k: K)
    ensures
        -1 <= key_index(s, k) < s.len(),
        key_index(s, k) >= 0 ==> s[key_index(s, k)].0 == k,
        key_index(s, k) >= 0 ==> forall|i: int| 0 <= i < key_index(s, k) ==> (#[trigger] s[i]).0 != k,
        key_index(s, k) == -1 <==> !has_key(s, k),
    decreases s.len(),
{
    if s.len() > 0 {
        let t = s.drop_last();
        lemma_key_index(t, k);
        assert forall|i: int| 0 <= i < t.len() implies #[trigger] t[i] == s[i] by {}
        if key_index(s, k) == -1 {
            assert forall|i: int| 0 <= i < s.len() implies (#[trigger] s[i]).0 != k by {
                if i < t.len() {
                    assert(t[i] == s[i]);
                    assert(!has_key(t, k));
                    if s[i].0 == k {
                        assert(t[i].0 == k);
                    }
                }
            }
        } else {
            let j = key_index(s, k);
            assert(s[j].0 == k);
            assert forall|i: int| 0 <= i < j implies (#[trigger] s[i]).0 != k by {
                assert(t[i] == s[i]);
                if key_index(t, k) < 0 {
                    if t[i].0 == k {
                        assert(has_key(t, k));
                    }
                }
            }
        }
    }
}

/// In a sequence with distinct keys, an entry with key `k` is the one at `key_index`.
pub proof fn lemma_key_index_unique<K, V>(s: Seq<(K, V)>, k: K, i: int)
    requires
        distinct_keys(s),
        0 <= i < s.len(),
        s[i].0 == k,
    ensures
        key_index(s, k) == i,
{
    lemma_key_index(s, k);
    let j = key_index(s, k);
    assert(has_key(s, k));
    if j != i {
        if j < i {
            assert(s[j].0 != s[i].0);
        } else {
            assert(s[i].0 != s[j].0);
        }
    }
}

pub proof fn lemma_distinct_remove<K, V>(s: Seq<(K, V)>, i: int)
    requires
        distinct_keys(s),
        0 <= i < s.len(),
    ensures
        distinct_keys(s.remove(i)),
        forall|k: K| #[trigger] has_key(s.remove(i), k) <==> has_key(s, k) && k != s[i].0,
{
    let t = s.remove(i);
    assert forall|a: int, b: int| 0 <= a < b < t.len() implies (#[trigger] t[a]).0 != (#[trigger] t[b]).0 by {
        let a2 = if a < i { a } else { a + 1 };
        let b2 = if b < i { b } else { b + 1 };
        assert(t[a] == s[a2]);
        assert(t[b] == s[b2]);
    }
    assert forall|k: K| #[trigger] has_key(t, k) <==> has_key(s, k) && k != s[i].0 by {
        if has_key(t, k) {
            let a = choose|a: int| 0 <= a < t.len() && (#[trigger] t[a]).0 == k;
            let a2 = if a < i { a } else { a + 1 };
            assert(t[a] == s[a2]);
            assert(s[a2].0 == k);
        }
        if has_key(s, k) && k != s[i].0 {
            let a = choose|a: int| 0 <= a < s.len() && (#[trigger] s[a]).0 == k;
            let a2 = if a < i { a } else { a - 1 };
            assert(t[a2] == s[a]);
        }
    }
}

/// After `insert(k, v)` the map holds `v` under `k`, every other key keeps
/// its value, and keys stay distinct.
pub proof fn lemma_insert_then_lookup<K, V>(s: Seq<(K, V)>, k: K, v: V, j: K)
    requires
        distinct_keys(s),
    ensures
        lookup(inserted(s, k, v), k) == Some(v),
        j != k ==> lookup(inserted(s, k, v), j) == lookup(s, j),
        distinct_keys(inserted(s, k, v)),
{
    lemma_key_index(s, k);
    lemma_key_index(s, j);
    let t = inserted(s, k, v);
    if has_key(s, k) {
        let i = key_index(s, k);
        lemma_key_index_unique(s, k, i);
        assert(t[i].0 == k);
        assert(distinct_keys(t)) by {
            assert forall|a: int, b: int| 0 <= a < b < t.len() implies (#[trigger] t[a]).0 != (#[trigger] t[b]).0 by {
                assert(t[a].0 == s[a].0);
                assert(t[b].0 == s[b].0);
            }
        }
        lemma_key_index_unique(t, k, i);
        if j != k {
            if has_key(s, j) {
                let q = key_index(s, j);
                assert(t[q] == s[q]);
                lemma_key_index_unique(t, j, q);
            } else if has_key(t, j) {
                let q = choose|q: int| 0 <= q < t.len() && (#[trigger] t[q]).0 == j;
                assert(t[q].0 == s[q].0);
            }
        }
    } else {
        assert(distinct_keys(t)) by {
            assert forall|a: int, b: int| 0 <= a < b < t.len() implies (#[trigger] t[a]).0 != (#[trigger] t[b]).0 by {
                assert(t[a] == s[a]);
                if b == s.len() {
                    if t[a].0 == k {
                        assert(has_key(s, k));
                    }
                } else {
                    assert(t[b] == s[b]);
                }
            }
        }
        lemma_key_index_unique(t, k, s.len() as int);
        if j != k {
            if has_key(s, j) {
                let q = key_index(s, j);
                assert(t[q] == s[q]);
                lemma_key_index_unique(t, j, q);
            } else if has_key(t, j) {
                let q = choose|q: int| 0 <= q < t.len() && (#[trigger] t[q]).0 == j;
                if q < s.len() {
                    assert(t[q] == s[q]);
                }
            }
        }
    }
}

/// After removing `k` nothing is stored under `k`, every other key keeps
/// its value, and keys stay distinct.
pub proof fn lemma_remove_then_lookup<K, V>(s: Seq<(K, V)>, k: K, j: K)
    requires
        distinct_keys(s),
    ensures
        lookup(without(s, k), k) is None,
        j != k ==> lookup(without(s, k), j) == lookup(s, j),
        distinct_keys(without(s, k)),
{
    lemma_key_index(s, k);
    lemma_key_index(s, j);
    if has_key(s, k) {
        let i = key_index(s, k);
        lemma_distinct_remove(s, i);
        let t = s.remove(i);
        assert(!has_key(t, k));
        if j != k && has_key(s, j) {
            let q = key_index(s, j);
            assert(has_key(t, j));
            let q2 = if q < i { q } else { q - 1 };
            assert(t[q2] == s[q]);
            lemma_key_index_unique(t, j, q2);
        }
    }
}

/// Entries pushed to the back with distinct keys come out of the front in
/// the order they went in.
pub proof fn lemma_push_back_fifo<K, V>(s: Seq<(K, V)>, k1: K, v1: V, k2: K, v2: V)
    requires
        s.len() == 0,
        k1 != k2,
    ensures
        without(without(s, k1).push((k1, v1)), k2).push((k2, v2)) == seq![(k1, v1), (k2, v2)],
{
    assert(!has_key(s, k1));
    let t = without(s, k1).push((k1, v1));
    assert(t =~= seq![(k1, v1)]);
    if has_key(t, k2) {
        let q = choose|q: int| 0 <= q < t.len() && (#[trigger] t[q]).0 == k2;
        assert(t[q].0 == k1);
    }
    assert(without(t, k2).push((k2, v2)) =~= seq![(k1, v1), (k2, v2)]);
}

/// A queue of entries with distinct keys.
pub struct DequeMap<K, V> {
    entries: Vec<(K, V)>,
}

impl<K, V> View for DequeMap<K, V> {
    type V = Seq<(K, V)>;

    closed spec fn view(&self) -> Seq<(K, V)> {
        self.entries@
    }
}

impl<K, V> DequeMap<K, V> {
    /// Well-formed: no key occurs twice.
    pub open spec fn wf(&self) -> bool {
        distinct_keys(self@)
    }

    /// An empty map.
    pub fn new() -> (m: Self)
        ensures
            m.wf(),
            m@ == Seq::<(K, V)>::empty(),
    {
        DequeMap { entries: Vec::new() }
    }

    /// An empty map with room for `capacity` entries.
    pub fn with_capacity(capacity: usize) -> (m: Self)
        ensures
            m.wf(),
            m@ == Seq::<(K, V)>::empty(),
    {
        DequeMap { entries: Vec::with_capacity(capacity) }
    }

    /// Reserves room for at least `additional` more entries.
    pub fn reserve(&mut self, additional: usize)
        requires
            old(self).wf(),
        ensures
            final(self).wf(),
            final(self)@ == old(self)@,
    {
        self.entries.reserve(additional);
    }

    /// Drops every entry.
    pub fn clear(&mut self)
        requires
            old(self).wf(),
        ensures
            final(self).wf(),
            final(self)@ == Seq::<(K, V)>::empty(),
    {
        self.entries.clear();
    }

    /// Number of entries.
    pub fn len(&self) -> (n: usize)
        ensures
            n == self@.len(),
    {
        self.entries.len()
    }

    /// Whether the map holds no entry.
    pub fn is_empty(&self) -> (b: bool)
        ensures
            b == (self@.len() == 0),
    {
        self.entries.len() == 0
    }

    /// The first entry.
    pub fn front(&self) -> (r: Option<(&K, &V)>)
        ensures
            self@.len() == 0 ==> r is None,
            self@.len() > 0 ==> (r matches Some(e) && (*e.0, *e.1) == self@[0]),
    {
        if self.entries.len() == 0 {
            None
        } else {
            let e = &self.entries[0];
            Some((&e.0, &e.1))
        }
    }

    /// The last entry.
    pub fn back(&self) -> (r: Option<(&K, &V)>)
        ensures
            self@.len() == 0 ==> r is None,
            self@.len() > 0 ==> (r matches Some(e) && (*e.0, *e.1) == self@.last()),
    {
        let n = self.entries.len();
        if n == 0 {
            None
        } else {
            let e = &self.entries[n - 1];
            Some((&e.0, &e.1))
        }
    }

    /// Removes and returns the first entry.
    pub fn pop_front(&mut self) -> (r: Option<(K, V)>)
        requires
            old(self).wf(),
        ensures
            final(self).wf(),
            old(self)@.len() == 0 ==> r is None && final(self)@ == old(self)@,
            old(self)@.len() > 0 ==> r == Some(old(self)@[0]) && final(self)@ == old(self)@.drop_first(),
    {
        if self.entries.len() == 0 {
            None
        } else {
            let ghost s = self.entries@;
            let e = self.entries.remove(0);
            proof {
                lemma_distinct_remove(s, 0);
                assert(s.remove(0) =~= s.drop_first());
            }
            Some(e)
        }
    }

    /// Removes and returns the last entry.
    pub fn pop_back(&mut self) -> (r: Option<(K, V)>)
        requires
            old(self).wf(),
        ensures
            final(self).wf(),
            old(self)@.len() == 0 ==> r is None && final(self)@ == old(self)@,
            old(self)@.len() > 0 ==> r == Some(old(self)@.last()) && final(self)@ == old(self)@.drop_last(),
    {
        let ghost s = self.entries@;
        let r = self.entries.pop();
        proof {
            if s.len() > 0 {
                lemma_distinct_remove(s, s.len() - 1);
                assert(s.remove(s.len() - 1) =~= s.drop_last());
            }
        }
        r
    }

    /// Appends an entry whose key is not present and hands out its value.
    fn push_last(&mut self, key: K, value: V) -> (r: &mut V)
        requires
            old(self).wf(),
            !has_key(old(self)@, key),
        ensures
            *r == value,
            final(self)@ == old(self)@.push((key, *final(r))),
    {
        self.entries.push((key, value));
        let n = self.entries.len() - 1;
        &mut self.entries[n].1
    }

    /// The entry at position `i`.
    fn entry_at(&self, i: usize) -> (r: &(K, V))
        requires
            i < self@.len(),
        ensures
            *r == self@[i as int],
    {
        &self.entries[i]
    }

    /// The value of the entry at position `i`, to change in place.
    fn value_at_mut(&mut self, i: usize) -> (r: &mut V)
        requires
            i < old(self)@.len(),
        ensures
            *r == old(self)@[i as int].1,
            final(self)@ == old(self)@.update(i as int, (old(self)@[i as int].0, *final(r))),
    {
        &mut self.entries[i].1
    }

    /// References to the entries, front to back.
    pub fn iter(&self) -> (v: Vec<(&K, &V)>)
        ensures
            v@.len() == self@.len(),
            forall|i: int| 0 <= i < v@.len() ==> (*(#[trigger] v@[i]).0, *v@[i].1) == self@[i],
    {
        let mut out: Vec<(&K, &V)> = Vec::new();
        let n = self.entries.len();
        for i in 0..n
            invariant
                n == self.entries@.len(),
                out@.len() == i,
                forall|j: int| 0 <= j < i ==> (*(#[trigger] out@[j]).0, *out@[j].1) == self.entries@[j],
        {
            let e = &self.entries[i];
            out.push((&e.0, &e.1));
        }
        out
    }
}

impl<K: PartialEq, V> DequeMap<K, V> {
    /// Position of the entry with key `k`.
    fn get_index(&self, k: &K) -> (r: Option<usize>)
        requires
            lawful_eq::<K>(),
        ensures
            r matches Some(i) ==> i == key_index(self@, *k),
            r is None ==> key_index(self@, *k) == -1,
    {
        proof {
            lemma_eq_laws::<K>();
        }
        let n = self.entries.len();
        let mut i: usize = 0;
        while i < n
            invariant
                n == self.entries@.len(),
                i <= n,
                lawful_eq::<K>(),
                forall|j: int| 0 <= j < i ==> (#[trigger] self.entries@[j]).0 != *k,
            decreases n - i,
        {
            proof {
                lemma_eq_laws::<K>();
            }
            if self.entries[i].0 == *k {
                proof {
                    lemma_key_index(self.entries@, *k);
                    let f = key_index(self.entries@, *k);
                    assert(has_key(self.entries@, *k));
                    if f > i {
                        assert((self.entries@[i as int]).0 == *k);
                    }
                }
                return Some(i);
            }
            i = i + 1;
        }
        proof {
            lemma_key_index(self.entries@, *k);
        }
        None
    }

    /// Position of the entry with key `k`, if any.
    fn position(&self, k: &K) -> (r: Option<usize>)
        requires
            self.wf(),
            lawful_eq::<K>(),
        ensures
            r matches Some(i) ==> has_key(self@, *k) && i == key_index(self@, *k) && i < self@.len()
                && self@[i as int].0 == *k,
            r is None <==> !has_key(self@, *k),
    {
        proof {
            lemma_key_index(self@, *k);
        }
        self.get_index(k)
    }

    /// Whether some entry has key `k`.
    pub fn contains_key(&self, k: &K) -> (b: bool)
        requires
            lawful_eq::<K>(),
        ensures
            b == has_key(self@, *k),
    {
        proof {
            lemma_key_index(self@, *k);
        }
        self.get_index(k).is_some()
    }

    /// The value of the entry with key `k`.
    pub fn get(&self, k: &K) -> (r: Option<&V>)
        requires
            lawful_eq::<K>(),
        ensures
            !has_key(self@, *k) ==> r is None,
            has_key(self@, *k) ==> (r matches Some(v) && *v == self@[key_index(self@, *k)].1),
            (match r {
                Some(v) => Some(*v),
                None => None,
            }) == lookup(self@, *k),
    {
        proof {
            lemma_key_index(self@, *k);
        }
        match self.get_index(k) {
            Some(i) => Some(&self.entries[i].1),
            None => None,
        }
    }

    /// The entry with key `k`.
    pub fn get_key_value(&self, k: &K) -> (r: Option<(&K, &V)>)
        requires
            lawful_eq::<K>(),
        ensures
            !has_key(self@, *k) ==> r is None,
            has_key(self@, *k) ==> (r matches Some(e) && (*e.0, *e.1) == self@[key_index(self@, *k)]),
    {
        proof {
            lemma_key_index(self@, *k);
        }
        match self.get_index(k) {
            Some(i) => {
                let e = &self.entries[i];
                Some((&e.0, &e.1))
            },
            None => None,
        }
    }

    /// A mutable reference to the value of the entry with key `k`.
    pub fn get_mut(&mut self, k: &K) -> (r: Option<&mut V>)
        requires
            old(self).wf(),
            lawful_eq::<K>(),
        ensures
            final(self).wf(),
            !has_key(old(self)@, *k) ==> r is None && final(self)@ == old(self)@,
            has_key(old(self)@, *k) ==> (r matches Some(v) && {
                let i = key_index(old(self)@, *k);
                &&& *v == old(self)@[i].1
                &&& final(self)@ == old(self)@.update(i, (old(self)@[i].0, *final(v)))
            }),
    {
        proof {
            lemma_key_index(self@, *k);
        }
        match self.get_index(k) {
            Some(i) => Some(&mut self.entries[i].1),
            None => None,
        }
    }

    /// Removes the entry with key `k` and returns its value.
    pub fn remove(&mut self, k: &K) -> (r: Option<V>)
        requires
            old(self).wf(),
            lawful_eq::<K>(),
        ensures
            final(self).wf(),
            !has_key(old(self)@, *k) ==> r is None && final(self)@ == old(self)@,
            has_key(old(self)@, *k) ==> {
                let i = key_index(old(self)@, *k);
                &&& r == Some(old(self)@[i].1)
                &&& final(self)@ == old(self)@.remove(i)
            },
            final(self)@ == without(old(self)@, *k),
            r == lookup(old(self)@, *k),
    {
        proof {
            lemma_key_index(self@, *k);
        }
        match self.get_index(k) {
            Some(i) => {
                let ghost s = self.entries@;
                let e = self.entries.remove(i);
                proof {
                    lemma_distinct_remove(s, i as int);
                }
                Some(e.1)
            },
            None => None,
        }
    }

    /// Inserts an entry. When `key` is present its value is replaced in place
    /// (the stored key stays) and the old value is returned; otherwise the
    /// entry goes to the back and `None` is returned.
    pub fn insert(&mut self, key: K, value: V) -> (r: Option<V>)
        requires
            old(self).wf(),
            lawful_eq::<K>(),
        ensures
            final(self).wf(),
            !has_key(old(self)@, key) ==> r is None && final(self)@ == old(self)@.push((key, value)),
            has_key(old(self)@, key) ==> {
                let i = key_index(old(self)@, key);
                &&& r == Some(old(self)@[i].1)
                &&& final(self)@ == old(self)@.update(i, (old(self)@[i].0, value))
            },
            final(self)@ == inserted(old(self)@, key, value),
            r == lookup(old(self)@, key),
    {
        proof {
            lemma_key_index(self@, key);
        }
        match self.get_index(&key) {
            Some(i) => {
                let ghost s = self.entries@;
                let mut entries: Vec<(K, V)> = Vec::new();
                std::mem::swap(&mut entries, &mut self.entries);
                let (k0, v0) = entries.remove(i);
                entries.insert(i, (k0, value));
                proof {
                    assert(entries@ =~= s.update(i as int, (s[i as int].0, value)));
                    assert forall|a: int, b: int| 0 <= a < b < entries@.len() implies (#[trigger] entries@[a]).0 != (#[trigger] entries@[b]).0 by {
                        assert(entries@[a].0 == s[a].0);
                        assert(entries@[b].0 == s[b].0);
                    }
                }
                self.entries = entries;
                Some(v0)
            },
            None => {
                let ghost s = self.entries@;
                self.entries.push((key, value));
                proof {
                    let t = self.entries@;
                    assert forall|a: int, b: int| 0 <= a < b < t.len() implies (#[trigger] t[a]).0 != (#[trigger] t[b]).0 by {
                        if b == t.len() - 1 {
                            assert(t[a] == s[a]);
                            if t[a].0 == key {
                                assert(has_key(s, key));
                            }
                        } else {
                            assert(t[a] == s[a]);
                            assert(t[b] == s[b]);
                        }
                    }
                }
                None
            },
        }
    }

    /// Removes the entry with key `key`, if any.
    fn remove_entry(&mut self, key: &K) -> (r: Option<V>)
        requires
            old(self).wf(),
            lawful_eq::<K>(),
        ensures
            final(self).wf(),
            !has_key(old(self)@, *key) ==> r is None && final(self)@ == old(self)@,
            has_key(old(self)@, *key) ==> {
                let i = key_index(old(self)@, *key);
                &&& r == Some(old(self)@[i].1)
                &&& final(self)@ == old(self)@.remove(i)
            },
            !has_key(final(self)@, *key),
    {
        proof {
            lemma_key_index(self@, *key);
            if has_key(self@, *key) {
                lemma_distinct_remove(self@, key_index(self@, *key));
            }
        }
        self.remove(key)
    }

    /// Moves the entry to the back, replacing any entry with the same key, and
    /// returns the replaced value.
    pub fn push_back(&mut self, key: K, value: V) -> (r: Option<V>)
        requires
            old(self).wf(),
            lawful_eq::<K>(),
        ensures
            final(self).wf(),
            !has_key(old(self)@, key) ==> r is None && final(self)@ == old(self)@.push((key, value)),
            has_key(old(self)@, key) ==> {
                let i = key_index(old(self)@, key);
                &&& r == Some(old(self)@[i].1)
                &&& final(self)@ == old(self)@.remove(i).push((key, value))
            },
            final(self)@ == without(old(self)@, key).push((key, value)),
            r == lookup(old(self)@, key),
    {
        let old_val = self.remove_entry(&key);
        let ghost s = self.entries@;
        self.entries.push((key, value));
        proof {
            let t = self.entries@;
            assert forall|a: int, b: int| 0 <= a < b < t.len() implies (#[trigger] t[a]).0 != (#[trigger] t[b]).0 by {
                assert(t[a] == s[a]);
                if b == t.len() - 1 {
                    if t[a].0 == key {
                        assert(has_key(s, key));
                    }
                } else {
                    assert(t[b] == s[b]);
                }
            }
        }
        old_val
    }

    /// Moves the entry to the front, replacing any entry with the same key, and
    /// returns the replaced value.
    pub fn push_front(&mut self, key: K, value: V) -> (r: Option<V>)
        requires
            old(self).wf(),
            lawful_eq::<K>(),
        ensures
            final(self).wf(),
            !has_key(old(self)@, key) ==> r is None && final(self)@ == seq![(key, value)] + old(self)@,
            has_key(old(self)@, key) ==> {
                let i = key_index(old(self)@, key);
                &&& r == Some(old(self)@[i].1)
                &&& final(self)@ == seq![(key, value)] + old(self)@.remove(i)
            },
            final(self)@ == seq![(key, value)] + without(old(self)@, key),
            r == lookup(old(self)@, key),
    {
        let old_val = self.remove_entry(&key);
        let ghost s = self.entries@;
        let mut entries: Vec<(K, V)> = Vec::new();
        std::mem::swap(&mut entries, &mut self.entries);
        entries.insert(0, (key, value));
        proof {
            let t = entries@;
            assert(t =~= seq![(key, value)] + s);
            assert forall|a: int, b: int| 0 <= a < b < t.len() implies (#[trigger] t[a]).0 != (#[trigger] t[b]).0 by {
                assert(t[b] == s[b - 1]);
                if a == 0 {
                    if t[b].0 == key {
                        assert(has_key(s, key));
                    }
                } else {
                    assert(t[a] == s[a - 1]);
                }
            }
        }
        self.entries = entries;
        old_val
    }

    /// Inserts each entry of `other`, front to back, as `insert` does.
    pub fn extend(&mut self, other: DequeMap<K, V>)
        requires
            old(self).wf(),
            lawful_eq::<K>(),
        ensures
            final(self).wf(),
            final(self)@ == insert_all(old(self)@, other@),
    {
        self.extend_from_vec(other.entries)
    }

    /// The entries, front to back.
    pub fn into_vec(self) -> (v: Vec<(K, V)>)
        ensures
            v@ == self@,
    {
        self.entries
    }

    /// Inserts each of `items`, front to back, as `insert` does.
    pub fn extend_from_vec(&mut self, items: Vec<(K, V)>)
        requires
            old(self).wf(),
            lawful_eq::<K>(),
        ensures
            final(self).wf(),
            final(self)@ == insert_all(old(self)@, items@),
    {
        let ghost start = self@;
        let ghost orig = items@;
        let mut rest = items;
        let mut n: usize = 0;
        let total = rest.len();
        proof {
            assert(orig.take(0) =~= Seq::<(K, V)>::empty());
            assert(orig.skip(0) =~= orig);
        }
        while rest.len() > 0
            invariant
                lawful_eq::<K>(),
                self.wf(),
                total == orig.len(),
                n + rest@.len() == total,
                rest@ == orig.skip(n as int),
                self@ == insert_all(start, orig.take(n as int)),
            decreases rest@.len(),
        {
            let (k, v) = rest.remove(0);
            proof {
                assert(orig.skip(n as int)[0] == orig[n as int]);
                assert(orig.skip(n as int).remove(0) =~= orig.skip(n + 1));
            }
            self.insert(k, v);
            proof {
                let taken = orig.take(n + 1);
                assert(taken.drop_last() =~= orig.take(n as int));
                assert(taken.last() == (k, v));
            }
            n = n + 1;
        }
        proof {
            assert(orig.take(n as int) =~= orig);
        }
    }

    /// A map of the given entries, inserted front to back as `insert` does.
    pub fn from_vec(items: Vec<(K, V)>) -> (m: Self)
        requires
            lawful_eq::<K>(),
        ensures
            m.wf(),
            m@ == insert_all(Seq::<(K, V)>::empty(), items@),
    {
        let mut m = DequeMap::new();
        m.extend_from_vec(items);
        m
    }
}

impl<K, V> core::ops::Index<usize> for DequeMap<K, V> {
    type Output = V;

    /// The value of the entry at `index`, counted from the front.
    fn index(&self, index: usize) -> (v: &V)
        ensures
            *v == self@[index as int].1,
    {
        &self.entries[index].1
    }
}

impl<K, V> vstd::std_specs::core::IndexSpecImpl<usize> for DequeMap<K, V> {
    open spec fn index_req(&self, index: &usize) -> bool {
        *index < self@.len()
    }
}

impl<'a, K: PartialEq, V> core::ops::Index<&'a K> for DequeMap<K, V> {
    type Output = V;

    /// The value of the entry with key `key`.
    fn index(&self, key: &'a K) -> (v: &V)
        ensures
            *v == self@[key_index(self@, *key)].1,
    {
        proof {
            lemma_key_index(self@, *key);
        }
        let i = self.get_index(key).unwrap();
        &self.entries[i].1
    }
}

impl<'a, K: PartialEq, V> vstd::std_specs::core::IndexSpecImpl<&'a K> for DequeMap<K, V> {
    open spec fn index_req(&self, key: &&'a K) -> bool {
        lawful_eq::<K>() && has_key(self@, **key)
    }
}

impl<K, V> Default for DequeMap<K, V> {
    fn default() -> (m: Self)
        ensures
            m.wf(),
            m@ == Seq::<(K, V)>::empty(),
    {
        DequeMap::new()
    }
}


/// The slot of a key that a `DequeMap` does not hold.
pub struct VacantEntry<'a, K, V> {
    /// The map the slot belongs to.
    pub map: &'a mut DequeMap<K, V>,
    /// The key.
    pub key: K,
}

/// The slot of a key that a `DequeMap` holds.
pub struct OccupiedEntry<'a, K, V> {
    /// The map the slot belongs to.
    pub map: &'a mut DequeMap<K, V>,
    /// The position of the entry in the map.
    pub index: usize,
}

/// The slot of a key in a `DequeMap`, as `DequeMap::entry` finds it.
pub enum Entry<'a, K, V> {
    /// The key is not there.
    Vacant(VacantEntry<'a, K, V>),
    /// The key is there.
    Occupied(OccupiedEntry<'a, K, V>),
}

impl<'a, K, V> Entry<'a, K, V> {
    /// The map is well-formed, a vacant key is absent and an occupied
    /// position is in range.
    pub open spec fn wf(self) -> bool {
        match self {
            Entry::Vacant(v) => v.map.wf() && !has_key(v.map@, v.key),
            Entry::Occupied(o) => o.map.wf() && o.index < o.map@.len(),
        }
    }

    /// The reference to the map.
    pub open spec fn map_ref(self) -> &'a mut DequeMap<K, V> {
        match self {
            Entry::Vacant(v) => v.map,
            Entry::Occupied(o) => o.map,
        }
    }

    /// The entries of the map now.
    pub open spec fn map_now(self) -> Seq<(K, V)> {
        self.map_ref()@
    }

    /// The key of the slot.
    pub open spec fn spec_key(self) -> K {
        match self {
            Entry::Vacant(v) => v.key,
            Entry::Occupied(o) => o.map@[o.index as int].0,
        }
    }

    /// The value in the slot, if any.
    pub open spec fn current(self) -> Option<V> {
        match self {
            Entry::Vacant(v) => None,
            Entry::Occupied(o) => Some(o.map@[o.index as int].1),
        }
    }

    /// The entries of the map once the slot holds `x`: a vacant key goes to
    /// the back, an occupied entry keeps its place and key.
    pub open spec fn with_value(self, x: V) -> Seq<(K, V)> {
        match self {
            Entry::Vacant(v) => v.map@.push((v.key, x)),
            Entry::Occupied(o) => o.map@.update(o.index as int, (o.map@[o.index as int].0, x)),
        }
    }

    /// The value in the slot, after putting `default` there if it was empty.
    pub fn or_insert(self, default: V) -> (r: &'a mut V)
        requires
            self.wf(),
        ensures
            *r == (match self.current() {
                Some(v) => v,
                None => default,
            }),
            final(self.map_ref())@ == self.with_value(*final(r)),
            final(self.map_ref()).wf(),
    {
        match self {
            Entry::Occupied(entry) => entry.into_mut(),
            Entry::Vacant(entry) => entry.insert(default),
        }
    }

    /// The value in the slot, after putting what `default` makes there if
    /// it was empty.
    pub fn or_insert_with<F: FnOnce() -> V>(self, default: F) -> (r: &'a mut V)
        requires
            self.wf(),
            default.requires(()),
        ensures
            match self.current() {
                Some(v) => *r == v,
                None => default.ensures((), *r),
            },
            final(self.map_ref())@ == self.with_value(*final(r)),
            final(self.map_ref()).wf(),
    {
        match self {
            Entry::Occupied(entry) => entry.into_mut(),
            Entry::Vacant(entry) => entry.insert(default()),
        }
    }

    /// The value in the slot, after putting there what `default` makes of
    /// the key if it was empty.
    pub fn or_insert_with_key<F: FnOnce(&K) -> V>(self, default: F) -> (r: &'a mut V)
        requires
            self.wf(),
            forall|k: &K| default.requires((k,)),
        ensures
            match self.current() {
                Some(v) => *r == v,
                None => default.ensures((&self.spec_key(),), *r),
            },
            final(self.map_ref())@ == self.with_value(*final(r)),
            final(self.map_ref()).wf(),
    {
        match self {
            Entry::Occupied(entry) => entry.into_mut(),
            Entry::Vacant(entry) => {
                let value = default(entry.key());
                entry.insert(value)
            },
        }
    }

    /// The key of the slot.
    pub fn key(&self) -> (k: &K)
        requires
            self.wf(),
        ensures
            *k == self.spec_key(),
    {
        match self {
            Entry::Occupied(entry) => entry.key(),
            Entry::Vacant(entry) => entry.key(),
        }
    }

    /// Lets `f` change the value in the slot, when there is one.
    pub fn and_modify<F: FnOnce(&mut V)>(self, f: F) -> (e: Self)
        requires
            self.wf(),
            forall|v: &mut V| f.requires((v,)),
        ensures
            e.wf(),
            e.spec_key() == self.spec_key(),
            e is Occupied <==> self is Occupied,
            *final(e.map_ref()) == *final(self.map_ref()),
            match self.current() {
                None => e.map_now() == self.map_now(),
                Some(v) => exists|m: &mut V|
                    *m == v && #[trigger] f.ensures((m,), ()) && e.map_now() == self.with_value(*final(m)),
            },
    {
        match self {
            Entry::Occupied(mut entry) => {
                f(entry.get_mut());
                Entry::Occupied(entry)
            },
            Entry::Vacant(entry) => Entry::Vacant(entry),
        }
    }
}

impl<'a, K, V: Default> Entry<'a, K, V> {
    /// The value in the slot, after putting `V::default()` there if it was
    /// empty.
    pub fn or_default(self) -> (r: &'a mut V)
        requires
            self.wf(),
        ensures
            self.current() matches Some(v) ==> *r == v,
            self.current() is None ==> call_ensures(V::default, (), *r),
            final(self.map_ref())@ == self.with_value(*final(r)),
            final(self.map_ref()).wf(),
    {
        match self {
            Entry::Occupied(entry) => entry.into_mut(),
            Entry::Vacant(entry) => entry.insert(V::default()),
        }
    }
}

impl<'a, K, V> VacantEntry<'a, K, V> {
    /// The key that an insert would use.
    pub fn key(&self) -> (k: &K)
        ensures
            *k == self.key,
    {
        &self.key
    }

    /// The key, leaving the map as it is.
    pub fn into_key(self) -> (k: K)
        ensures
            k == self.key,
            *final(self.map) == *old(self.map),
    {
        self.key
    }

    /// Puts the entry at the back of the map and hands out its value.
    pub fn insert(self, value: V) -> (r: &'a mut V)
        requires
            self.map.wf(),
            !has_key(self.map@, self.key),
        ensures
            *r == value,
            final(self.map)@ == old(self.map)@.push((self.key, *final(r))),
            final(self.map).wf(),
    {
        self.map.push_last(self.key, value)
    }
}

impl<'a, K, V> OccupiedEntry<'a, K, V> {
    /// The key of the entry.
    pub fn key(&self) -> (k: &K)
        requires
            self.index < self.map@.len(),
        ensures
            *k == old(self.map)@[self.index as int].0,
    {
        &self.map.entry_at(self.index).0
    }

    /// The value of the entry.
    pub fn get(&self) -> (v: &V)
        requires
            self.index < self.map@.len(),
        ensures
            *v == old(self.map)@[self.index as int].1,
    {
        &self.map.entry_at(self.index).1
    }

    /// The value of the entry, to change in place while the entry lives.
    pub fn get_mut(&mut self) -> (r: &mut V)
        requires
            old(self).map.wf(),
            old(self).index < old(self).map@.len(),
        ensures
            *r == old(self).map@[old(self).index as int].1,
            final(self).index == old(self).index,
            final(self).map@ == old(self).map@.update(
                old(self).index as int,
                (old(self).map@[old(self).index as int].0, *final(r)),
            ),
            final(self).map.wf(),
            *final(final(self).map) == *final(old(self).map),
    {
        self.map.value_at_mut(self.index)
    }

    /// The value of the entry, to change in place.
    pub fn into_mut(self) -> (r: &'a mut V)
        requires
            self.map.wf(),
            self.index < self.map@.len(),
        ensures
            *r == old(self.map)@[self.index as int].1,
            final(self.map)@ == old(self.map)@.update(
                self.index as int,
                (old(self.map)@[self.index as int].0, *final(r)),
            ),
            final(self.map).wf(),
    {
        self.map.value_at_mut(self.index)
    }

    /// Replaces the value of the entry and returns the old one.
    pub fn insert(&mut self, value: V) -> (r: V)
        requires
            old(self).map.wf(),
            old(self).index < old(self).map@.len(),
        ensures
            r == old(self).map@[old(self).index as int].1,
            final(self).index == old(self).index,
            final(self).map@ == old(self).map@.update(
                old(self).index as int,
                (old(self).map@[old(self).index as int].0, value),
            ),
            final(self).map.wf(),
            *final(final(self).map) == *final(old(self).map),
    {
        let v = self.map.value_at_mut(self.index);
        let mut value = value;
        std::mem::swap(v, &mut value);
        value
    }
}

impl<K: PartialEq, V> DequeMap<K, V> {
    /// The slot of `key`: occupied at the entry's position when the key is
    /// there, vacant otherwise. The map ends up as the slot leaves it.
    pub fn entry(&mut self, key: K) -> (e: Entry<'_, K, V>)
        requires
            old(self).wf(),
            lawful_eq::<K>(),
        ensures
            e.wf(),
            e.map_now() == old(self)@,
            e.spec_key() == key,
            *final(e.map_ref()) == *final(self),
            e is Occupied <==> has_key(old(self)@, key),
            e matches Entry::Occupied(o) ==> o.index == key_index(old(self)@, key),
    {
        match self.position(&key) {
            Some(i) => Entry::Occupied(OccupiedEntry { map: self, index: i }),
            None => Entry::Vacant(VacantEntry { map: self, key }),
        }
    }
}

} // verus!
