//! A max-heap of ordered items.
use vstd::prelude::*;
use vstd::multiset::Multiset;
use crate::order::{ord_le, lawful_order, lemma_ord_laws};
use crate::heap::{KeyHeap, keys, deref_seq, lemma_map_multiset, sorted_asc, sorted_desc, all_le};

verus! {

broadcast use vstd::seq_lib::group_to_multiset_ensures;

/// Items ascend along `s`.
pub open spec fn items_ascending<T: PartialOrd>(s: Seq<T>) -> bool {
    forall|a: int, b: int| 0 <= a < b < s.len() ==> ord_le(#[trigger] s[a], #[trigger] s[b])
}

/// Items descend along `s`.
pub open spec fn items_descending<T: PartialOrd>(s: Seq<T>) -> bool {
    forall|a: int, b: int| 0 <= a < b < s.len() ==> ord_le(#[trigger] s[b], #[trigger] s[a])
}

/// The items that a vector of references points to.
pub open spec fn derefs<T>(s: Seq<&T>) -> Seq<T> {
    s.map_values(|e: &T| *e)
}

/// A priority queue that hands out its greatest item first.
pub struct BinaryHeap<T: Ord> {
    heap: KeyHeap<T, ()>,
}

impl<T: Ord> View for BinaryHeap<T> {
    type V = Multiset<T>;

    closed spec fn view(&self) -> Multiset<T> {
        keys(self.heap.entries()).to_multiset()
    }
}

/// The first components of a vector of pairs, in order.
fn first_components<T, V>(v: Vec<(T, V)>) -> (r: Vec<T>)
    ensures
        r@ == keys(v@),
{
    let mut v = v;
    let ghost orig = v@;
    let mut rev: Vec<T> = Vec::new();
    while v.len() > 0
        invariant
            v@.len() + rev@.len() == orig.len(),
            v@ == orig.subrange(0, v@.len() as int),
            forall|i: int| 0 <= i < rev@.len() ==> #[trigger] rev@[i] == orig[orig.len() - 1 - i].0,
        decreases v@.len(),
    {
        let e = v.pop().unwrap();
        rev.push(e.0);
    }
    let mut out: Vec<T> = Vec::new();
    while rev.len() > 0
        invariant
            rev@.len() + out@.len() == orig.len(),
            forall|i: int| 0 <= i < rev@.len() ==> #[trigger] rev@[i] == orig[orig.len() - 1 - i].0,
            forall|i: int| 0 <= i < out@.len() ==> #[trigger] out@[i] == orig[i].0,
        decreases rev@.len(),
    {
        let x = rev.pop().unwrap();
        out.push(x);
    }
    proof {
        assert(out@ =~= keys(orig));
    }
    out
}

/// References to the first components of referenced pairs, in order.
fn first_refs<'a, T, V>(v: &Vec<&'a (T, V)>) -> (r: Vec<&'a T>)
    ensures
        derefs(r@) == keys(deref_seq(v@)),
{
    let mut out: Vec<&'a T> = Vec::new();
    let n = v.len();
    for i in 0..n
        invariant
            n == v@.len(),
            out@.len() == i,
            forall|j: int| 0 <= j < i ==> *#[trigger] out@[j] == v@[j].0,
    {
        let e: &'a (T, V) = v[i];
        out.push(&e.0);
    }
    proof {
        assert(derefs(out@) =~= keys(deref_seq(v@)));
    }
    out
}

impl<T: Ord> BinaryHeap<T> {
    /// The item at the root: the one `peek` shows and `pop` removes.
    pub closed spec fn top(&self) -> T {
        self.heap.root().0
    }

    /// An empty heap.
    pub fn new() -> (h: Self)
        ensures
            h@ == Multiset::<T>::empty(),
    {
        let heap = KeyHeap::new();
        proof {
            assert(keys(heap.entries()) =~= Seq::<T>::empty());
        }
        BinaryHeap { heap }
    }

    /// A heap holding the items of `data`.
    pub fn from_vec(data: Vec<T>) -> (h: Self)
        requires
            lawful_order::<T>(),
        ensures
            h@ == data@.to_multiset(),
    {
        let mut entries: Vec<(T, ())> = Vec::new();
        let mut data = data;
        let ghost orig = data@;
        while data.len() > 0
            invariant
                data@.len() + entries@.len() == orig.len(),
                data@ == orig.subrange(0, data@.len() as int),
                forall|i: int| 0 <= i < entries@.len() ==> #[trigger] entries@[i].0 == orig[orig.len() - 1 - i],
            decreases data@.len(),
        {
            let x = data.pop().unwrap();
            entries.push((x, ()));
        }
        proof {
            assert(keys(entries@) =~= orig.reverse());
            orig.lemma_reverse_to_multiset();
        }
        let ghost before = entries@;
        let heap = KeyHeap::from_vec(entries);
        proof {
            lemma_map_multiset(heap.entries(), before, |e: (T, ())| e.0);
        }
        BinaryHeap { heap }
    }

    /// Number of items.
    pub fn len(&self) -> (n: usize)
        ensures
            n == self@.len(),
    {
        self.heap.len()
    }

    /// Whether the heap holds no item.
    pub fn is_empty(&self) -> (b: bool)
        ensures
            b == (self@.len() == 0),
    {
        self.heap.is_empty()
    }

    /// Drops every item.
    pub fn clear(&mut self)
        ensures
            final(self)@ == Multiset::<T>::empty(),
    {
        self.heap.clear();
        proof {
            assert(keys(self.heap.entries()) =~= Seq::<T>::empty());
        }
    }

    /// Adds an item.
    pub fn push(&mut self, item: T)
        requires
            lawful_order::<T>(),
        ensures
            final(self)@ == old(self)@.insert(item),
    {
        let ghost before = self.heap.entries();
        self.heap.push(item, ());
        proof {
            let after = self.heap.entries();
            let pushed = before.push((item, ()));
            assert(pushed.to_multiset() == before.to_multiset().insert((item, ())));
            lemma_map_multiset(after, pushed, |e: (T, ())| e.0);
            assert(keys(pushed) =~= keys(before).push(item));
        }
    }

    /// Removes and returns a greatest item; `None` when the heap is empty.
    pub fn pop(&mut self) -> (r: Option<T>)
        requires
            lawful_order::<T>(),
        ensures
            old(self)@.len() == 0 <==> r is None,
            r is None ==> final(self)@ == old(self)@,
            r matches Some(x) ==> {
                &&& x == old(self).top()
                &&& old(self)@.count(x) > 0
                &&& final(self)@ == old(self)@.remove(x)
                &&& forall|y: T| #[trigger] old(self)@.count(y) > 0 ==> ord_le(y, x)
            },
    {
        let ghost before = self.heap.entries();
        let r = self.heap.pop();
        match r {
            Some(e) => {
                proof {
                    let after = self.heap.entries();
                    assert(before.to_multiset().count(e) > 0);
                    assert(before.contains(e));
                    let j = choose|j: int| 0 <= j < before.len() && before[j] == e;
                    let rest = before.remove(j);
                    assert(rest.to_multiset() == before.to_multiset().remove(e));
                    lemma_map_multiset(after, rest, |e: (T, ())| e.0);
                    assert(keys(rest) =~= keys(before).remove(j));
                    assert(keys(before)[j] == e.0);
                    assert forall|y: T| #[trigger] keys(before).to_multiset().count(y) > 0 implies ord_le(y, e.0) by {
                        assert(keys(before).contains(y));
                        let k = choose|k: int| 0 <= k < keys(before).len() && keys(before)[k] == y;
                        assert(ord_le(before[k].0, e.0));
                    }
                    assert(keys(before).contains(e.0));
                }
                Some(e.0)
            },
            None => {
                proof {
                    assert(before.len() == 0);
                }
                None
            },
        }
    }

    /// A greatest item, without removing it; `None` when the heap is empty.
    pub fn peek(&self) -> (r: Option<&T>)
        requires
            lawful_order::<T>(),
        ensures
            self@.len() == 0 <==> r is None,
            r matches Some(x) ==> {
                &&& *x == self.top()
                &&& self@.count(*x) > 0
                &&& forall|y: T| #[trigger] self@.count(y) > 0 ==> ord_le(y, *x)
            },
    {
        let r = self.heap.peek();
        match r {
            Some(e) => {
                proof {
                    let s = self.heap.entries();
                    assert(s.contains(*e));
                    let j = choose|j: int| 0 <= j < s.len() && s[j] == *e;
                    assert(keys(s)[j] == e.0);
                    assert(keys(s).contains(e.0));
                    assert forall|y: T| #[trigger] keys(s).to_multiset().count(y) > 0 implies ord_le(y, e.0) by {
                        assert(keys(s).contains(y));
                        let k = choose|k: int| 0 <= k < keys(s).len() && keys(s)[k] == y;
                        assert(ord_le(s[k].0, e.0));
                    }
                }
                Some(&e.0)
            },
            None => None,
        }
    }

    /// References to every item, greatest first.
    pub fn iter_sorted(&self) -> (v: Vec<&T>)
        requires
            lawful_order::<T>(),
        ensures
            derefs(v@).to_multiset() == self@,
            items_descending(derefs(v@)),
    {
        let refs = self.heap.sorted_refs();
        let out = first_refs(&refs);
        proof {
            lemma_map_multiset(deref_seq(refs@), self.heap.entries(), |e: (T, ())| e.0);
            let d = derefs(out@);
            assert forall|a: int, b: int| 0 <= a < b < d.len() implies ord_le(#[trigger] d[b], #[trigger] d[a]) by {
                assert(d[a] == deref_seq(refs@)[a].0);
                assert(d[b] == deref_seq(refs@)[b].0);
            }
        }
        out
    }

    /// References to every item, in no particular order.
    pub fn iter(&self) -> (v: Vec<&T>)
        ensures
            derefs(v@).to_multiset() == self@,
    {
        let refs = self.heap.refs();
        first_refs(&refs)
    }

    /// Removes every item and returns them, greatest first.
    pub fn drain_sorted(&mut self) -> (v: Vec<T>)
        requires
            lawful_order::<T>(),
        ensures
            v@.to_multiset() == old(self)@,
            items_descending(v@),
            final(self)@ == Multiset::<T>::empty(),
    {
        let ghost before = self.heap.entries();
        let entries = self.heap.drain_sorted();
        let ghost es = entries@;
        let out = first_components(entries);
        proof {
            lemma_map_multiset(es, before, |e: (T, ())| e.0);
            assert(keys(self.heap.entries()) =~= Seq::<T>::empty());
            assert forall|a: int, b: int| 0 <= a < b < out@.len() implies ord_le(#[trigger] out@[b], #[trigger] out@[a]) by {
                assert(out@[a] == es[a].0);
                assert(out@[b] == es[b].0);
            }
        }
        out
    }

    /// The items in ascending order.
    pub fn into_sorted_vec(self) -> (v: Vec<T>)
        requires
            lawful_order::<T>(),
        ensures
            v@.to_multiset() == self@,
            items_ascending(v@),
    {
        let ghost before = self.heap.entries();
        let entries = self.heap.into_sorted_vec();
        let ghost es = entries@;
        let out = first_components(entries);
        proof {
            lemma_map_multiset(es, before, |e: (T, ())| e.0);
            assert forall|a: int, b: int| 0 <= a < b < out@.len() implies ord_le(#[trigger] out@[a], #[trigger] out@[b]) by {
                assert(out@[a] == es[a].0);
                assert(out@[b] == es[b].0);
            }
        }
        out
    }
}

impl<T: Ord> Default for BinaryHeap<T> {
    fn default() -> (h: Self)
        ensures
            h@ == Multiset::<T>::empty(),
    {
        BinaryHeap::new()
    }
}

/// Popping twice from a heap gives a value no greater than the first: the
/// values come out in descending order.
pub proof fn lemma_pops_descend<T: Ord>(m: Multiset<T>, x: T, y: T)
    requires
        m.count(x) > 0,
        forall|z: T| #[trigger] m.count(z) > 0 ==> ord_le(z, x),
        m.remove(x).count(y) > 0,
    ensures
        ord_le(y, x),
{
    assert(m.count(y) > 0);
}

} // verus!
