//! A max-priority queue of values keyed by priority.
use vstd::prelude::*;
use vstd::multiset::Multiset;
use crate::order::{ord_le, lawful_order};
use crate::heap::{KeyHeap, deref_seq, sorted_asc, sorted_desc, all_le};

verus! {

broadcast use vstd::seq_lib::group_to_multiset_ensures;

/// The entries that a vector of reference pairs points to.
pub open spec fn pair_derefs<P, V>(s: Seq<(&P, &V)>) -> Seq<(P, V)> {
    s.map_values(|e: (&P, &V)| (*e.0, *e.1))
}

/// A queue of `(priority, value)` entries that hands out an entry of
/// greatest priority first; values play no part in the order.
pub struct PriorityQueue<P: Ord, V> {
    inner: KeyHeap<P, V>,
}

impl<P: Ord, V> View for PriorityQueue<P, V> {
    type V = Multiset<(P, V)>;

    closed spec fn view(&self) -> Multiset<(P, V)> {
        self.inner.entries().to_multiset()
    }
}

/// Pairs of references into referenced pairs, in order.
fn split_refs<'a, P, V>(v: &Vec<&'a (P, V)>) -> (r: Vec<(&'a P, &'a V)>)
    ensures
        pair_derefs(r@) == deref_seq(v@),
{
    let mut out: Vec<(&'a P, &'a V)> = Vec::new();
    let n = v.len();
    for i in 0..n
        invariant
            n == v@.len(),
            out@.len() == i,
            forall|j: int| 0 <= j < i ==> (*(#[trigger] out@[j]).0, *out@[j].1) == *v@[j],
    {
        let e: &'a (P, V) = v[i];
        out.push((&e.0, &e.1));
    }
    proof {
        assert(pair_derefs(out@) =~= deref_seq(v@));
    }
    out
}

impl<P: Ord, V> PriorityQueue<P, V> {
    /// The entry at the root: the one `peek` shows and `pop` removes.
    pub closed spec fn top(&self) -> (P, V) {
        self.inner.root()
    }

    /// An empty queue.
    pub fn new() -> (q: Self)
        ensures
            q@ == Multiset::<(P, V)>::empty(),
    {
        PriorityQueue { inner: KeyHeap::new() }
    }

    /// A queue holding the given entries.
    pub fn from_vec(data: Vec<(P, V)>) -> (q: Self)
        requires
            lawful_order::<P>(),
        ensures
            q@ == data@.to_multiset(),
    {
        PriorityQueue { inner: KeyHeap::from_vec(data) }
    }

    /// Number of entries.
    pub fn len(&self) -> (n: usize)
        ensures
            n == self@.len(),
    {
        self.inner.len()
    }

    /// Whether the queue holds no entry.
    pub fn is_empty(&self) -> (b: bool)
        ensures
            b == (self@.len() == 0),
    {
        self.inner.is_empty()
    }

    /// Drops every entry.
    pub fn clear(&mut self)
        ensures
            final(self)@ == Multiset::<(P, V)>::empty(),
    {
        self.inner.clear();
    }

    /// Adds `value` with priority `key`.
    pub fn push(&mut self, key: P, value: V)
        requires
            lawful_order::<P>(),
        ensures
            final(self)@ == old(self)@.insert((key, value)),
    {
        self.inner.push(key, value);
    }

    /// Removes and returns an entry of greatest priority; `None` when empty.
    pub fn pop(&mut self) -> (r: Option<(P, V)>)
        requires
            lawful_order::<P>(),
        ensures
            old(self)@.len() == 0 <==> r is None,
            r is None ==> final(self)@ == old(self)@,
            r matches Some(e) ==> {
                &&& e == old(self).top()
                &&& old(self)@.count(e) > 0
                &&& final(self)@ == old(self)@.remove(e)
                &&& forall|x: (P, V)| #[trigger] old(self)@.count(x) > 0 ==> ord_le(x.0, e.0)
            },
    {
        let ghost before = self.inner.entries();
        let r = self.inner.pop();
        proof {
            if r is Some {
                let e = r->0;
                assert forall|x: (P, V)| #[trigger] before.to_multiset().count(x) > 0 implies ord_le(x.0, e.0) by {
                    assert(before.contains(x));
                    let k = choose|k: int| 0 <= k < before.len() && before[k] == x;
                    assert(ord_le(before[k].0, e.0));
                }
            }
        }
        r
    }

    /// An entry of greatest priority, without removing it; `None` when empty.
    pub fn peek(&self) -> (r: Option<(&P, &V)>)
        requires
            lawful_order::<P>(),
        ensures
            self@.len() == 0 <==> r is None,
            r matches Some(e) ==> {
                &&& (*e.0, *e.1) == self.top()
                &&& self@.count((*e.0, *e.1)) > 0
                &&& forall|x: (P, V)| #[trigger] self@.count(x) > 0 ==> ord_le(x.0, *e.0)
            },
    {
        let r = self.inner.peek();
        match r {
            Some(e) => {
                proof {
                    let s = self.inner.entries();
                    assert forall|x: (P, V)| #[trigger] s.to_multiset().count(x) > 0 implies ord_le(x.0, e.0) by {
                        assert(s.contains(x));
                        let k = choose|k: int| 0 <= k < s.len() && s[k] == x;
                        assert(ord_le(s[k].0, e.0));
                    }
                }
                Some((&e.0, &e.1))
            },
            None => None,
        }
    }

    /// References to every entry, greatest priority first.
    pub fn iter_sorted(&self) -> (v: Vec<(&P, &V)>)
        requires
            lawful_order::<P>(),
        ensures
            pair_derefs(v@).to_multiset() == self@,
            sorted_desc(pair_derefs(v@)),
    {
        let refs = self.inner.sorted_refs();
        split_refs(&refs)
    }

    /// Removes every entry and returns them, greatest priority first.
    pub fn drain_sorted(&mut self) -> (v: Vec<(P, V)>)
        requires
            lawful_order::<P>(),
        ensures
            v@.to_multiset() == old(self)@,
            sorted_desc(v@),
            final(self)@ == Multiset::<(P, V)>::empty(),
    {
        let v = self.inner.drain_sorted();
        proof {
            assert(self.inner.entries().to_multiset() =~= Multiset::<(P, V)>::empty());
        }
        v
    }

    /// The entries in ascending order of priority.
    pub fn into_sorted_vec(self) -> (v: Vec<(P, V)>)
        requires
            lawful_order::<P>(),
        ensures
            v@.to_multiset() == self@,
            sorted_asc(v@),
    {
        self.inner.into_sorted_vec()
    }

    /// References to every entry, in no particular order.
    pub fn iter(&self) -> (v: Vec<(&P, &V)>)
        ensures
            pair_derefs(v@).to_multiset() == self@,
    {
        let refs = self.inner.refs();
        split_refs(&refs)
    }
}

impl<P: Ord, V> Default for PriorityQueue<P, V> {
    fn default() -> (q: Self)
        ensures
            q@ == Multiset::<(P, V)>::empty(),
    {
        PriorityQueue::new()
    }
}

/// Popping twice from a queue gives an entry of priority no greater than
/// the first: entries come out in descending order of priority.
pub proof fn lemma_pops_descend<P: Ord, V>(m: Multiset<(P, V)>, x: (P, V), y: (P, V))
    requires
        m.count(x) > 0,
        forall|z: (P, V)| #[trigger] m.count(z) > 0 ==> ord_le(z.0, x.0),
        m.remove(x).count(y) > 0,
    ensures
        ord_le(y.0, x.0),
{
    assert(m.count(y) > 0);
}

} // verus!
