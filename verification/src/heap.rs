//! A binary max-heap of `(key, value)` entries ordered by key, with the
//! sifting rules of the standard library's heap, and stable sorts over it.
use vstd::prelude::*;
use crate::order::{ord_le, lawful_order, lemma_ord_laws};

verus! {

broadcast use vstd::seq_lib::group_to_multiset_ensures;

/// Index of the parent of node `i` in an array-backed binary tree.
pub open spec fn parent(i: int) -> int {
    (i - 1) / 2
}

/// `s` with the entries at `i` and `j` exchanged.
pub open spec fn swapped<A>(s: Seq<A>, i: int, j: int) -> Seq<A> {
    s.update(i, s[j]).update(j, s[i])
}

/// The keys of `s[..end]` form a max-heap.
pub open spec fn heap_ordered<K: PartialOrd, V>(s: Seq<(K, V)>, end: int) -> bool {
    forall|i: int| 0 < i < end ==> ord_le(#[trigger] s[i].0, s[parent(i)].0)
}

/// Keys ascend along `s`.
pub open spec fn sorted_asc<K: PartialOrd, V>(s: Seq<(K, V)>) -> bool {
    forall|a: int, b: int| 0 <= a < b < s.len() ==> ord_le(#[trigger] s[a].0, #[trigger] s[b].0)
}

/// Keys descend along `s`.
pub open spec fn sorted_desc<K: PartialOrd, V>(s: Seq<(K, V)>) -> bool {
    forall|a: int, b: int| 0 <= a < b < s.len() ==> ord_le(#[trigger] s[b].0, #[trigger] s[a].0)
}

/// Every key of `s` is at most `k`.
pub open spec fn all_le<K: PartialOrd, V>(s: Seq<(K, V)>, k: K) -> bool {
    forall|i: int| 0 <= i < s.len() ==> ord_le(#[trigger] s[i].0, k)
}

/// Heap order on `s[..end]` except for the edge from `pos` to its parent; the
/// children of `pos` are bounded by the parent of `pos`.
spec fn sift_up_inv<K: PartialOrd, V>(s: Seq<(K, V)>, pos: int, end: int) -> bool {
    &&& forall|i: int| 0 < i < end && i != pos ==> ord_le(#[trigger] s[i].0, s[parent(i)].0)
    &&& pos > 0 ==> forall|i: int|
        0 < i < end && parent(i) == pos ==> ord_le(#[trigger] s[i].0, s[parent(pos)].0)
}

/// Heap order on `s[..end]` except for the edges touching `pos`.
spec fn sink_inv<K: PartialOrd, V>(s: Seq<(K, V)>, pos: int, end: int) -> bool {
    &&& forall|i: int|
        0 < i < end && i != pos && parent(i) != pos ==> ord_le(#[trigger] s[i].0, s[parent(i)].0)
    &&& pos > 0 ==> forall|i: int|
        0 < i < end && parent(i) == pos ==> ord_le(#[trigger] s[i].0, s[parent(pos)].0)
}

/// Heap order on the edges below `r` in `s[..end]`, except for the edges from
/// the children of `pos`, which are bounded by the parent of `pos`.
spec fn down_inv<K: PartialOrd, V>(s: Seq<(K, V)>, r: int, pos: int, end: int) -> bool {
    &&& forall|i: int|
        0 < i < end && parent(i) >= r && parent(i) != pos ==> ord_le(#[trigger] s[i].0, s[parent(i)].0)
    &&& pos > r ==> forall|i: int|
        0 < i < end && parent(i) == pos ==> ord_le(#[trigger] s[i].0, s[parent(pos)].0)
    &&& pos > r ==> parent(pos) >= r
}

/// Exchanging two entries keeps the multiset of entries.
pub proof fn lemma_swap_multiset<A>(s: Seq<A>, i: int, j: int)
    requires
        0 <= i < s.len(),
        0 <= j < s.len(),
    ensures
        swapped(s, i, j).to_multiset() == s.to_multiset(),
        swapped(s, i, j).len() == s.len(),
{
    broadcast use vstd::seq_lib::to_multiset_update;
    broadcast use vstd::multiset::group_multiset_axioms;
    let u = s.update(i, s[j]);
    assert(u.to_multiset() == s.to_multiset().insert(s[j]).remove(s[i]));
    assert(u.update(j, s[i]).to_multiset() == u.to_multiset().insert(s[i]).remove(u[j]));
    if i == j {
        assert(swapped(s, i, j) =~= s);
    } else {
        assert(u[j] == s[j]);
        assert(s.to_multiset().insert(s[j]).remove(s[i]).insert(s[i]).remove(s[j])
            =~= s.to_multiset());
    }
}

/// Exchanging two entries inside `s[..end]` keeps the multiset of `s[..end]`.
pub proof fn lemma_swap_prefix_multiset<A>(s: Seq<A>, i: int, j: int, end: int)
    requires
        0 <= i < end,
        0 <= j < end,
        end <= s.len(),
    ensures
        swapped(s, i, j).subrange(0, end).to_multiset() == s.subrange(0, end).to_multiset(),
{
    assert(swapped(s, i, j).subrange(0, end) =~= swapped(s.subrange(0, end), i, j));
    lemma_swap_multiset(s.subrange(0, end), i, j);
}

/// A bound on every entry carries over to any rearrangement of the entries.
pub proof fn lemma_all_le_permuted<K: PartialOrd, V>(s: Seq<(K, V)>, t: Seq<(K, V)>, k: K)
    requires
        all_le(s, k),
        s.to_multiset() == t.to_multiset(),
    ensures
        all_le(t, k),
{
    assert forall|i: int| 0 <= i < t.len() implies ord_le(#[trigger] t[i].0, k) by {
        assert(t.contains(t[i]));
        assert(t.to_multiset().count(t[i]) > 0);
        assert(s.contains(t[i]));
        let j = choose|j: int| 0 <= j < s.len() && s[j] == t[i];
        assert(ord_le(s[j].0, k));
    }
}

/// The keys of a sequence of entries.
pub open spec fn keys<K, V>(s: Seq<(K, V)>) -> Seq<K> {
    s.map_values(|e: (K, V)| e.0)
}

/// Rearranging a sequence rearranges its image under `f` alike.
pub proof fn lemma_map_multiset<A, B>(s: Seq<A>, t: Seq<A>, f: spec_fn(A) -> B)
    requires
        s.to_multiset() == t.to_multiset(),
    ensures
        s.map_values(f).to_multiset() == t.map_values(f).to_multiset(),
    decreases s.len(),
{
    broadcast use vstd::multiset::group_multiset_axioms;
    if s.len() == 0 {
        assert(s.to_multiset().len() == 0);
        assert(t.to_multiset().len() == t.len());
        assert(t.len() == 0);
        assert(s.map_values(f) =~= Seq::<B>::empty());
        assert(t.map_values(f) =~= Seq::<B>::empty());
    } else {
        let x = s.last();
        let s1 = s.drop_last();
        assert(s =~= s1.push(x));
        assert(s.to_multiset() == s1.to_multiset().insert(x));
        assert(s.contains(x)) by {
            assert(s[s.len() - 1] == x);
        }
        assert(t.to_multiset().count(x) > 0);
        assert(t.contains(x));
        let j = choose|j: int| 0 <= j < t.len() && t[j] == x;
        let t1 = t.remove(j);
        assert(t1.to_multiset() == t.to_multiset().remove(x));
        assert(s1.to_multiset() =~= s.to_multiset().remove(x));
        lemma_map_multiset(s1, t1, f);
        assert(s.map_values(f) =~= s1.map_values(f).push(f(x)));
        assert(t.map_values(f).remove(j) =~= t1.map_values(f));
        assert(t.map_values(f)[j] == f(x));
        assert(t.map_values(f).to_multiset().count(f(x)) > 0) by {
            assert(t.map_values(f).contains(f(x)));
        }
        assert(t.map_values(f).to_multiset() =~= t1.map_values(f).to_multiset().insert(f(x)));
    }
}

/// In a max-heap the root bounds every entry.
pub proof fn lemma_root_is_max<K: Ord, V>(s: Seq<(K, V)>, end: int, i: int)
    requires
        lawful_order::<K>(),
        heap_ordered(s, end),
        0 <= i < end,
        end <= s.len(),
    ensures
        ord_le(s[i].0, s[0].0),
    decreases i,
{
    lemma_ord_laws::<K>();
    if i > 0 {
        lemma_root_is_max(s, end, parent(i));
        assert(ord_le(s[i].0, s[parent(i)].0));
    }
}

/// Exchanges two entries of a vector.
///
/// Calls the standard slice method `swap`, which is documented to exchange the
/// two elements (and to leave the slice unchanged when both indices agree); it
/// panics only on an index out of bounds, which `requires` rules out.
#[verifier::external_body]
fn vec_swap<T>(v: &mut Vec<T>, i: usize, j: usize)
    requires
        i < old(v).len(),
        j < old(v).len(),
    ensures
        final(v)@ == swapped(old(v)@, i as int, j as int),
{
    v.swap(i, j);
}

proof fn lemma_sift_up_step<K: Ord, V>(s: Seq<(K, V)>, pos: int)
    requires
        lawful_order::<K>(),
        0 < pos < s.len(),
        sift_up_inv(s, pos, s.len() as int),
        !ord_le(s[pos].0, s[parent(pos)].0),
    ensures
        sift_up_inv(swapped(s, pos, parent(pos)), parent(pos), s.len() as int),
{
    lemma_ord_laws::<K>();
    let p = parent(pos);
    let t = swapped(s, pos, p);
    let n = s.len() as int;
    assert(ord_le(s[p].0, s[pos].0));
    assert forall|i: int| 0 < i < n && i != p implies ord_le(#[trigger] t[i].0, t[parent(i)].0) by {
        if i == pos {
        } else if parent(i) == pos {
            assert(ord_le(s[i].0, s[p].0));
        } else if parent(i) == p {
            assert(ord_le(s[i].0, s[p].0));
        } else {
            assert(ord_le(s[i].0, s[parent(i)].0));
        }
    }
    if p > 0 {
        assert forall|i: int| 0 < i < n && parent(i) == p implies ord_le(
            #[trigger] t[i].0,
            t[parent(p)].0,
        ) by {
            assert(ord_le(s[p].0, s[parent(p)].0));
            if i != pos {
                assert(ord_le(s[i].0, s[p].0));
            }
        }
    }
}

/// Moves the entry at `pos` up until its parent is not smaller.
fn sift_up<K: Ord, V>(data: &mut Vec<(K, V)>, pos: usize)
    requires
        lawful_order::<K>(),
        pos < old(data).len(),
        sift_up_inv(old(data)@, pos as int, old(data)@.len() as int),
    ensures
        final(data)@.len() == old(data)@.len(),
        final(data)@.to_multiset() == old(data)@.to_multiset(),
        heap_ordered(final(data)@, final(data)@.len() as int),
{
    let ghost orig = data@;
    let mut pos = pos;
    loop
        invariant
            lawful_order::<K>(),
            pos < data.len(),
            data@.len() == orig.len(),
            data@.to_multiset() == orig.to_multiset(),
            sift_up_inv(data@, pos as int, data@.len() as int),
        ensures
            data@.len() == orig.len(),
            data@.to_multiset() == orig.to_multiset(),
            heap_ordered(data@, data@.len() as int),
        decreases pos,
    {
        proof {
            lemma_ord_laws::<K>();
        }
        if pos == 0 {
            break;
        }
        let p = (pos - 1) / 2;
        if data[pos].0 <= data[p].0 {
            break;
        }
        proof {
            lemma_sift_up_step(data@, pos as int);
            lemma_swap_multiset(data@, pos as int, p as int);
        }
        vec_swap(data, pos, p);
        pos = p;
    }
}

proof fn lemma_sink_step<K: Ord, V>(s: Seq<(K, V)>, pos: int, ch: int, end: int)
    requires
        lawful_order::<K>(),
        end <= s.len(),
        0 <= pos < end,
        0 < ch < end,
        parent(ch) == pos,
        sink_inv(s, pos, end),
        forall|i: int| 0 < i < end && parent(i) == pos ==> ord_le(#[trigger] s[i].0, s[ch].0),
    ensures
        sink_inv(swapped(s, pos, ch), ch, end),
{
    lemma_ord_laws::<K>();
    let t = swapped(s, pos, ch);
    assert forall|i: int| 0 < i < end && i != ch && parent(i) != ch implies ord_le(
        #[trigger] t[i].0,
        t[parent(i)].0,
    ) by {
        if i == pos {
        } else if parent(i) == pos {
        } else {
            assert(ord_le(s[i].0, s[parent(i)].0));
        }
    }
    assert forall|i: int| 0 < i < end && parent(i) == ch implies ord_le(
        #[trigger] t[i].0,
        t[parent(ch)].0,
    ) by {
        assert(ord_le(s[i].0, s[parent(i)].0));
    }
}

/// Moves the entry at the root down to a leaf along the larger children, then
/// up again to its place; the standard library pops with this rule.
fn sift_down_to_bottom<K: Ord, V>(data: &mut Vec<(K, V)>)
    requires
        lawful_order::<K>(),
        old(data).len() > 0,
        sink_inv(old(data)@, 0, old(data)@.len() as int),
    ensures
        final(data)@.len() == old(data)@.len(),
        final(data)@.to_multiset() == old(data)@.to_multiset(),
        heap_ordered(final(data)@, final(data)@.len() as int),
{
    let ghost orig = data@;
    let end = data.len();
    let mut pos: usize = 0;
    loop
        invariant
            lawful_order::<K>(),
            end == data.len(),
            pos < end,
            data@.len() == orig.len(),
            data@.to_multiset() == orig.to_multiset(),
            sink_inv(data@, pos as int, end as int),
        ensures
            pos < end,
            data@.len() == orig.len(),
            data@.to_multiset() == orig.to_multiset(),
            sink_inv(data@, pos as int, end as int),
            2 * pos + 2 >= end,
        decreases end - pos,
    {
        proof {
            lemma_ord_laws::<K>();
        }
        if !(pos < (end - 1) / 2) {
            break;
        }
        let c = 2 * pos + 1;
        let child = if data[c].0 <= data[c + 1].0 {
            c + 1
        } else {
            c
        };
        proof {
            assert forall|i: int| 0 < i < end && parent(i) == pos implies ord_le(
                #[trigger] data@[i].0,
                data@[child as int].0,
            ) by {
                assert(i == c || i == c + 1);
            }
            lemma_sink_step(data@, pos as int, child as int, end as int);
            lemma_swap_multiset(data@, pos as int, child as int);
        }
        vec_swap(data, pos, child);
        pos = child;
    }
    if pos < end / 2 {
        let c = 2 * pos + 1;
        proof {
            lemma_ord_laws::<K>();
            assert forall|i: int| 0 < i < end && parent(i) == pos implies ord_le(
                #[trigger] data@[i].0,
                data@[c as int].0,
            ) by {
                assert(i == c);
            }
            lemma_sink_step(data@, pos as int, c as int, end as int);
            lemma_swap_multiset(data@, pos as int, c as int);
        }
        vec_swap(data, pos, c);
        pos = c;
    }
    proof {
        assert forall|i: int| 0 < i < end implies parent(i) != pos by {}
    }
    sift_up(data, pos);
}

proof fn lemma_down_step<K: Ord, V>(s: Seq<(K, V)>, r: int, pos: int, ch: int, end: int)
    requires
        lawful_order::<K>(),
        end <= s.len(),
        0 <= r <= pos < end,
        0 < ch < end,
        parent(ch) == pos,
        down_inv(s, r, pos, end),
        forall|i: int| 0 < i < end && parent(i) == pos ==> ord_le(#[trigger] s[i].0, s[ch].0),
        !ord_le(s[ch].0, s[pos].0),
    ensures
        down_inv(swapped(s, pos, ch), r, ch, end),
{
    lemma_ord_laws::<K>();
    let t = swapped(s, pos, ch);
    assert(ord_le(s[pos].0, s[ch].0));
    assert forall|i: int| 0 < i < end && parent(i) >= r && parent(i) != ch implies ord_le(
        #[trigger] t[i].0,
        t[parent(i)].0,
    ) by {
        if i == pos {
        } else if parent(i) == pos {
        } else {
            assert(ord_le(s[i].0, s[parent(i)].0));
        }
    }
    assert forall|i: int| 0 < i < end && parent(i) == ch implies ord_le(
        #[trigger] t[i].0,
        t[parent(ch)].0,
    ) by {
        assert(ord_le(s[i].0, s[parent(i)].0));
    }
}

/// Restores heap order below `r` within `data[..end]` by moving the entry at `r`
/// down while a child is larger.
fn sift_down_range<K: Ord, V>(data: &mut Vec<(K, V)>, r: usize, end: usize)
    requires
        lawful_order::<K>(),
        r < end <= old(data).len(),
        down_inv(old(data)@, r as int, r as int, end as int),
    ensures
        final(data)@.len() == old(data)@.len(),
        final(data)@.to_multiset() == old(data)@.to_multiset(),
        final(data)@.subrange(0, end as int).to_multiset() == old(data)@.subrange(
            0,
            end as int,
        ).to_multiset(),
        forall|i: int| 0 <= i < old(data)@.len() && (i < r || i >= end) ==> final(data)@[i] == old(
            data,
        )@[i],
        forall|i: int|
            0 < i < end && parent(i) >= r ==> ord_le(#[trigger] final(data)@[i].0, final(data)@[parent(i)].0),
{
    let ghost orig = data@;
    let mut pos = r;
    let mut settled = false;
    loop
        invariant
            lawful_order::<K>(),
            r <= pos < end <= data.len(),
            data@.len() == orig.len(),
            data@.to_multiset() == orig.to_multiset(),
            data@.subrange(0, end as int).to_multiset() == orig.subrange(0, end as int).to_multiset(),
            forall|i: int| 0 <= i < orig.len() && (i < r || i >= end) ==> data@[i] == orig[i],
            down_inv(data@, r as int, pos as int, end as int),
            settled ==> forall|i: int|
                0 < i < end && parent(i) == pos ==> ord_le(#[trigger] data@[i].0, data@[pos as int].0),
        ensures
            r <= pos < end,
            data@.len() == orig.len(),
            data@.to_multiset() == orig.to_multiset(),
            data@.subrange(0, end as int).to_multiset() == orig.subrange(0, end as int).to_multiset(),
            forall|i: int| 0 <= i < orig.len() && (i < r || i >= end) ==> data@[i] == orig[i],
            down_inv(data@, r as int, pos as int, end as int),
            settled ==> forall|i: int|
                0 < i < end && parent(i) == pos ==> ord_le(#[trigger] data@[i].0, data@[pos as int].0),
            !settled ==> 2 * pos + 2 >= end,
        decreases end - pos, (if settled { 0int } else { 1int }),
    {
        proof {
            lemma_ord_laws::<K>();
        }
        if settled || !(pos < (end - 1) / 2) {
            break;
        }
        let c = 2 * pos + 1;
        let child = if data[c].0 <= data[c + 1].0 {
            c + 1
        } else {
            c
        };
        proof {
            assert forall|i: int| 0 < i < end && parent(i) == pos implies ord_le(
                #[trigger] data@[i].0,
                data@[child as int].0,
            ) by {
                assert(i == c || i == c + 1);
            }
        }
        if data[child].0 <= data[pos].0 {
            settled = true;
            proof {
                assert(ord_le(data@[child as int].0, data@[pos as int].0));
                assert forall|i: int| 0 < i < end && parent(i) == pos implies ord_le(
                    #[trigger] data@[i].0,
                    data@[pos as int].0,
                ) by {
                    assert(ord_le(data@[i].0, data@[child as int].0));
                }
            }
        } else {
            proof {
                lemma_down_step(data@, r as int, pos as int, child as int, end as int);
                lemma_swap_multiset(data@, pos as int, child as int);
                lemma_swap_prefix_multiset(data@, pos as int, child as int, end as int);
            }
            vec_swap(data, pos, child);
            pos = child;
        }
    }
    if !settled && pos < end / 2 {
        let c = 2 * pos + 1;
        proof {
            lemma_ord_laws::<K>();
            assert forall|i: int| 0 < i < end && parent(i) == pos implies i == c by {}
        }
        if !(data[c].0 <= data[pos].0) {
            proof {
                lemma_down_step(data@, r as int, pos as int, c as int, end as int);
                lemma_swap_multiset(data@, pos as int, c as int);
                lemma_swap_prefix_multiset(data@, pos as int, c as int, end as int);
            }
            vec_swap(data, pos, c);
            pos = c;
            proof {
                assert forall|i: int| 0 < i < end implies parent(i) != pos by {}
            }
        } else {
            settled = true;
        }
    } else if !settled {
        proof {
            assert forall|i: int| 0 < i < end implies parent(i) != pos by {}
        }
    }
    proof {
        lemma_ord_laws::<K>();
        let s = data@;
        assert forall|i: int| 0 < i < end && parent(i) >= r implies ord_le(
            #[trigger] s[i].0,
            s[parent(i)].0,
        ) by {
            if parent(i) == pos {
                assert(settled);
            }
        }
    }
}

/// Rearranges `data` into a max-heap.
fn heapify<K: Ord, V>(data: &mut Vec<(K, V)>)
    requires
        lawful_order::<K>(),
    ensures
        final(data)@.to_multiset() == old(data)@.to_multiset(),
        heap_ordered(final(data)@, final(data)@.len() as int),
{
    let ghost orig = data@;
    let len = data.len();
    let mut n = len / 2;
    while n > 0
        invariant
            lawful_order::<K>(),
            len == data.len(),
            n <= len / 2,
            data@.to_multiset() == orig.to_multiset(),
            forall|i: int| 0 < i < len && parent(i) >= n ==> ord_le(#[trigger] data@[i].0, data@[parent(i)].0),
        decreases n,
    {
        n = n - 1;
        sift_down_range(data, n, len);
    }
}

/// A max-heap of entries ordered by key.
pub struct KeyHeap<K: Ord, V> {
    data: Vec<(K, V)>,
}

impl<K: Ord, V> KeyHeap<K, V> {
    /// The entries, in the order of the backing array.
    pub closed spec fn entries(&self) -> Seq<(K, V)> {
        self.data@
    }

    /// The root of the heap: the entry that `peek` shows and `pop` removes.
    pub closed spec fn root(&self) -> (K, V) {
        self.data@[0]
    }

    #[verifier::type_invariant]
    spec fn inv(self) -> bool {
        heap_ordered(self.data@, self.data@.len() as int)
    }

    /// An empty heap.
    pub fn new() -> (h: Self)
        ensures
            h.entries() == Seq::<(K, V)>::empty(),
    {
        KeyHeap { data: Vec::new() }
    }

    /// A heap of the given entries.
    pub fn from_vec(v: Vec<(K, V)>) -> (h: Self)
        requires
            lawful_order::<K>(),
        ensures
            h.entries().to_multiset() == v@.to_multiset(),
    {
        let mut data = v;
        heapify(&mut data);
        KeyHeap { data }
    }

    pub fn len(&self) -> (n: usize)
        ensures
            n == self.entries().len(),
    {
        self.data.len()
    }

    pub fn is_empty(&self) -> (b: bool)
        ensures
            b == (self.entries().len() == 0),
    {
        self.data.len() == 0
    }

    /// Drops every entry.
    pub fn clear(&mut self)
        ensures
            final(self).entries() == Seq::<(K, V)>::empty(),
    {
        self.data = Vec::new();
    }

    /// Adds an entry.
    pub fn push(&mut self, key: K, value: V)
        requires
            lawful_order::<K>(),
        ensures
            final(self).entries().to_multiset() == old(self).entries().to_multiset().insert((key, value)),
    {
        proof {
            use_type_invariant(&*self);
        }
        let mut data: Vec<(K, V)> = Vec::new();
        std::mem::swap(&mut data, &mut self.data);
        let ghost before = data@;
        data.push((key, value));
        let pos = data.len() - 1;
        proof {
            lemma_ord_laws::<K>();
            assert(data@.drop_last() == before);
        }
        sift_up(&mut data, pos);
        self.data = data;
    }

    /// Removes an entry with the greatest key.
    pub fn pop(&mut self) -> (r: Option<(K, V)>)
        requires
            lawful_order::<K>(),
        ensures
            old(self).entries().len() == 0 ==> r is None && final(self).entries() == old(self).entries(),
            old(self).entries().len() > 0 ==> r is Some,
            r matches Some(e) ==> {
                &&& e == old(self).root()
                &&& old(self).entries().to_multiset().count(e) > 0
                &&& final(self).entries().to_multiset() == old(self).entries().to_multiset().remove(e)
                &&& all_le(old(self).entries(), e.0)
            },
    {
        proof {
            use_type_invariant(&*self);
        }
        let mut data: Vec<(K, V)> = Vec::new();
        std::mem::swap(&mut data, &mut self.data);
        let ghost before = data@;
        let len = data.len();
        if len == 0 {
            self.data = data;
            return None;
        }
        proof {
            lemma_ord_laws::<K>();
            assert forall|i: int| 0 <= i < before.len() implies ord_le(#[trigger] before[i].0, before[0].0) by {
                lemma_root_is_max(before, before.len() as int, i);
            }
            lemma_swap_multiset(before, 0, len - 1);
        }
        vec_swap(&mut data, 0, len - 1);
        let ghost swp = data@;
        let item = data.pop();
        let top = match item {
            Some(e) => e,
            None => {
                self.data = data;
                return None;
            },
        };
        proof {
            assert(swp == data@.push(top));
            assert(top == before[0]);
            assert(before.to_multiset() == data@.to_multiset().insert(top));
            assert(data@.to_multiset() =~= before.to_multiset().remove(top));
        }
        if data.len() > 0 {
            proof {
                let s = data@;
                assert forall|i: int| 0 < i < s.len() && i != 0 && parent(i) != 0 implies ord_le(
                    #[trigger] s[i].0,
                    s[parent(i)].0,
                ) by {
                    assert(s[i] == before[i]);
                    assert(s[parent(i)] == before[parent(i)]);
                }
            }
            sift_down_to_bottom(&mut data);
        }
        self.data = data;
        Some(top)
    }

    /// An entry with the greatest key, if any.
    pub fn peek(&self) -> (r: Option<&(K, V)>)
        requires
            lawful_order::<K>(),
        ensures
            self.entries().len() == 0 ==> r is None,
            r matches Some(e) ==> {
                &&& *e == self.root()
                &&& self.entries().to_multiset().count(*e) > 0
                &&& all_le(self.entries(), e.0)
            },
            self.entries().len() > 0 ==> r is Some,
    {
        proof {
            use_type_invariant(self);
        }
        if self.data.len() == 0 {
            None
        } else {
            proof {
                let s = self.data@;
                assert forall|i: int| 0 <= i < s.len() implies ord_le(#[trigger] s[i].0, s[0].0) by {
                    lemma_root_is_max(s, s.len() as int, i);
                }
                assert(s.contains(s[0]));
            }
            Some(&self.data[0])
        }
    }

    /// The entries, ascending by key.
    pub fn into_sorted_vec(self) -> (v: Vec<(K, V)>)
        requires
            lawful_order::<K>(),
        ensures
            v@.to_multiset() == self.entries().to_multiset(),
            sorted_asc(v@),
    {
        proof {
            use_type_invariant(&self);
        }
        let mut data = self.data;
        let ghost orig = data@;
        let len = data.len();
        let mut end = len;
        while end > 1
            invariant
                lawful_order::<K>(),
                len == data.len(),
                end <= len,
                len > 0 ==> end >= 1,
                data@.to_multiset() == orig.to_multiset(),
                heap_ordered(data@, end as int),
                forall|a: int, b: int| end <= a < b < len ==> ord_le(#[trigger] data@[a].0, #[trigger] data@[b].0),
                forall|a: int, b: int| 0 <= a < end <= b < len ==> ord_le(#[trigger] data@[a].0, #[trigger] data@[b].0),
            decreases end,
        {
            proof {
                lemma_ord_laws::<K>();
            }
            end = end - 1;
            let ghost s0 = data@;
            proof {
                assert forall|i: int| 0 <= i <= end implies ord_le(#[trigger] s0[i].0, s0[0].0) by {
                    lemma_root_is_max(s0, end + 1, i);
                }
                lemma_swap_multiset(s0, 0, end as int);
            }
            vec_swap(&mut data, 0, end);
            let ghost s1 = data@;
            proof {
                assert forall|i: int| 0 < i < end && parent(i) >= 0 && parent(i) != 0 implies ord_le(
                    #[trigger] s1[i].0,
                    s1[parent(i)].0,
                ) by {
                    assert(s1[i] == s0[i]);
                    assert(s1[parent(i)] == s0[parent(i)]);
                }
                assert(all_le(s1.subrange(0, end as int), s1[end as int].0));
            }
            if end > 0 {
                sift_down_range(&mut data, 0, end);
            }
            proof {
                let s2 = data@;
                if end > 0 {
                    lemma_all_le_permuted(s1.subrange(0, end as int), s2.subrange(0, end as int), s1[end as int].0);
                }
                assert forall|a: int, b: int| end <= a < b < len implies ord_le(#[trigger] s2[a].0, #[trigger] s2[b].0) by {
                    assert(s2[a] == s1[a]);
                    assert(s2[b] == s1[b]);
                    if a == end {
                        assert(s1[a] == s0[0]);
                        assert(s1[b] == s0[b]);
                        assert(ord_le(s0[0].0, s0[b].0));
                    } else {
                        assert(s1[a] == s0[a]);
                        assert(s1[b] == s0[b]);
                    }
                }
                assert forall|a: int, b: int| 0 <= a < end <= b < len implies ord_le(#[trigger] s2[a].0, #[trigger] s2[b].0) by {
                    assert(s2.subrange(0, end as int)[a] == s2[a]);
                    assert(ord_le(s2[a].0, s1[end as int].0));
                    assert(s2[b] == s1[b]);
                    if b > end {
                        assert(s1[b] == s0[b]);
                        assert(s1[end as int] == s0[0]);
                        assert(ord_le(s0[0].0, s0[b].0));
                    }
                }
            }
        }
        data
    }

    /// Empties the heap and returns its entries ordered by descending key;
    /// entries with equal keys keep the order they had in the backing array.
    pub fn drain_sorted(&mut self) -> (v: Vec<(K, V)>)
        requires
            lawful_order::<K>(),
        ensures
            v@.to_multiset() == old(self).entries().to_multiset(),
            sorted_desc(v@),
            final(self).entries() == Seq::<(K, V)>::empty(),
    {
        let mut data: Vec<(K, V)> = Vec::new();
        std::mem::swap(&mut data, &mut self.data);
        sort_desc(&mut data);
        data
    }

    /// References to the entries ordered by descending key; entries with equal
    /// keys keep the order they have in the backing array.
    pub fn sorted_refs(&self) -> (v: Vec<&(K, V)>)
        requires
            lawful_order::<K>(),
        ensures
            deref_seq(v@).to_multiset() == self.entries().to_multiset(),
            sorted_desc(deref_seq(v@)),
    {
        let mut refs: Vec<&(K, V)> = Vec::new();
        let n = self.data.len();
        for i in 0..n
            invariant
                n == self.data.len(),
                refs@.len() == i,
                forall|j: int| 0 <= j < i ==> *#[trigger] refs@[j] == self.data@[j],
        {
            refs.push(&self.data[i]);
        }
        proof {
            assert(deref_seq(refs@) =~= self.data@);
        }
        sort_refs_desc(&mut refs);
        refs
    }

    /// References to the entries in the order of the backing array.
    pub fn refs(&self) -> (v: Vec<&(K, V)>)
        ensures
            deref_seq(v@) == self.entries(),
    {
        let mut refs: Vec<&(K, V)> = Vec::new();
        let n = self.data.len();
        for i in 0..n
            invariant
                n == self.data.len(),
                refs@.len() == i,
                forall|j: int| 0 <= j < i ==> *#[trigger] refs@[j] == self.data@[j],
        {
            refs.push(&self.data[i]);
        }
        proof {
            assert(deref_seq(refs@) =~= self.data@);
        }
        refs
    }
}

/// One step of insertion: the entry at `j` moves before a smaller predecessor.
proof fn lemma_insert_step<K: Ord, V>(s: Seq<(K, V)>, i: int, j: int)
    requires
        lawful_order::<K>(),
        0 < j <= i < s.len(),
        forall|a: int, b: int| 0 <= a < b <= i && a != j && b != j ==> ord_le(#[trigger] s[b].0, #[trigger] s[a].0),
        forall|b: int| j < b <= i ==> ord_le(#[trigger] s[b].0, s[j].0),
        !ord_le(s[j].0, s[j - 1].0),
    ensures
        ({
            let t = swapped(s, j, j - 1);
            &&& forall|a: int, b: int|
                0 <= a < b <= i && a != j - 1 && b != j - 1 ==> ord_le(#[trigger] t[b].0, #[trigger] t[a].0)
            &&& forall|b: int| j - 1 < b <= i ==> ord_le(#[trigger] t[b].0, t[j - 1].0)
        }),
{
    lemma_ord_laws::<K>();
    let t = swapped(s, j, j - 1);
    assert(ord_le(s[j - 1].0, s[j].0));
    assert forall|a: int, b: int| 0 <= a < b <= i && a != j - 1 && b != j - 1 implies ord_le(
        #[trigger] t[b].0,
        #[trigger] t[a].0,
    ) by {
        if b == j {
            assert(ord_le(s[j - 1].0, s[a].0));
        } else if a == j {
            assert(ord_le(s[b].0, s[j - 1].0));
        } else {
            assert(ord_le(s[b].0, s[a].0));
        }
    }
    assert forall|b: int| j - 1 < b <= i implies ord_le(#[trigger] t[b].0, t[j - 1].0) by {
        if b > j {
            assert(ord_le(s[b].0, s[j].0));
        }
    }
}

/// The insertion is done once the entry at `j` is not greater than its predecessor.
proof fn lemma_insert_done<K: Ord, V>(s: Seq<(K, V)>, i: int, j: int)
    requires
        lawful_order::<K>(),
        0 <= j <= i < s.len(),
        forall|a: int, b: int| 0 <= a < b <= i && a != j && b != j ==> ord_le(#[trigger] s[b].0, #[trigger] s[a].0),
        forall|b: int| j < b <= i ==> ord_le(#[trigger] s[b].0, s[j].0),
        j > 0 ==> ord_le(s[j].0, s[j - 1].0),
    ensures
        forall|a: int, b: int| 0 <= a < b <= i ==> ord_le(#[trigger] s[b].0, #[trigger] s[a].0),
{
    lemma_ord_laws::<K>();
    assert forall|a: int, b: int| 0 <= a < b <= i implies ord_le(#[trigger] s[b].0, #[trigger] s[a].0) by {
        if b == j {
            if a < j - 1 {
                assert(ord_le(s[j - 1].0, s[a].0));
            }
        } else if a == j {
        }
    }
}

/// Stable insertion sort by descending key.
fn sort_desc<K: Ord, V>(data: &mut Vec<(K, V)>)
    requires
        lawful_order::<K>(),
    ensures
        final(data)@.to_multiset() == old(data)@.to_multiset(),
        sorted_desc(final(data)@),
{
    let ghost orig = data@;
    let n = data.len();
    let mut i: usize = 0;
    while i < n
        invariant
            lawful_order::<K>(),
            n == data.len(),
            i <= n,
            data@.to_multiset() == orig.to_multiset(),
            forall|a: int, b: int| 0 <= a < b < i ==> ord_le(#[trigger] data@[b].0, #[trigger] data@[a].0),
        decreases n - i,
    {
        let mut j = i;
        loop
            invariant
                lawful_order::<K>(),
                n == data.len(),
                j <= i < n,
                data@.to_multiset() == orig.to_multiset(),
                forall|a: int, b: int| 0 <= a < b <= i && a != j && b != j ==> ord_le(#[trigger] data@[b].0, #[trigger] data@[a].0),
                forall|b: int| j < b <= i ==> ord_le(#[trigger] data@[b].0, data@[j as int].0),
            ensures
                j <= i < n,
                data@.to_multiset() == orig.to_multiset(),
                forall|a: int, b: int| 0 <= a < b <= i ==> ord_le(#[trigger] data@[b].0, #[trigger] data@[a].0),
            decreases j,
        {
            proof {
                lemma_ord_laws::<K>();
            }
            if j == 0 || data[j].0 <= data[j - 1].0 {
                proof {
                    lemma_insert_done(data@, i as int, j as int);
                }
                break;
            }
            proof {
                lemma_insert_step(data@, i as int, j as int);
                lemma_swap_multiset(data@, j as int, j - 1);
            }
            vec_swap(data, j, j - 1);
            j = j - 1;
        }
        i = i + 1;
    }
}

/// The entries that a vector of references points to.
pub open spec fn deref_seq<K, V>(s: Seq<&(K, V)>) -> Seq<(K, V)> {
    s.map_values(|e: &(K, V)| *e)
}

/// Stable insertion sort of entry references by descending key.
fn sort_refs_desc<K: Ord, V>(refs: &mut Vec<&(K, V)>)
    requires
        lawful_order::<K>(),
    ensures
        deref_seq(final(refs)@).to_multiset() == deref_seq(old(refs)@).to_multiset(),
        sorted_desc(deref_seq(final(refs)@)),
{
    let ghost orig = deref_seq(refs@);
    let n = refs.len();
    let mut i: usize = 0;
    while i < n
        invariant
            lawful_order::<K>(),
            n == refs.len(),
            i <= n,
            deref_seq(refs@).to_multiset() == orig.to_multiset(),
            forall|a: int, b: int| 0 <= a < b < i ==> ord_le(#[trigger] deref_seq(refs@)[b].0, #[trigger] deref_seq(refs@)[a].0),
        decreases n - i,
    {
        let mut j = i;
        loop
            invariant
                lawful_order::<K>(),
                n == refs.len(),
                j <= i < n,
                deref_seq(refs@).to_multiset() == orig.to_multiset(),
                forall|a: int, b: int| 0 <= a < b <= i && a != j && b != j ==> ord_le(#[trigger] deref_seq(refs@)[b].0, #[trigger] deref_seq(refs@)[a].0),
                forall|b: int| j < b <= i ==> ord_le(#[trigger] deref_seq(refs@)[b].0, deref_seq(refs@)[j as int].0),
            ensures
                j <= i < n,
                deref_seq(refs@).to_multiset() == orig.to_multiset(),
                forall|a: int, b: int| 0 <= a < b <= i ==> ord_le(#[trigger] deref_seq(refs@)[b].0, #[trigger] deref_seq(refs@)[a].0),
            decreases j,
        {
            proof {
                lemma_ord_laws::<K>();
            }
            let ghost m = deref_seq(refs@);
            if j == 0 {
                proof {
                    lemma_insert_done(m, i as int, j as int);
                }
                break;
            }
            proof {
                assert(m[j as int] == *refs@[j as int]);
                assert(m[j - 1] == *refs@[j - 1]);
            }
            if refs[j].0 <= refs[j - 1].0 {
                proof {
                    lemma_insert_done(m, i as int, j as int);
                }
                break;
            }
            proof {
                lemma_insert_step(m, i as int, j as int);
                lemma_swap_multiset(m, j as int, j - 1);
            }
            vec_swap(refs, j, j - 1);
            proof {
                assert(deref_seq(refs@) =~= swapped(m, j as int, j - 1));
            }
            j = j - 1;
        }
        i = i + 1;
    }
}

} // verus!
