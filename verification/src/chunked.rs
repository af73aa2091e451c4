//! Reassembly of chunked transfers. Chunks wait per peer and transfer id in
//! one of a fixed number of buckets, chosen by the id; each bucket is a queue
//! of pending transfers, oldest first. Before a chunk is stored, the transfers
//! at the front of its bucket that are complete or have waited longer than
//! the timeout are dropped and their ids reported.
use vstd::prelude::*;
use vstd::multiset::Multiset;
use crate::dequemap::{DequeMap, has_key, key_index, lemma_key_index};
use crate::priority_queue::PriorityQueue;
use crate::heap::sorted_asc;
use crate::order::{ord_le, lawful_eq, lemma_u32_order};
use crate::transfer::{Message, payload, payloads, is_split, chunk_message};

verus! {

broadcast use vstd::seq_lib::group_to_multiset_ensures;

/// A peer's socket address: address family (4 or 6), address bits, port.
pub type PeerAddr = (u8, u128, u16);

/// Pending transfers are kept per peer and transfer id.
pub type ChunkKey = (Option<PeerAddr>, u64);

/// Number of buckets that pending transfers are spread over.
pub const DATA_BUFFSES_MAX: u64 = 10;

/// How long, in seconds, the chunks of a transfer wait for the rest by default.
pub const RECV_CHUNKS_TIMEOUT_SECS: u64 = 30;

/// A pending transfer as the contracts see it: key, arrival time of its
/// first chunk, and the chunks so far, each with its index.
pub type BufEntry = (ChunkKey, (u64, Multiset<(u32, Message)>));

type Pending = (u64, PriorityQueue<u32, Message>);

pub open spec fn entry_view(e: (ChunkKey, Pending)) -> BufEntry {
    (e.0, (e.1.0, e.1.1@))
}

pub open spec fn bucket_view(b: DequeMap<ChunkKey, Pending>) -> Seq<BufEntry> {
    b@.map_values(|e: (ChunkKey, Pending)| entry_view(e))
}

/// Time from `since` to `now`, zero when `since` is later.
pub open spec fn elapsed(now: u64, since: u64) -> int {
    if now >= since {
        now - since
    } else {
        0
    }
}

/// A pending transfer is dropped when it holds no chunk or has waited longer
/// than `timeout`.
pub open spec fn stale(e: BufEntry, now: u64, timeout: u64) -> bool {
    e.1.1.len() == 0 || elapsed(now, e.1.0) > timeout
}

/// How many entries at the front of `b` are stale.
pub open spec fn evict_count(b: Seq<BufEntry>, now: u64, timeout: u64) -> nat
    decreases b.len(),
{
    if b.len() > 0 && stale(b[0], now, timeout) {
        1 + evict_count(b.drop_first(), now, timeout)
    } else {
        0
    }
}

/// The transfer ids of `s`, in order.
pub open spec fn entry_ids(s: Seq<BufEntry>) -> Seq<u64> {
    s.map_values(|e: BufEntry| e.0.1)
}

/// The payloads of indexed chunks, one after another.
pub open spec fn joined(s: Seq<(u32, Message)>) -> Seq<u8> {
    payloads(s.map_values(|e: (u32, Message)| e.1))
}

/// What one chunk `req` of a multi-chunk transfer does to the bucket `b` of
/// its transfer, arriving at `now`: `b_new` is the bucket afterwards,
/// `removed` the ids of the dropped transfers, and `out` the payload that
/// the chunk completes, if any.
pub open spec fn merge_outcome(
    b: Seq<BufEntry>,
    timeout: u64,
    req: Message,
    key: ChunkKey,
    now: u64,
    b_new: Seq<BufEntry>,
    removed: Seq<u64>,
    out: Option<Seq<u8>>,
) -> bool {
    let k = evict_count(b, now, timeout);
    let rest = b.skip(k as int);
    let present = has_key(rest, key);
    let i = key_index(rest, key);
    let queued = if present {
        rest[i].1.1.insert((req.chunk_index, req))
    } else {
        Multiset::empty().insert((req.chunk_index, req))
    };
    let complete = queued.len() >= req.total_chunks;
    let kept = if complete {
        Multiset::empty()
    } else {
        queued
    };
    &&& removed == entry_ids(b.take(k as int))
    &&& b_new == if present {
        rest.update(i, (rest[i].0, (rest[i].1.0, kept)))
    } else {
        rest.push((key, (now, kept)))
    }
    &&& complete ==> (out matches Some(d) && exists|s: Seq<(u32, Message)>|
        #![trigger joined(s)]
        s.to_multiset() == queued && sorted_asc(s) && d == joined(s))
    &&& !complete ==> out is None
}

/// The payload in a merge result.
pub open spec fn result_payload(r: Option<(u64, u32, Vec<u8>)>) -> Option<Seq<u8>> {
    match r {
        Some(t) => Some(t.2@),
        None => None,
    }
}

/// The id, priority and payload of a merge result.
pub open spec fn result_view(r: Option<(u64, u32, Vec<u8>)>) -> Option<(u64, u32, Seq<u8>)> {
    match r {
        Some(t) => Some((t.0, t.1, t.2@)),
        None => None,
    }
}

/// What `merge` does: the buffer goes from `before` to `after`, the list of
/// dropped ids from `removed_before` to `removed_after`, and `out` is what it
/// hands back.
pub open spec fn merged(
    before: Seq<Seq<BufEntry>>,
    timeout: u64,
    req: Message,
    addr: Option<PeerAddr>,
    now: u64,
    after: Seq<Seq<BufEntry>>,
    removed_before: Seq<u64>,
    removed_after: Seq<u64>,
    out: Option<(u64, u32, Seq<u8>)>,
) -> bool {
    &&& (out matches Some(t) ==> t.0 == req.id && t.1 == req.priority)
    &&& req.total_chunks <= 1 ==> {
        &&& out == Some((req.id, req.priority, payload(req)))
        &&& after == before
        &&& removed_after == removed_before
    }
    &&& req.total_chunks > 1 ==> {
        let b = (req.id % DATA_BUFFSES_MAX) as int;
        &&& after == before.update(b, after[b])
        &&& removed_after.len() >= removed_before.len()
        &&& removed_after.take(removed_before.len() as int) == removed_before
        &&& merge_outcome(
            before[b],
            timeout,
            req,
            (addr, req.id),
            now,
            after[b],
            removed_after.skip(removed_before.len() as int),
            match out {
                Some(t) => Some(t.2),
                None => None,
            },
        )
    }
}

/// Pending chunked transfers, spread over buckets by transfer id.
pub struct ChunkedBuffer {
    buckets: Vec<DequeMap<ChunkKey, Pending>>,
    recv_chunks_timeout: u64,
}

impl View for ChunkedBuffer {
    type V = Seq<Seq<BufEntry>>;

    closed spec fn view(&self) -> Seq<Seq<BufEntry>> {
        self.buckets@.map_values(|b: DequeMap<ChunkKey, Pending>| bucket_view(b))
    }
}

proof fn lemma_evict_prefix(b: Seq<BufEntry>, now: u64, timeout: u64)
    ensures
        evict_count(b, now, timeout) <= b.len(),
        forall|j: int| 0 <= j < evict_count(b, now, timeout) ==> stale(#[trigger] b[j], now, timeout),
        evict_count(b, now, timeout) < b.len() ==> !stale(b[evict_count(b, now, timeout) as int], now, timeout),
    decreases b.len(),
{
    if b.len() > 0 && stale(b[0], now, timeout) {
        let t = b.drop_first();
        lemma_evict_prefix(t, now, timeout);
        assert forall|j: int| 0 <= j < evict_count(b, now, timeout) implies stale(#[trigger] b[j], now, timeout) by {
            if j > 0 {
                assert(b[j] == t[j - 1]);
            }
        }
        if evict_count(b, now, timeout) < b.len() {
            assert(b[evict_count(b, now, timeout) as int] == t[evict_count(t, now, timeout) as int]);
        }
    }
}

impl ChunkedBuffer {
    /// Every bucket is a queue with distinct keys, and there are
    /// `DATA_BUFFSES_MAX` of them.
    pub closed spec fn wf(&self) -> bool {
        &&& self.buckets@.len() == DATA_BUFFSES_MAX
        &&& forall|i: int| 0 <= i < self.buckets@.len() ==> (#[trigger] self.buckets@[i]).wf()
    }

    /// How long, in nanoseconds, a transfer waits for its remaining chunks.
    pub closed spec fn timeout(&self) -> u64 {
        self.recv_chunks_timeout
    }

    /// An empty buffer whose transfers wait `recv_chunks_timeout` nanoseconds
    /// for their remaining chunks.
    pub fn new(recv_chunks_timeout: u64) -> (b: Self)
        ensures
            b.wf(),
            b.timeout() == recv_chunks_timeout,
            b@.len() == DATA_BUFFSES_MAX,
            forall|i: int| 0 <= i < b@.len() ==> (#[trigger] b@[i]).len() == 0,
    {
        let mut buckets: Vec<DequeMap<ChunkKey, Pending>> = Vec::new();
        let mut i: u64 = 0;
        while i < DATA_BUFFSES_MAX
            invariant
                i <= DATA_BUFFSES_MAX,
                buckets@.len() == i,
                forall|j: int| 0 <= j < i ==> (#[trigger] buckets@[j]).wf() && buckets@[j]@.len() == 0,
            decreases DATA_BUFFSES_MAX - i,
        {
            buckets.push(DequeMap::new());
            i = i + 1;
        }
        let b = ChunkedBuffer { buckets, recv_chunks_timeout };
        proof {
            assert forall|i: int| 0 <= i < b@.len() implies (#[trigger] b@[i]).len() == 0 by {
                assert(b@[i] == bucket_view(b.buckets@[i]));
            }
        }
        b
    }

    /// Takes one received message. A message of at most one chunk is handed
    /// back at once as `(id, priority, payload)`. A chunk is stored with the
    /// others of its transfer (after dropping the stale transfers at the
    /// front of its bucket and appending their ids to `removed_ids`); when
    /// the transfer then holds as many chunks as the chunk announces, its
    /// payloads are joined in chunk order and handed back. `now` is the
    /// arrival time in nanoseconds on a clock that only goes forward.
    pub fn merge(
        &mut self,
        req: Message,
        remote_addr: Option<PeerAddr>,
        removed_ids: &mut Vec<u64>,
        now: u64,
    ) -> (r: Option<(u64, u32, Vec<u8>)>)
        requires
            old(self).wf(),
        ensures
            final(self).wf(),
            final(self).timeout() == old(self).timeout(),
            r matches Some(t) ==> t.0 == req.id && t.1 == req.priority,
            merged(
                old(self)@,
                old(self).timeout(),
                req,
                remote_addr,
                now,
                final(self)@,
                old(removed_ids)@,
                final(removed_ids)@,
                result_view(r),
            ),
            req.total_chunks <= 1 ==> {
                &&& result_payload(r) == Some(payload(req))
                &&& final(self)@ == old(self)@
                &&& final(removed_ids)@ == old(removed_ids)@
            },
            req.total_chunks > 1 ==> {
                let b = (req.id % DATA_BUFFSES_MAX) as int;
                &&& final(self)@ == old(self)@.update(b, final(self)@[b])
                &&& final(removed_ids)@.len() >= old(removed_ids)@.len()
                &&& final(removed_ids)@.take(old(removed_ids)@.len() as int) == old(removed_ids)@
                &&& merge_outcome(
                    old(self)@[b],
                    old(self).timeout(),
                    req,
                    (remote_addr, req.id),
                    now,
                    final(self)@[b],
                    final(removed_ids)@.skip(old(removed_ids)@.len() as int),
                    result_payload(r),
                )
            },
    {
        broadcast use vstd::laws_eq::group_laws_eq;

        proof {
            lemma_u32_order();
        }
        if req.total_chunks <= 1 {
            let id = req.id;
            let priority = req.priority;
            let data = match req.data {
                Some(d) => d,
                None => Vec::new(),
            };
            return Some((id, priority, data));
        }
        let idx: usize = (req.id % DATA_BUFFSES_MAX) as usize;
        let timeout = self.recv_chunks_timeout;
        let ghost old_buckets = self.buckets@;
        let ghost old_removed = removed_ids@;
        let mut bucket = self.buckets.remove(idx);
        let ghost b0 = bucket_view(bucket);
        assert(b0 == old(self)@[idx as int]);
        assert(bucket.wf());

        // Drop stale transfers at the front.
        let ghost mut j: int = 0;
        proof {
            lemma_evict_prefix(b0, now, timeout);
            assert(b0.skip(0) =~= b0);
            assert(b0.take(0) =~= Seq::<BufEntry>::empty());
            assert(removed_ids@ =~= old_removed + entry_ids(b0.take(0)));
        }
        loop
            invariant
                bucket.wf(),
                0 <= j <= b0.len(),
                bucket_view(bucket) == b0.skip(j),
                evict_count(b0, now, timeout) == j + evict_count(b0.skip(j), now, timeout),
                removed_ids@ == old_removed + entry_ids(b0.take(j)),
            ensures
                bucket.wf(),
                j == evict_count(b0, now, timeout),
                bucket_view(bucket) == b0.skip(j),
                removed_ids@ == old_removed + entry_ids(b0.take(j)),
            decreases bucket@.len(),
        {
            let next: Option<u64> = match bucket.front() {
                Some((k, v)) => {
                    if v.1.is_empty() || (now >= v.0 && now - v.0 > timeout) {
                        Some(k.1)
                    } else {
                        None
                    }
                },
                None => None,
            };
            match next {
                Some(rid) => {
                    proof {
                        let cur = b0.skip(j);
                        assert(cur[0] == entry_view(bucket@[0]));
                        assert(stale(cur[0], now, timeout));
                        assert(cur.drop_first() =~= b0.skip(j + 1));
                        assert(b0.take(j + 1) =~= b0.take(j).push(b0[j]));
                        assert(cur[0] == b0[j]);
                    }
                    removed_ids.push(rid);
                    let _ = bucket.pop_front();
                    proof {
                        assert(bucket_view(bucket) =~= b0.skip(j + 1));
                        assert(entry_ids(b0.take(j + 1)) =~= entry_ids(b0.take(j)).push(rid));
                        assert(removed_ids@ =~= old_removed + entry_ids(b0.take(j + 1)));
                        j = j + 1;
                    }
                },
                None => {
                    proof {
                        let cur = b0.skip(j);
                        if cur.len() > 0 {
                            assert(cur[0] == entry_view(bucket@[0]));
                            assert(!stale(cur[0], now, timeout));
                        }
                        assert(evict_count(cur, now, timeout) == 0);
                    }
                    break;
                },
            }
        }

        // Store the chunk with its transfer.
        let ghost rest = b0.skip(j);
        let key: ChunkKey = (remote_addr, req.id);
        let id = req.id;
        let priority = req.priority;
        let total = req.total_chunks;
        let index = req.chunk_index;
        let ghost reqv = req;
        proof {
            lemma_key_index(rest, key);
            lemma_key_index(bucket@, key);
            assert forall|q: int| 0 <= q < rest.len() implies (#[trigger] rest[q]).0 == bucket@[q].0 by {
                assert(rest[q] == entry_view(bucket@[q]));
            }
            assert(has_key(rest, key) == has_key(bucket@, key)) by {
                if has_key(rest, key) {
                    let q = choose|q: int| 0 <= q < rest.len() && (#[trigger] rest[q]).0 == key;
                    assert(bucket@[q].0 == key);
                }
                if has_key(bucket@, key) {
                    let q = choose|q: int| 0 <= q < bucket@.len() && (#[trigger] bucket@[q]).0 == key;
                    assert(rest[q].0 == key);
                }
            }
        }
        let present = bucket.contains_key(&key);
        if !present {
            bucket.insert(key, (now, PriorityQueue::new()));
        }
        let ghost mid = bucket@;
        proof {
            lemma_key_index(mid, key);
            if !present {
                assert(mid[mid.len() - 1].0 == key);
                assert(has_key(mid, key));
            } else {
                assert(mid == bucket@);
            }
        }
        let mut done: Option<Vec<u8>> = None;
        match bucket.get_mut(&key) {
            Some(entry) => {
                entry.1.push(index, req);
                if entry.1.len() >= total as usize {
                    let mut q: PriorityQueue<u32, Message> = PriorityQueue::new();
                    std::mem::swap(&mut q, &mut entry.1);
                    let sorted = q.into_sorted_vec();
                    let d = join_payloads(&sorted);
                    done = Some(d);
                }
            },
            None => {},
        }
        let ghost b_new = bucket_view(bucket);
        proof {
            let present_rest = has_key(rest, key);
            let i = key_index(rest, key);
            let im = key_index(mid, key);
            if present_rest {
                assert(im == i);
            } else {
                assert(im == mid.len() - 1);
            }
            assert(b_new.len() == rest.len() + if present_rest { 0int } else { 1int });
            if present_rest {
                assert(b_new =~= rest.update(i, (rest[i].0, b_new[i].1)));
            } else {
                assert(b_new =~= rest.push((key, b_new[rest.len() as int].1)));
            }
        }
        self.buckets.insert(idx, bucket);
        proof {
            assert(self.buckets@ =~= old_buckets.update(idx as int, bucket));
            assert(self@ =~= old(self)@.update(idx as int, b_new));
            assert(removed_ids@.take(old_removed.len() as int) =~= old_removed);
            assert(removed_ids@.skip(old_removed.len() as int) =~= entry_ids(b0.take(j)));
            assert forall|q: int| 0 <= q < self.buckets@.len() implies (#[trigger] self.buckets@[q]).wf() by {
                if q != idx {
                    assert(self.buckets@[q] == old_buckets[q]);
                }
            }
        }
        match done {
            Some(d) => Some((id, priority, d)),
            None => None,
        }
    }
}

/// The first `k` chunks of a transfer, each with its index.
pub open spec fn indexed(msgs: Seq<Message>, k: int) -> Seq<(u32, Message)> {
    Seq::new(k as nat, |i: int| (i as u32, msgs[i]))
}

/// In `b`, the transfer `key` arrived at `t0` and holds the first `k` chunks.
pub open spec fn holds_first(b: Seq<BufEntry>, key: ChunkKey, t0: u64, msgs: Seq<Message>, k: int) -> bool {
    &&& has_key(b, key)
    &&& b[key_index(b, key)].1 == (t0, indexed(msgs, k).to_multiset())
}

proof fn lemma_keys_from(s: Seq<(u32, Message)>, n: int, i: int)
    requires
        s.len() == n,
        forall|a: int, b: int| 0 <= a < b < n ==> (#[trigger] s[a]).0 < (#[trigger] s[b]).0,
        forall|a: int| 0 <= a < n ==> (#[trigger] s[a]).0 < n,
        0 <= i < n,
    ensures
        s[i].0 == i,
{
    lemma_keys_at_least(s, n, i);
    lemma_keys_at_most(s, n, i);
}

proof fn lemma_keys_at_least(s: Seq<(u32, Message)>, n: int, i: int)
    requires
        s.len() == n,
        forall|a: int, b: int| 0 <= a < b < n ==> (#[trigger] s[a]).0 < (#[trigger] s[b]).0,
        0 <= i < n,
    ensures
        s[i].0 >= i,
    decreases i,
{
    if i > 0 {
        lemma_keys_at_least(s, n, i - 1);
        assert(s[i - 1].0 < s[i].0);
    }
}

proof fn lemma_keys_at_most(s: Seq<(u32, Message)>, n: int, i: int)
    requires
        s.len() == n,
        forall|a: int, b: int| 0 <= a < b < n ==> (#[trigger] s[a]).0 < (#[trigger] s[b]).0,
        forall|a: int| 0 <= a < n ==> (#[trigger] s[a]).0 < n,
        0 <= i < n,
    ensures
        s[i].0 <= i,
    decreases n - i,
{
    if i < n - 1 {
        lemma_keys_at_most(s, n, i + 1);
        assert(s[i].0 < s[i + 1].0);
    }
}

/// Chunks sorted by index whose indices are `0..n` are the chunks in order.
proof fn lemma_sorted_indexed(s: Seq<(u32, Message)>, msgs: Seq<Message>, n: int)
    requires
        0 <= n <= msgs.len(),
        n <= u32::MAX + 1,
        s.to_multiset() == indexed(msgs, n).to_multiset(),
        sorted_asc(s),
    ensures
        s == indexed(msgs, n),
{
    lemma_u32_order();
    let t = indexed(msgs, n);
    assert(t.no_duplicates()) by {
        assert forall|a: int, b: int| 0 <= a < t.len() && 0 <= b < t.len() && a != b implies t[a] != t[b] by {
            assert(t[a].0 == a as u32);
            assert(t[b].0 == b as u32);
        }
    }
    t.lemma_multiset_has_no_duplicates();
    s.lemma_multiset_has_no_duplicates_conv();
    s.to_multiset_ensures();
    t.to_multiset_ensures();
    assert(s.len() == n);
    assert forall|i: int| 0 <= i < n implies #[trigger] s[i] == t[s[i].0 as int] && s[i].0 < n by {
        assert(s.to_multiset().contains(s[i]));
        assert(t.contains(s[i]));
        let j = choose|j: int| 0 <= j < t.len() && t[j] == s[i];
        assert(t[j].0 == j as u32);
    }
    assert forall|a: int, b: int| 0 <= a < b < n implies (#[trigger] s[a]).0 < (#[trigger] s[b]).0 by {
        assert(ord_le(s[a].0, s[b].0));
        if s[a].0 == s[b].0 {
            assert(s[a] == t[s[a].0 as int]);
            assert(s[b] == t[s[b].0 as int]);
        }
    }
    assert forall|i: int| 0 <= i < n implies #[trigger] s[i] == t[i] by {
        lemma_keys_from(s, n, i);
        assert(s[i] == t[s[i].0 as int]);
    }
    assert(s =~= t);
}

/// The first index with key `key` in `b.skip(e)`, when `b`'s first such
/// index is at or after `e`.
proof fn lemma_key_index_skip(b: Seq<BufEntry>, key: ChunkKey, e: int)
    requires
        has_key(b, key),
        0 <= e <= key_index(b, key),
    ensures
        has_key(b.skip(e), key),
        key_index(b.skip(e), key) == key_index(b, key) - e,
        b.skip(e)[key_index(b, key) - e] == b[key_index(b, key)],
{
    lemma_key_index(b, key);
    let i0 = key_index(b, key);
    let rest = b.skip(e);
    assert(rest[i0 - e] == b[i0]);
    assert(has_key(rest, key));
    lemma_key_index(rest, key);
    let r = key_index(rest, key);
    if r < i0 - e {
        assert(rest[r] == b[r + e]);
    }
    if r > i0 - e {
        assert(rest[i0 - e].0 != key);
    }
}

/// Replacing the value of the first entry with key `key` keeps it first.
proof fn lemma_key_index_update<V>(s: Seq<(ChunkKey, V)>, key: ChunkKey, v: V)
    requires
        has_key(s, key),
    ensures
        has_key(s.update(key_index(s, key), (s[key_index(s, key)].0, v)), key),
        key_index(s.update(key_index(s, key), (s[key_index(s, key)].0, v)), key) == key_index(s, key),
{
    lemma_key_index(s, key);
    let i = key_index(s, key);
    let t = s.update(i, (s[i].0, v));
    assert(t[i].0 == key);
    assert(has_key(t, key));
    lemma_key_index(t, key);
    let r = key_index(t, key);
    if r < i {
        assert(t[r] == s[r]);
    }
    if r > i {
        assert(t[i].0 != key);
    }
}

/// Appending an entry with a key that is absent makes it the first with that key.
proof fn lemma_key_index_push<V>(s: Seq<(ChunkKey, V)>, key: ChunkKey, v: V)
    requires
        !has_key(s, key),
    ensures
        has_key(s.push((key, v)), key),
        key_index(s.push((key, v)), key) == s.len(),
{
    let t = s.push((key, v));
    assert(t[s.len() as int].0 == key);
    assert(has_key(t, key));
    lemma_key_index(t, key);
    let r = key_index(t, key);
    if r < s.len() {
        assert(t[r] == s[r]);
        assert(has_key(s, key));
    }
}

proof fn lemma_first_merge(
    b: Seq<BufEntry>,
    timeout: u64,
    msgs: Seq<Message>,
    key: ChunkKey,
    now: u64,
    b_new: Seq<BufEntry>,
    removed: Seq<u64>,
    out: Option<Seq<u8>>,
    n: int,
)
    requires
        !has_key(b, key),
        n >= 2,
        msgs.len() == n,
        msgs[0].chunk_index == 0,
        msgs[0].total_chunks == n,
        merge_outcome(b, timeout, msgs[0], key, now, b_new, removed, out),
    ensures
        holds_first(b_new, key, now, msgs, 1),
        out is None,
{
    let e = evict_count(b, now, timeout);
    lemma_evict_prefix(b, now, timeout);
    let rest = b.skip(e as int);
    assert(!has_key(rest, key)) by {
        if has_key(rest, key) {
            let q = choose|q: int| 0 <= q < rest.len() && (#[trigger] rest[q]).0 == key;
            assert(rest[q] == b[q + e]);
        }
    }
    let queued = Multiset::<(u32, Message)>::empty().insert((msgs[0].chunk_index, msgs[0]));
    assert(indexed(msgs, 1) =~= seq![(0u32, msgs[0])]);
    assert(indexed(msgs, 1) =~= Seq::<(u32, Message)>::empty().push((0u32, msgs[0])));
    assert(indexed(msgs, 1).to_multiset() =~= queued);
    assert(queued.len() == 1);
    lemma_key_index_push(rest, key, (now, queued));
}

proof fn lemma_next_merge(
    b: Seq<BufEntry>,
    timeout: u64,
    msgs: Seq<Message>,
    key: ChunkKey,
    now: u64,
    b_new: Seq<BufEntry>,
    removed: Seq<u64>,
    out: Option<Seq<u8>>,
    t0: u64,
    k: int,
    n: int,
)
    requires
        1 <= k < n,
        n <= u32::MAX,
        msgs.len() == n,
        holds_first(b, key, t0, msgs, k),
        msgs[k].chunk_index == k,
        msgs[k].total_chunks == n,
        elapsed(now, t0) <= timeout,
        merge_outcome(b, timeout, msgs[k], key, now, b_new, removed, out),
    ensures
        k + 1 < n ==> holds_first(b_new, key, t0, msgs, k + 1) && out is None,
        k + 1 == n ==> out == Some(joined(indexed(msgs, n))),
{
    lemma_key_index(b, key);
    let i0 = key_index(b, key);
    let e = evict_count(b, now, timeout);
    lemma_evict_prefix(b, now, timeout);
    assert(indexed(msgs, k).len() == k);
    assert(b[i0].1.1.len() == k);
    assert(!stale(b[i0], now, timeout));
    assert(e <= i0);
    lemma_key_index_skip(b, key, e as int);
    let rest = b.skip(e as int);
    let r = key_index(rest, key);
    assert(rest[r] == b[i0]);
    let req = msgs[k];
    assert(indexed(msgs, k + 1) =~= indexed(msgs, k).push((k as u32, msgs[k])));
    let queued = rest[r].1.1.insert((req.chunk_index, req));
    assert(queued =~= indexed(msgs, k + 1).to_multiset());
    assert(queued.len() == k + 1);
    if k + 1 < n {
        lemma_key_index_update(rest, key, (rest[r].1.0, queued));
    } else {
        let d = out->0;
        let s = choose|s: Seq<(u32, Message)>| #![trigger joined(s)]
            s.to_multiset() == queued && sorted_asc(s) && d == joined(s);
        lemma_sorted_indexed(s, msgs, n);
    }
}

proof fn lemma_merge_prefix(
    id: u64,
    msgs: Seq<Message>,
    key: ChunkKey,
    timeout: u64,
    buckets: Seq<Seq<BufEntry>>,
    nows: Seq<u64>,
    removed: Seq<Seq<u64>>,
    outs: Seq<Option<Seq<u8>>>,
    n: int,
    k: int,
)
    requires
        2 <= n <= u32::MAX,
        msgs.len() == n,
        forall|i: int| 0 <= i < n ==> (#[trigger] msgs[i]).chunk_index == i && msgs[i].total_chunks == n,
        buckets.len() == n + 1,
        nows.len() == n,
        removed.len() == n,
        outs.len() == n,
        !has_key(buckets[0], key),
        forall|i: int| 0 <= i < n ==> #[trigger] elapsed(nows[i], nows[0]) <= timeout,
        forall|i: int|
            0 <= i < n ==> #[trigger] merge_outcome(
                buckets[i],
                timeout,
                msgs[i],
                key,
                nows[i],
                buckets[i + 1],
                removed[i],
                outs[i],
            ),
        1 <= k < n,
    ensures
        holds_first(buckets[k], key, nows[0], msgs, k),
        forall|i: int| 0 <= i < k ==> #[trigger] outs[i] is None,
    decreases k,
{
    if k == 1 {
        assert(merge_outcome(buckets[0], timeout, msgs[0], key, nows[0], buckets[1], removed[0], outs[0]));
        lemma_first_merge(buckets[0], timeout, msgs, key, nows[0], buckets[1], removed[0], outs[0], n);
    } else {
        lemma_merge_prefix(id, msgs, key, timeout, buckets, nows, removed, outs, n, k - 1);
        assert(merge_outcome(
            buckets[k - 1],
            timeout,
            msgs[k - 1],
            key,
            nows[k - 1],
            buckets[(k - 1) + 1],
            removed[k - 1],
            outs[k - 1],
        ));
        assert(elapsed(nows[k - 1], nows[0]) <= timeout);
        lemma_next_merge(
            buckets[k - 1],
            timeout,
            msgs,
            key,
            nows[k - 1],
            buckets[k],
            removed[k - 1],
            outs[k - 1],
            nows[0],
            k - 1,
            n,
        );
    }
}

/// Merging the chunks of a payload one after another, in order, into a
/// bucket that holds nothing for the transfer hands back nothing until the
/// last chunk, and the whole payload on the last chunk, provided that no
/// chunk arrives more than the timeout after the first (and that the chunk
/// count fits in a `u32`, as chunk numbers are `u32`).
pub proof fn lemma_chunks_merge_back(
    id: u64,
    data: Seq<u8>,
    p: u32,
    size: nat,
    msgs: Seq<Message>,
    peer: Option<PeerAddr>,
    timeout: u64,
    buckets: Seq<Seq<BufEntry>>,
    nows: Seq<u64>,
    removed: Seq<Seq<u64>>,
    outs: Seq<Option<Seq<u8>>>,
)
    requires
        size > 0,
        data.len() > size,
        is_split(id, data, p, size, msgs),
        msgs.len() <= u32::MAX,
        buckets.len() == msgs.len() + 1,
        nows.len() == msgs.len(),
        removed.len() == msgs.len(),
        outs.len() == msgs.len(),
        !has_key(buckets[0], (peer, id)),
        forall|k: int| 0 <= k < msgs.len() ==> #[trigger] elapsed(nows[k], nows[0]) <= timeout,
        forall|k: int|
            0 <= k < msgs.len() ==> #[trigger] merge_outcome(
                buckets[k],
                timeout,
                msgs[k],
                (peer, id),
                nows[k],
                buckets[k + 1],
                removed[k],
                outs[k],
            ),
    ensures
        msgs.len() >= 2,
        forall|k: int| 0 <= k < msgs.len() - 1 ==> #[trigger] outs[k] is None,
        outs[msgs.len() - 1] == Some(data),
{
    let n = msgs.len() as int;
    let key = (peer, id);
    assert((data.len() - 1) as nat / size >= 1) by (nonlinear_arith)
        requires
            data.len() > size,
            size > 0,
    ;
    assert(n >= 2);
    assert forall|i: int| 0 <= i < n implies (#[trigger] msgs[i]).chunk_index == i && msgs[i].total_chunks == n by {
        assert(chunk_message(id, data, p, size, i, msgs[i]));
    }
    lemma_merge_prefix(id, msgs, key, timeout, buckets, nows, removed, outs, n, n - 1);
    assert(merge_outcome(
        buckets[n - 1],
        timeout,
        msgs[n - 1],
        key,
        nows[n - 1],
        buckets[(n - 1) + 1],
        removed[n - 1],
        outs[n - 1],
    ));
    assert(elapsed(nows[n - 1], nows[0]) <= timeout);
    lemma_next_merge(
        buckets[n - 1],
        timeout,
        msgs,
        key,
        nows[n - 1],
        buckets[n],
        removed[n - 1],
        outs[n - 1],
        nows[0],
        n - 1,
        n,
    );
    assert(indexed(msgs, n).map_values(|e: (u32, Message)| e.1) =~= msgs);
    crate::transfer::lemma_split_join(id, data, p, size, msgs);
}


/// The payloads of `s` joined in order.
fn join_payloads(s: &Vec<(u32, Message)>) -> (out: Vec<u8>)
    ensures
        out@ == joined(s@),
{
    let mut out: Vec<u8> = Vec::new();
    let n = s.len();
    for i in 0..n
        invariant
            n == s@.len(),
            out@ == joined(s@.take(i as int)),
    {
        proof {
            let t = s@.take(i + 1);
            assert(t.map_values(|e: (u32, Message)| e.1).drop_last() =~= s@.take(i as int).map_values(
                |e: (u32, Message)| e.1,
            ));
            assert(t.map_values(|e: (u32, Message)| e.1).last() == s@[i as int].1);
        }
        match &s[i].1.data {
            Some(d) => {
                let mut c = vstd::slice::slice_to_vec(d.as_slice());
                out.append(&mut c);
            },
            None => {},
        }
        proof {
            assert(out@ =~= joined(s@.take(i + 1)));
        }
    }
    proof {
        assert(s@.take(n as int) =~= s@);
    }
    out
}

} // verus!
