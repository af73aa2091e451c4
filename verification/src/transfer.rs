//! Framing of a payload into transfer messages: a payload larger than the
//! chunk size goes out as numbered chunks, a smaller one as a single message.
use vstd::prelude::*;

/// Errors and results of transfers.
pub use anyhow::{Error, Result};

verus! {

/// Priority of a transfer; greater goes first.
pub type Priority = u32;

/// Identifier of a transfer.
pub type Id = u64;

/// The largest payload, in bytes, that goes out as one message by default.
pub const CHUNK_SIZE_LIMIT: usize = 1048576;

/// One message of a transfer. `total_chunks` is 0 or 1 for a message that
/// carries a whole payload, and the number of chunks otherwise; `chunk_index`
/// numbers the chunks of one payload from 0.
pub struct Message {
    pub id: u64,
    pub priority: u32,
    pub total_chunks: u32,
    pub chunk_index: u32,
    pub data: Option<Vec<u8>>,
    pub err: Option<String>,
}

impl Default for Message {
    fn default() -> (m: Self)
        ensures
            m.id == 0,
            m.priority == 0,
            m.total_chunks == 0,
            m.chunk_index == 0,
            m.data is None,
            m.err is None,
    {
        Message { id: 0, priority: 0, total_chunks: 0, chunk_index: 0, data: None, err: None }
    }
}

/// The bytes a message carries; none reads as empty.
pub open spec fn payload(m: Message) -> Seq<u8> {
    match m.data {
        Some(v) => v@,
        None => Seq::empty(),
    }
}

/// The payloads of `msgs`, one after another.
pub open spec fn payloads(msgs: Seq<Message>) -> Seq<u8>
    decreases msgs.len(),
{
    if msgs.len() == 0 {
        Seq::empty()
    } else {
        payloads(msgs.drop_last()) + payload(msgs.last())
    }
}

/// Number of chunks of at most `size` bytes that `len` bytes make.
pub open spec fn chunk_count(len: nat, size: nat) -> nat {
    if len == 0 {
        0
    } else {
        ((len - 1) as nat / size + 1) as nat
    }
}

/// Offset of the end of chunk `i`.
pub open spec fn chunk_end(len: nat, size: nat, i: int) -> int {
    if i * size + size < len {
        i * size + size
    } else {
        len as int
    }
}

/// Chunk `i` of `data`: bytes `i * size` up to the next `size` bytes or the end.
pub open spec fn chunk_at(data: Seq<u8>, size: nat, i: int) -> Seq<u8> {
    data.subrange(i * size, chunk_end(data.len(), size, i))
}

/// Message `i` of a payload split into chunks of `size` bytes.
pub open spec fn chunk_message(id: u64, data: Seq<u8>, p: u32, size: nat, i: int, m: Message) -> bool {
    &&& m.id == id
    &&& m.priority == p
    &&& m.total_chunks == chunk_count(data.len(), size) as u32
    &&& m.chunk_index == i as u32
    &&& m.data matches Some(v) && v@ == chunk_at(data, size, i)
    &&& m.err is None
}

/// `msgs` is `data` split into chunks of `size` bytes, in order.
pub open spec fn is_split(id: u64, data: Seq<u8>, p: u32, size: nat, msgs: Seq<Message>) -> bool {
    &&& msgs.len() == chunk_count(data.len(), size)
    &&& forall|i: int| 0 <= i < msgs.len() ==> chunk_message(id, data, p, size, i, #[trigger] msgs[i])
}

proof fn lemma_chunk_bounds(len: nat, size: nat, i: int)
    requires
        size > 0,
        0 <= i < chunk_count(len, size),
    ensures
        0 <= i * size < len,
        i * size < chunk_end(len, size, i) <= len,
        chunk_end(len, size, i) <= i * size + size,
        i + 1 < chunk_count(len, size) ==> chunk_end(len, size, i) == (i + 1) * size,
        i + 1 == chunk_count(len, size) ==> chunk_end(len, size, i) == len,
{
    let q = (len - 1) as nat / size;
    assert(i <= q);
    assert(q * size <= len - 1) by (nonlinear_arith)
        requires
            q == (len - 1) as nat / size,
            size > 0,
            len > 0,
    ;
    assert(len - 1 < q * size + size) by (nonlinear_arith)
        requires
            q == (len - 1) as nat / size,
            size > 0,
            len > 0,
    ;
    assert(0 <= i * size <= q * size) by (nonlinear_arith)
        requires
            0 <= i <= q,
            size > 0,
    ;
    assert((i + 1) * size == i * size + size) by (nonlinear_arith);
    if i + 1 < chunk_count(len, size) {
        assert((i + 1) * size <= q * size) by (nonlinear_arith)
            requires
                i + 1 <= q,
                size > 0,
        ;
    }
}

/// Bytes of the first `k` chunks, joined.
proof fn lemma_chunks_join(data: Seq<u8>, size: nat, msgs: Seq<Message>, id: u64, p: u32, k: int)
    requires
        size > 0,
        is_split(id, data, p, size, msgs),
        0 <= k <= msgs.len(),
    ensures
        k < msgs.len() ==> payloads(msgs.subrange(0, k)) == data.subrange(0, k * size),
        k == msgs.len() ==> payloads(msgs.subrange(0, k)) == data,
    decreases k,
{
    let n = msgs.len();
    if k == 0 {
        assert(msgs.subrange(0, 0) =~= Seq::<Message>::empty());
        assert(data.subrange(0, 0) =~= Seq::<u8>::empty());
        if n == 0 {
            assert(data.len() == 0);
            assert(data =~= Seq::<u8>::empty());
        }
    } else {
        lemma_chunks_join(data, size, msgs, id, p, k - 1);
        lemma_chunk_bounds(data.len(), size, k - 1);
        let pre = msgs.subrange(0, k);
        assert(pre.drop_last() =~= msgs.subrange(0, k - 1));
        assert(pre.last() == msgs[k - 1]);
        assert(chunk_message(id, data, p, size, k - 1, msgs[k - 1]));
        assert(payload(msgs[k - 1]) == chunk_at(data, size, k - 1));
        assert((k - 1) * size + size == k * size) by (nonlinear_arith);
        if k < n {
            assert(data.subrange(0, k * size) =~= data.subrange(0, (k - 1) * size) + data.subrange(
                (k - 1) * size,
                k * size,
            ));
        } else {
            assert(data =~= data.subrange(0, (k - 1) * size) + data.subrange(
                (k - 1) * size,
                data.len() as int,
            ));
        }
    }
}

/// Joining the chunks of a split payload, in order, gives the payload back.
pub proof fn lemma_split_join(id: u64, data: Seq<u8>, p: u32, size: nat, msgs: Seq<Message>)
    requires
        size > 0,
        is_split(id, data, p, size, msgs),
    ensures
        payloads(msgs) == data,
{
    lemma_chunks_join(data, size, msgs, id, p, msgs.len() as int);
    assert(msgs.subrange(0, msgs.len() as int) =~= msgs);
}

/// Every chunk of a split payload is non-empty and at most `size` bytes long.
pub proof fn lemma_split_chunk_sizes(id: u64, data: Seq<u8>, p: u32, size: nat, msgs: Seq<Message>, i: int)
    requires
        size > 0,
        is_split(id, data, p, size, msgs),
        0 <= i < msgs.len(),
    ensures
        0 < payload(msgs[i]).len() <= size,
{
    lemma_chunk_bounds(data.len(), size, i);
    assert(chunk_message(id, data, p, size, i, msgs[i]));
}

/// Splits `data` into messages of at most `chunk_size` bytes each, numbered
/// from 0; every message carries the count of chunks.
pub fn split_into_chunks(id: u64, data: &[u8], p: u32, chunk_size: usize) -> (msgs: Vec<Message>)
    requires
        chunk_size > 0,
    ensures
        is_split(id, data@, p, chunk_size as nat, msgs@),
{
    let n = data.len();
    let count: usize = if n == 0 {
        0
    } else {
        (n - 1) / chunk_size + 1
    };
    assert(count == chunk_count(n as nat, chunk_size as nat));
    #[verifier::truncate]
    let total: u32 = count as u32;
    let mut out: Vec<Message> = Vec::new();
    for i in 0..count
        invariant
            n == data@.len(),
            chunk_size > 0,
            count == chunk_count(n as nat, chunk_size as nat),
            total == count as u32,
            out@.len() == i,
            forall|j: int| 0 <= j < i ==> chunk_message(id, data@, p, chunk_size as nat, j, #[trigger] out@[j]),
    {
        proof {
            lemma_chunk_bounds(n as nat, chunk_size as nat, i as int);
        }
        let start: usize = i * chunk_size;
        let end: usize = if n - start > chunk_size {
            start + chunk_size
        } else {
            n
        };
        let bytes = vstd::slice::slice_to_vec(vstd::slice::slice_subrange(data, start, end));
        #[verifier::truncate]
        let index: u32 = i as u32;
        let m = Message {
            id,
            priority: p,
            total_chunks: total,
            chunk_index: index,
            data: Some(bytes),
            err: None,
        };
        out.push(m);
    }
    out
}

/// The messages that carry `data` of transfer `id` with priority `p`: the
/// chunks of `data` when it is longer than `chunk_size`, else one message
/// with the whole payload and a chunk count of 0.
pub open spec fn is_outgoing(id: u64, data: Seq<u8>, p: u32, chunk_size: nat, msgs: Seq<Message>) -> bool {
    if data.len() > chunk_size {
        is_split(id, data, p, chunk_size, msgs)
    } else {
        &&& msgs.len() == 1
        &&& msgs[0].id == id
        &&& msgs[0].priority == p
        &&& msgs[0].total_chunks == 0
        &&& msgs[0].chunk_index == 0
        &&& msgs[0].data matches Some(v) && v@ == data
        &&& msgs[0].err is None
    }
}

/// The messages that a sender puts on the wire for one payload.
pub fn outgoing_messages(id: u64, data: Vec<u8>, p: u32, chunk_size: usize) -> (msgs: Vec<Message>)
    requires
        chunk_size > 0 || data@.len() == 0,
    ensures
        is_outgoing(id, data@, p, chunk_size as nat, msgs@),
{
    if data.len() > chunk_size {
        split_into_chunks(id, data.as_slice(), p, chunk_size)
    } else {
        let ghost d = data@;
        let m = Message { id, priority: p, total_chunks: 0, chunk_index: 0, data: Some(data), err: None };
        let mut out: Vec<Message> = Vec::new();
        out.push(m);
        proof {
            assert(out@[0] == m);
        }
        out
    }
}

/// Whatever way a payload goes out, the messages carry it whole, in order.
pub proof fn lemma_outgoing_join(id: u64, data: Seq<u8>, p: u32, chunk_size: nat, msgs: Seq<Message>)
    requires
        chunk_size > 0 || data.len() == 0,
        is_outgoing(id, data, p, chunk_size, msgs),
    ensures
        payloads(msgs) == data,
{
    if data.len() > chunk_size {
        lemma_split_join(id, data, p, chunk_size, msgs);
    } else {
        assert(msgs.drop_last() =~= Seq::<Message>::empty());
        assert(payloads(msgs.drop_last()) =~= Seq::<u8>::empty());
        assert(payloads(msgs) =~= data);
    }
}

} // verus!
