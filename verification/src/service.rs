//! The decisions of the transfer service and of a duplex mailbox: which
//! reply a request gets, whether a caller's token passes, and what a
//! received response message resolves.
use vstd::prelude::*;
use crate::chunked::{ChunkedBuffer, PeerAddr, merged, result_view};
use crate::transfer::{Message, payload, is_split, split_into_chunks};

verus! {

/// The reply to a request whose transfer is not complete yet: a message
/// with nothing in it.
pub fn chunk_empty_result() -> (m: Message)
    ensures
        m.id == 0,
        m.priority == 0,
        m.total_chunks == 0,
        m.chunk_index == 0,
        m.data is None,
        m.err is None,
{
    Message::default()
}

/// The reply carrying the answer `data` to request `id`.
pub fn data_reply(id: u64, data: Vec<u8>) -> (m: Message)
    ensures
        m.id == id,
        m.priority == 0,
        m.total_chunks == 0,
        m.chunk_index == 0,
        m.data == Some(data),
        m.err is None,
{
    Message { id, priority: 0, total_chunks: 0, chunk_index: 0, data: Some(data), err: None }
}

/// The reply reporting the failure `err` of request `id`.
pub fn error_reply(id: u64, err: String) -> (m: Message)
    ensures
        m.id == id,
        m.priority == 0,
        m.total_chunks == 0,
        m.chunk_index == 0,
        m.data is None,
        m.err == Some(err),
{
    Message { id, priority: 0, total_chunks: 0, chunk_index: 0, data: None, err: Some(err) }
}

/// Whether a request carrying the `authorization` header `got` passes a
/// server that expects `expected`: always when no header is expected,
/// otherwise only with exactly that header.
pub fn token_accepted(expected: &Option<String>, got: &Option<String>) -> (b: bool)
    ensures
        b == match expected {
            None => true,
            Some(e) => got matches Some(g) && g@ == e@,
        },
{
    match expected {
        None => true,
        Some(e) => match got {
            Some(g) => *g == *e,
            None => false,
        },
    }
}

/// What a response message resolves at a duplex mailbox.
pub enum Route {
    /// Request `id` failed with this description.
    Fail(u64, String),
    /// Request `id` is answered with this payload.
    Deliver(u64, Vec<u8>),
    /// Nothing is resolved yet.
    Wait,
}

/// Handles one response message at a duplex mailbox: a message that reports
/// an error fails its request at once; any other message is merged into
/// `buffer` (as `ChunkedBuffer::merge` does, with no peer address, appending
/// the ids of dropped transfers to `removed_ids`), and a completed payload
/// answers its request.
pub fn route_response(buffer: &mut ChunkedBuffer, msg: Message, removed_ids: &mut Vec<u64>, now: u64) -> (r: Route)
    requires
        old(buffer).wf(),
    ensures
        final(buffer).wf(),
        final(buffer).timeout() == old(buffer).timeout(),
        msg.err matches Some(e) ==> {
            &&& r matches Route::Fail(id, s) && id == msg.id && s == e
            &&& final(buffer)@ == old(buffer)@
            &&& final(removed_ids)@ == old(removed_ids)@
        },
        msg.err is None ==> exists|out: Option<(u64, u32, Seq<u8>)>| {
            &&& #[trigger] merged(
                old(buffer)@,
                old(buffer).timeout(),
                msg,
                None::<PeerAddr>,
                now,
                final(buffer)@,
                old(removed_ids)@,
                final(removed_ids)@,
                out,
            )
            &&& match out {
                Some(t) => r matches Route::Deliver(id, d) && id == t.0 && d@ == t.2,
                None => r is Wait,
            }
        },
{
    match msg.err {
        Some(e) => Route::Fail(msg.id, e),
        None => {
            let ghost m = msg;
            let r = buffer.merge(msg, None, removed_ids, now);
            proof {
                let out = result_view(r);
                assert(merged(
                    old(buffer)@,
                    old(buffer).timeout(),
                    m,
                    None::<PeerAddr>,
                    now,
                    buffer@,
                    old(removed_ids)@,
                    removed_ids@,
                    out,
                ));
            }
            match r {
                Some((id, _, data)) => Route::Deliver(id, data),
                None => Route::Wait,
            }
        },
    }
}

/// The answer to a unary chunked send so far: the first response that
/// carried data wins.
pub fn first_data(acc: Option<Vec<u8>>, resp: Option<Vec<u8>>) -> (r: Option<Vec<u8>>)
    ensures
        acc is Some ==> r == acc,
        acc is None ==> r == resp,
{
    match acc {
        Some(a) => Some(a),
        None => resp,
    }
}

/// The result of a unary chunked send once every chunk is answered: the
/// data, or a timeout when no response carried any.
pub fn unary_result(acc: Option<Vec<u8>>) -> (r: Result<Vec<u8>, String>)
    ensures
        acc matches Some(d) ==> r == Ok::<Vec<u8>, String>(d),
        acc is None ==> (r matches Err(e) && e@ == "Timeout"@),
{
    match acc {
        Some(d) => Ok(d),
        None => Err("Timeout".to_owned()),
    }
}

/// The payload of a unary (single message) response; none reads as empty.
pub fn response_payload(msg: Message) -> (d: Vec<u8>)
    ensures
        d@ == payload(msg),
{
    match msg.data {
        Some(d) => d,
        None => Vec::new(),
    }
}

/// The messages that answer request `id` on a duplex stream, from what the
/// handler gave back: its error as one error reply, or its data split into
/// chunks of at most `chunk_size` bytes with the request's priority (no
/// message at all for empty data).
pub fn duplex_replies(id: u64, priority: u32, outcome: Result<Vec<u8>, String>, chunk_size: usize) -> (msgs: Vec<Message>)
    requires
        chunk_size > 0,
    ensures
        match outcome {
            Err(e) => msgs@.len() == 1 && msgs@[0] == error_reply_message(id, e),
            Ok(data) => is_split(id, data@, priority, chunk_size as nat, msgs@),
        },
{
    match outcome {
        Err(e) => {
            let m = error_reply(id, e);
            let mut out: Vec<Message> = Vec::new();
            out.push(m);
            out
        },
        Ok(data) => split_into_chunks(id, data.as_slice(), priority, chunk_size),
    }
}

/// The error reply to request `id` with message `e`.
pub open spec fn error_reply_message(id: u64, e: String) -> Message {
    Message { id, priority: 0, total_chunks: 0, chunk_index: 0, data: None, err: Some(e) }
}

} // verus!
