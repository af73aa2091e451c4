//! Settings of a transfer server.
use vstd::prelude::*;
use std::time::Duration;
use crate::chunked::RECV_CHUNKS_TIMEOUT_SECS;
use crate::client::{secs_duration, duration_from_secs};
use crate::transfer::CHUNK_SIZE_LIMIT;

verus! {

/// Certificate and key files of a TLS server, and what clients check.
#[derive(Clone, Debug)]
pub struct TLS {
    pub server_cert: String,
    pub server_key: String,
    pub client_ca: Option<String>,
    pub client_domain: Option<String>,
}

/// Settings of a server listening on `laddr` that hands requests to `tx`.
pub struct Server<A, Tx> {
    pub laddr: A,
    pub tx: Tx,
    pub tls: Option<TLS>,
    pub token: Option<String>,
    pub recv_chunks_timeout: Duration,
    pub max_decoding_message_size: Option<usize>,
    pub max_encoding_message_size: Option<usize>,
    pub reuseaddr: bool,
    pub reuseport: bool,
    pub chunk_size: usize,
}

/// A server on `laddr` handing requests to `tx`: no TLS, no token, the
/// default chunk timeout and chunk size, no message size limits, reusing
/// the address but not the port.
pub fn server<A, Tx>(laddr: A, tx: Tx) -> (s: Server<A, Tx>)
    ensures
        s.laddr == laddr,
        s.tx == tx,
        s.tls is None,
        s.token is None,
        s.recv_chunks_timeout == secs_duration(RECV_CHUNKS_TIMEOUT_SECS),
        s.max_decoding_message_size is None,
        s.max_encoding_message_size is None,
        s.reuseaddr,
        !s.reuseport,
        s.chunk_size == CHUNK_SIZE_LIMIT,
{
    Server {
        laddr,
        tx,
        tls: None,
        token: None,
        recv_chunks_timeout: duration_from_secs(RECV_CHUNKS_TIMEOUT_SECS),
        max_decoding_message_size: None,
        max_encoding_message_size: None,
        reuseaddr: true,
        reuseport: false,
        chunk_size: CHUNK_SIZE_LIMIT,
    }
}

impl<A, Tx> Server<A, Tx> {
    /// Serve over TLS.
    pub fn tls(self, tls: TLS) -> (s: Self)
        ensures
            s == (Server { tls: Some(tls), ..self }),
    {
        Server { tls: Some(tls), ..self }
    }

    /// Accept only requests with this bearer token.
    pub fn token(self, token: String) -> (s: Self)
        ensures
            s == (Server { token: Some(token), ..self }),
    {
        Server { token: Some(token), ..self }
    }

    /// Wait at most `recv_chunks_timeout` for the chunks of a request.
    pub fn recv_chunks_timeout(self, recv_chunks_timeout: Duration) -> (s: Self)
        ensures
            s == (Server { recv_chunks_timeout, ..self }),
    {
        Server { recv_chunks_timeout, ..self }
    }

    /// Refuse incoming messages larger than this.
    pub fn max_decoding_message_size(self, max_decoding_message_size: usize) -> (s: Self)
        ensures
            s == (Server { max_decoding_message_size: Some(max_decoding_message_size), ..self }),
    {
        Server { max_decoding_message_size: Some(max_decoding_message_size), ..self }
    }

    /// Refuse outgoing messages larger than this.
    pub fn max_encoding_message_size(self, max_encoding_message_size: usize) -> (s: Self)
        ensures
            s == (Server { max_encoding_message_size: Some(max_encoding_message_size), ..self }),
    {
        Server { max_encoding_message_size: Some(max_encoding_message_size), ..self }
    }

    /// Whether to reuse the listening address.
    pub fn reuseaddr(self, reuseaddr: bool) -> (s: Self)
        ensures
            s == (Server { reuseaddr, ..self }),
    {
        Server { reuseaddr, ..self }
    }

    /// Whether to reuse the listening port.
    pub fn reuseport(self, reuseport: bool) -> (s: Self)
        ensures
            s == (Server { reuseport, ..self }),
    {
        Server { reuseport, ..self }
    }

    /// Answer with chunks of at most `chunk_size` bytes.
    pub fn chunk_size(self, chunk_size: usize) -> (s: Self)
        ensures
            s == (Server { chunk_size, ..self }),
    {
        Server { chunk_size, ..self }
    }
}

} // verus!
