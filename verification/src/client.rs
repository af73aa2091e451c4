//! Settings of a transfer client, the endpoint they describe, and the
//! errors of its mailboxes.
use vstd::prelude::*;
use vstd::string::StringExecFns;
use std::time::Duration;
use crate::queue_ext;
use crate::queue_ext::SendErrorKind;
use crate::transfer::{Message, Priority, payload, CHUNK_SIZE_LIMIT};

verus! {

/// Default number of concurrent requests on one connection.
pub const CONCURRENCY_LIMIT: usize = 10;

/// A `Duration` of `secs` whole seconds.
pub uninterp spec fn secs_duration(secs: u64) -> Duration;

/// `std::time::Duration::from_secs`. Trusted: the result is the duration of
/// `secs` seconds, which the contract names; its length in nanoseconds is
/// stated where it is read, by `duration_as_nanos`.
#[verifier::external_body]
pub(crate) fn duration_from_secs(secs: u64) -> (d: Duration)
    ensures
        d == secs_duration(secs),
{
    Duration::from_secs(secs)
}

/// Settings from which a client connects.
pub struct ClientBuilder {
    pub addr: String,
    pub concurrency_limit: usize,
    pub connect_timeout: Option<Duration>,
    pub timeout: Option<Duration>,
    pub tls: bool,
    pub tls_ca: Option<String>,
    pub tls_domain: Option<String>,
    pub auth_token: Option<String>,
    pub chunk_size: usize,
    pub recv_chunks_timeout: Duration,
}

impl Default for ClientBuilder {
    fn default() -> (b: Self)
        ensures
            b.addr@ == Seq::<char>::empty(),
            b.concurrency_limit == CONCURRENCY_LIMIT,
            b.connect_timeout is None,
            b.timeout is None,
            !b.tls,
            b.tls_ca is None,
            b.tls_domain is None,
            b.auth_token is None,
            b.chunk_size == CHUNK_SIZE_LIMIT,
            b.recv_chunks_timeout == secs_duration(crate::chunked::RECV_CHUNKS_TIMEOUT_SECS),
    {
        ClientBuilder {
            addr: String::new(),
            concurrency_limit: CONCURRENCY_LIMIT,
            connect_timeout: None,
            timeout: None,
            tls: false,
            tls_ca: None,
            tls_domain: None,
            auth_token: None,
            chunk_size: CHUNK_SIZE_LIMIT,
            recv_chunks_timeout: duration_from_secs(crate::chunked::RECV_CHUNKS_TIMEOUT_SECS),
        }
    }
}

/// The settings of a client of the server at `addr`, all else default.
pub fn new_client(addr: String) -> (b: ClientBuilder)
    ensures
        b.addr@ == addr@,
        b.concurrency_limit == CONCURRENCY_LIMIT,
        b.connect_timeout is None,
        b.timeout is None,
        !b.tls,
        b.tls_ca is None,
        b.tls_domain is None,
        b.auth_token is None,
        b.chunk_size == CHUNK_SIZE_LIMIT,
        b.recv_chunks_timeout == secs_duration(crate::chunked::RECV_CHUNKS_TIMEOUT_SECS),
{
    let d = ClientBuilder::default();
    ClientBuilder { addr, ..d }
}

impl ClientBuilder {
    /// At most `concurrency_limit` requests at a time.
    pub fn concurrency_limit(self, concurrency_limit: usize) -> (b: Self)
        ensures
            b == (ClientBuilder { concurrency_limit, ..self }),
    {
        ClientBuilder { concurrency_limit, ..self }
    }

    /// Give up connecting after `connect_timeout`.
    pub fn connect_timeout(self, connect_timeout: Duration) -> (b: Self)
        ensures
            b == (ClientBuilder { connect_timeout: Some(connect_timeout), ..self }),
    {
        ClientBuilder { connect_timeout: Some(connect_timeout), ..self }
    }

    /// Give up a request after `timeout`.
    pub fn timeout(self, timeout: Duration) -> (b: Self)
        ensures
            b == (ClientBuilder { timeout: Some(timeout), ..self }),
    {
        ClientBuilder { timeout: Some(timeout), ..self }
    }

    /// Connect over TLS, with an optional CA certificate file and domain name.
    pub fn tls(self, tls_ca: Option<String>, tls_domain: Option<String>) -> (b: Self)
        ensures
            b == (ClientBuilder { tls: true, tls_ca, tls_domain, ..self }),
    {
        ClientBuilder { tls: true, tls_ca, tls_domain, ..self }
    }

    /// Send `token` as a bearer token with every request.
    pub fn auth_token(self, token: Option<String>) -> (b: Self)
        ensures
            b == (ClientBuilder { auth_token: token, ..self }),
    {
        ClientBuilder { auth_token: token, ..self }
    }

    /// Split payloads longer than `chunk_size` bytes into chunks.
    pub fn chunk_size(self, chunk_size: usize) -> (b: Self)
        ensures
            b == (ClientBuilder { chunk_size, ..self }),
    {
        ClientBuilder { chunk_size, ..self }
    }

    /// Wait at most `recv_chunks_timeout` for the chunks of a response.
    pub fn recv_chunks_timeout(self, recv_chunks_timeout: Duration) -> (b: Self)
        ensures
            b == (ClientBuilder { recv_chunks_timeout, ..self }),
    {
        ClientBuilder { recv_chunks_timeout, ..self }
    }
}

/// What a connection is opened with.
pub struct EndpointPlan {
    /// The URI of the server.
    pub uri: String,
    /// Requests in flight at most; never 0.
    pub concurrency_limit: usize,
    pub connect_timeout: Option<Duration>,
    pub timeout: Option<Duration>,
    /// With TLS: the CA certificate file and the domain name to check.
    pub tls: Option<(Option<String>, Option<String>)>,
    /// The value of the `authorization` header, if any.
    pub authorization: Option<String>,
}

/// Why an endpoint cannot be built from the settings.
#[derive(Clone, Copy, Debug, PartialEq, Eq, Structural)]
pub enum EndpointError {
    /// An auth token was given, and it is empty.
    EmptyAuthToken,
}

impl EndpointError {
    /// The error as text.
    pub fn to_string(&self) -> (s: String)
        ensures
            s@ == "auth token is empty"@,
    {
        "auth token is empty".to_owned()
    }
}

/// The `authorization` header for a bearer token: none without a token, an
/// error for an empty one.
pub fn auth_header(token: Option<String>) -> (r: Result<Option<String>, EndpointError>)
    ensures
        token is None ==> r == Ok::<Option<String>, EndpointError>(None),
        token matches Some(t) ==> (t@.len() == 0 <==> r is Err),
        token matches Some(t) ==> (r matches Ok(h) ==> (h matches Some(v) && v@ == "Bearer "@ + t@)),
{
    match token {
        Some(t) => {
            if t.as_str().is_empty() {
                return Err(EndpointError::EmptyAuthToken);
            }
            Ok(Some("Bearer ".to_owned().concat(t.as_str())))
        },
        None => Ok(None),
    }
}

/// The endpoint that connection settings describe: the server at
/// `http://` followed by the address, a concurrency limit of at least 1, and
/// a bearer `authorization` header for a token, which must not be empty.
/// Whether the URI and the header value parse is for the transport to decide
/// when it opens the endpoint; the plan does not judge their syntax.
pub fn build_endpoint(
    addr: &str,
    concurrency_limit: usize,
    connect_timeout: Option<Duration>,
    timeout: Option<Duration>,
    tls: bool,
    tls_ca: Option<String>,
    tls_domain: Option<String>,
    token: Option<String>,
) -> (r: Result<EndpointPlan, EndpointError>)
    ensures
        (token matches Some(t) && t@.len() == 0) <==> r is Err,
        r matches Ok(p) ==> {
            &&& p.uri@ == "http://"@ + addr@
            &&& p.concurrency_limit == if concurrency_limit == 0 { 1 } else { concurrency_limit }
            &&& p.connect_timeout == connect_timeout
            &&& p.timeout == timeout
            &&& (tls ==> (p.tls matches Some(c) && c.0 == tls_ca && c.1 == tls_domain))
            &&& (!tls ==> p.tls is None)
            &&& (token is None ==> p.authorization is None)
            &&& (token matches Some(t) ==> (p.authorization matches Some(h) && h@ == "Bearer "@ + t@))
        },
{
    let tls_cfg = if tls {
        Some((tls_ca, tls_domain))
    } else {
        None
    };
    let authorization = match auth_header(token) {
        Ok(h) => h,
        Err(e) => return Err(e),
    };
    let concurrency_limit = if concurrency_limit == 0 {
        1
    } else {
        concurrency_limit
    };
    let uri = "http://".to_owned().concat(addr);
    Ok(EndpointPlan { uri, concurrency_limit, connect_timeout, timeout, tls: tls_cfg, authorization })
}

/// The failure of a mailbox send.
#[derive(Clone, Debug, PartialEq, Eq)]
pub enum SendError<T> {
    /// The request queue refused the message.
    SendError(queue_ext::SendError<T>),
    /// Anything else, with its description.
    Error(String, Option<T>),
}

impl<T> SendError<T> {
    /// The request queue was full; the item comes back.
    pub fn full(val: T) -> (e: Self)
        ensures
            e matches SendError::SendError(q) && q.why() == SendErrorKind::Full && q.item() == Some(val),
    {
        SendError::SendError(queue_ext::SendError::full(val))
    }

    /// The request queue is closed.
    pub fn disconnected(val: Option<T>) -> (e: Self)
        ensures
            e matches SendError::SendError(q) && q.why() == SendErrorKind::Disconnected && q.item() == val,
    {
        SendError::SendError(queue_ext::SendError::disconnected(val))
    }

    /// Another failure, described by `e`.
    pub fn error(e: String, val: Option<T>) -> (r: Self)
        ensures
            r == SendError::Error(e, val),
    {
        SendError::Error(e, val)
    }

    /// Whether the request queue was full.
    pub fn is_full(&self) -> (b: bool)
        ensures
            b == (self matches SendError::SendError(q) && q.why() == SendErrorKind::Full),
    {
        match self {
            SendError::SendError(e) => e.is_full(),
            SendError::Error(_, _) => false,
        }
    }

    /// Whether the request queue was closed.
    pub fn is_disconnected(&self) -> (b: bool)
        ensures
            b == (self matches SendError::SendError(q) && q.why() == SendErrorKind::Disconnected),
    {
        match self {
            SendError::SendError(e) => e.is_disconnected(),
            SendError::Error(_, _) => false,
        }
    }

    /// The item that could not be sent.
    pub fn into_inner(self) -> (r: Option<T>)
        ensures
            r == match self {
                SendError::SendError(q) => q.item(),
                SendError::Error(_, v) => v,
            },
    {
        match self {
            SendError::SendError(e) => e.into_inner(),
            SendError::Error(_, v) => v,
        }
    }
}

/// The mailbox error for a message the request queue refused: a full queue
/// hands back the message's payload (empty when it has none), a closed one
/// hands it back when it has the message.
pub fn mailbox_error(e: queue_ext::SendError<(Priority, Message)>) -> (r: SendError<Vec<u8>>)
    ensures
        e.why() == SendErrorKind::Full && e.item() is Some ==> (r matches SendError::SendError(q)
            && q.why() == SendErrorKind::Full && (q.item() matches Some(v) && v@ == payload(
            (e.item()->0).1,
        ))),
        e.why() == SendErrorKind::Full && e.item() is None ==> (r matches SendError::SendError(q)
            && q.why() == SendErrorKind::Disconnected && q.item() is None),
        e.why() == SendErrorKind::Disconnected ==> (r matches SendError::SendError(q) && q.why()
            == SendErrorKind::Disconnected && match e.item() {
            Some(m) => q.item() matches Some(v) && v@ == payload(m.1),
            None => q.item() is None,
        }),
{
    if e.is_full() {
        match e.into_inner() {
            Some((_, msg)) => SendError::full(payload_or_empty(msg.data)),
            None => SendError::disconnected(None),
        }
    } else {
        match e.into_inner() {
            Some((_, msg)) => SendError::disconnected(Some(payload_or_empty(msg.data))),
            None => SendError::disconnected(None),
        }
    }
}

/// The duplex mailbox error for a message the request queue refused: the
/// message's data comes back as it was.
pub fn duplex_mailbox_error(e: queue_ext::SendError<(Priority, Message)>) -> (r: SendError<Option<Vec<u8>>>)
    ensures
        e.why() == SendErrorKind::Full && e.item() is Some ==> (r matches SendError::SendError(q)
            && q.why() == SendErrorKind::Full && q.item() == Some((e.item()->0).1.data)),
        e.why() == SendErrorKind::Full && e.item() is None ==> (r matches SendError::SendError(q)
            && q.why() == SendErrorKind::Disconnected && q.item() is None),
        e.why() == SendErrorKind::Disconnected ==> (r matches SendError::SendError(q) && q.why()
            == SendErrorKind::Disconnected && match e.item() {
            Some(m) => q.item() == Some(m.1.data),
            None => q.item() is None,
        }),
{
    if e.is_full() {
        match e.into_inner() {
            Some((_, msg)) => SendError::full(msg.data),
            None => SendError::disconnected(None),
        }
    } else {
        match e.into_inner() {
            Some((_, msg)) => SendError::disconnected(Some(msg.data)),
            None => SendError::disconnected(None),
        }
    }
}

fn payload_or_empty(data: Option<Vec<u8>>) -> (v: Vec<u8>)
    ensures
        v@ == match data {
            Some(d) => d@,
            None => Seq::empty(),
        },
{
    match data {
        Some(d) => d,
        None => Vec::new(),
    }
}

} // verus!
