use rust_box::client::{
    build_endpoint, duplex_mailbox_error, mailbox_error, new_client, ClientBuilder, EndpointError, SendError,
    CONCURRENCY_LIMIT,
};
use rust_box::queue_ext;
use rust_box::transfer::{Message, CHUNK_SIZE_LIMIT};
use std::time::Duration;

#[test]
fn builder_defaults() {
    let b = ClientBuilder::default();
    assert_eq!(b.addr, "");
    assert_eq!(b.concurrency_limit, 10);
    assert_eq!(CONCURRENCY_LIMIT, 10);
    assert!(b.connect_timeout.is_none());
    assert!(b.timeout.is_none());
    assert!(!b.tls);
    assert!(b.auth_token.is_none());
    assert_eq!(b.chunk_size, 1024 * 1024);
    assert_eq!(b.chunk_size, CHUNK_SIZE_LIMIT);
    assert_eq!(b.recv_chunks_timeout, Duration::from_secs(30));
}

#[test]
fn builder_setters() {
    let b = new_client("127.0.0.1:10000".to_string())
        .concurrency_limit(3)
        .connect_timeout(Duration::from_secs(5))
        .timeout(Duration::from_millis(700))
        .tls(Some("ca.pem".to_string()), None)
        .auth_token(Some("abc".to_string()))
        .chunk_size(64)
        .recv_chunks_timeout(Duration::from_secs(9));
    assert_eq!(b.addr, "127.0.0.1:10000");
    assert_eq!(b.concurrency_limit, 3);
    assert_eq!(b.connect_timeout, Some(Duration::from_secs(5)));
    assert_eq!(b.timeout, Some(Duration::from_millis(700)));
    assert!(b.tls);
    assert_eq!(b.tls_ca.as_deref(), Some("ca.pem"));
    assert!(b.tls_domain.is_none());
    assert_eq!(b.auth_token.as_deref(), Some("abc"));
    assert_eq!(b.chunk_size, 64);
    assert_eq!(b.recv_chunks_timeout, Duration::from_secs(9));
}

#[test]
fn endpoint_plan_defaults() {
    let p = build_endpoint("host:1", 0, None, None, false, None, None, None).unwrap();
    assert_eq!(p.uri, "http://host:1");
    assert_eq!(p.concurrency_limit, 1);
    assert!(p.tls.is_none());
    assert!(p.authorization.is_none());
}

#[test]
fn endpoint_plan_with_token_and_tls() {
    let p = build_endpoint(
        "h:2",
        8,
        Some(Duration::from_secs(1)),
        Some(Duration::from_secs(2)),
        true,
        None,
        Some("example.org".to_string()),
        Some("t0k".to_string()),
    )
    .unwrap();
    assert_eq!(p.concurrency_limit, 8);
    assert_eq!(p.authorization.as_deref(), Some("Bearer t0k"));
    assert_eq!(p.tls, Some((None, Some("example.org".to_string()))));
    assert_eq!(p.connect_timeout, Some(Duration::from_secs(1)));
    assert_eq!(p.timeout, Some(Duration::from_secs(2)));
}

#[test]
fn endpoint_empty_token_is_refused() {
    let e = build_endpoint("h", 1, None, None, false, None, None, Some(String::new()));
    assert!(matches!(e, Err(EndpointError::EmptyAuthToken)));
    assert_eq!(EndpointError::EmptyAuthToken.to_string(), "auth token is empty");
}

#[test]
fn grpc_send_error_kinds() {
    let e = SendError::full(vec![1u8]);
    assert!(e.is_full());
    assert!(!e.is_disconnected());
    assert_eq!(e.into_inner(), Some(vec![1u8]));
    let e = SendError::<Vec<u8>>::disconnected(None);
    assert!(e.is_disconnected());
    assert_eq!(e.into_inner(), None);
    let e = SendError::error("Timeout".to_string(), Some(7u8));
    assert!(!e.is_full());
    assert!(!e.is_disconnected());
    assert_eq!(e.into_inner(), Some(7));
    let _err: SendError<()> = SendError::disconnected(None);
}

fn msg_with(data: Option<Vec<u8>>) -> Message {
    Message { id: 1, data, ..Default::default() }
}

#[test]
fn mailbox_error_hands_back_payload() {
    let e = mailbox_error(queue_ext::SendError::full((3, msg_with(Some(vec![9, 8])))));
    assert!(e.is_full());
    assert_eq!(e.into_inner(), Some(vec![9, 8]));
    let e = mailbox_error(queue_ext::SendError::full((3, msg_with(None))));
    assert!(e.is_full());
    assert_eq!(e.into_inner(), Some(vec![]));
    let e = mailbox_error(queue_ext::SendError::disconnected(Some((3, msg_with(Some(vec![1]))))));
    assert!(e.is_disconnected());
    assert_eq!(e.into_inner(), Some(vec![1]));
    let e = mailbox_error(queue_ext::SendError::disconnected(None));
    assert!(e.is_disconnected());
    assert_eq!(e.into_inner(), None);
}

#[test]
fn duplex_mailbox_error_hands_back_data() {
    let e = duplex_mailbox_error(queue_ext::SendError::full((0, msg_with(None))));
    assert!(e.is_full());
    assert_eq!(e.into_inner(), Some(None));
    let e = duplex_mailbox_error(queue_ext::SendError::disconnected(Some((0, msg_with(Some(vec![4]))))));
    assert!(e.is_disconnected());
    assert_eq!(e.into_inner(), Some(Some(vec![4])));
}
