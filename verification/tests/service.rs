use rust_box::server::{server, TLS};
use std::time::Duration;
use rust_box::chunked::ChunkedBuffer;
use rust_box::client::{auth_header, EndpointError};
use rust_box::service::{
    chunk_empty_result, data_reply, duplex_replies, error_reply, first_data, response_payload, route_response, token_accepted, unary_result,
    Route,
};
use rust_box::transfer::{split_into_chunks, Message};

#[test]
fn replies_are_built_as_expected() {
    let m = chunk_empty_result();
    assert_eq!((m.id, m.priority, m.total_chunks, m.chunk_index), (0, 0, 0, 0));
    assert!(m.data.is_none() && m.err.is_none());
    let m = data_reply(7, vec![1, 2]);
    assert_eq!(m.id, 7);
    assert_eq!(m.data, Some(vec![1, 2]));
    let m = error_reply(8, "boom".to_string());
    assert_eq!(m.id, 8);
    assert_eq!(m.err.as_deref(), Some("boom"));
    assert!(m.data.is_none());
}

#[test]
fn token_check() {
    assert!(token_accepted(&None, &None));
    assert!(token_accepted(&None, &Some("x".into())));
    assert!(token_accepted(&Some("Bearer a".into()), &Some("Bearer a".into())));
    assert!(!token_accepted(&Some("Bearer a".into()), &Some("Bearer b".into())));
    assert!(!token_accepted(&Some("Bearer a".into()), &None));
}

#[test]
fn auth_header_rules() {
    assert_eq!(auth_header(None), Ok(None));
    assert_eq!(auth_header(Some("t".into())), Ok(Some("Bearer t".to_string())));
    assert_eq!(auth_header(Some(String::new())), Err(EndpointError::EmptyAuthToken));
}

#[test]
fn routing_fails_on_error_messages() {
    let mut buf = ChunkedBuffer::new(1_000_000_000);
    let mut removed = Vec::new();
    let msg = Message { id: 3, err: Some("nope".into()), ..Default::default() };
    match route_response(&mut buf, msg, &mut removed, 0) {
        Route::Fail(id, e) => {
            assert_eq!(id, 3);
            assert_eq!(e, "nope");
        }
        _ => panic!("expected a failure"),
    }
}

#[test]
fn routing_delivers_merged_payloads() {
    let mut buf = ChunkedBuffer::new(1_000_000_000);
    let mut removed = Vec::new();
    let data: Vec<u8> = (0..25u8).collect();
    let chunks = split_into_chunks(12, &data, 1, 10);
    let n = chunks.len();
    for (i, m) in chunks.into_iter().enumerate() {
        match route_response(&mut buf, m, &mut removed, 5) {
            Route::Deliver(id, d) => {
                assert_eq!(i + 1, n);
                assert_eq!(id, 12);
                assert_eq!(d, data);
            }
            Route::Wait => assert!(i + 1 < n),
            Route::Fail(_, _) => panic!("unexpected failure"),
        }
    }
    let single = Message { id: 13, data: Some(vec![9]), ..Default::default() };
    assert!(matches!(route_response(&mut buf, single, &mut removed, 5), Route::Deliver(13, ref d) if d == &vec![9u8]));
}

#[test]
fn unary_chunked_answer() {
    assert_eq!(first_data(None, None), None);
    assert_eq!(first_data(None, Some(vec![1])), Some(vec![1]));
    assert_eq!(first_data(Some(vec![1]), Some(vec![2])), Some(vec![1]));
    assert_eq!(unary_result(Some(vec![4])), Ok(vec![4]));
    assert_eq!(unary_result(None), Err("Timeout".to_string()));
    assert_eq!(response_payload(Message::default()), Vec::<u8>::new());
    assert_eq!(response_payload(data_reply(1, vec![5])), vec![5]);
}

#[test]
fn server_settings() {
    let s = server("127.0.0.1:7000", 5u8);
    assert_eq!(s.laddr, "127.0.0.1:7000");
    assert_eq!(s.tx, 5);
    assert!(s.tls.is_none() && s.token.is_none());
    assert_eq!(s.recv_chunks_timeout, Duration::from_secs(30));
    assert!(s.reuseaddr && !s.reuseport);
    assert_eq!(s.chunk_size, 1024 * 1024);
    let tls = TLS { server_cert: "c".into(), server_key: "k".into(), client_ca: None, client_domain: None };
    let s = s
        .tls(tls)
        .token("t".into())
        .recv_chunks_timeout(Duration::from_secs(1))
        .max_decoding_message_size(10)
        .max_encoding_message_size(20)
        .reuseaddr(false)
        .reuseport(true)
        .chunk_size(99);
    assert_eq!(s.tls.as_ref().map(|t| t.server_cert.as_str()), Some("c"));
    assert_eq!(s.token.as_deref(), Some("t"));
    assert_eq!(s.recv_chunks_timeout, Duration::from_secs(1));
    assert_eq!((s.max_decoding_message_size, s.max_encoding_message_size), (Some(10), Some(20)));
    assert!(!s.reuseaddr && s.reuseport);
    assert_eq!(s.chunk_size, 99);
}

#[test]
fn duplex_replies_from_handler_outcomes() {
    let msgs = duplex_replies(5, 2, Ok(vec![1, 2, 3, 4, 5]), 2);
    assert_eq!(msgs.len(), 3);
    assert_eq!(msgs[2].data, Some(vec![5]));
    assert!(msgs.iter().all(|m| m.id == 5 && m.priority == 2 && m.total_chunks == 3));
    assert!(duplex_replies(5, 2, Ok(Vec::new()), 2).is_empty());
    let err = duplex_replies(6, 2, Err("boom".to_string()), 2);
    assert_eq!(err.len(), 1);
    assert_eq!(err[0].id, 6);
    assert_eq!(err[0].err, Some("boom".to_string()));
    assert_eq!(err[0].data, None);
}
