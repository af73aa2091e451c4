use rust_box::chunked::ChunkedBuffer;
use rust_box::transfer::Message;

fn make_msg(id: u64, priority: u32, total_chunks: u32, chunk_index: u32, data: &[u8]) -> Message {
    Message {
        id,
        priority,
        total_chunks,
        chunk_index,
        data: Some(data.to_vec()),
        ..Default::default()
    }
}

const SECOND: u64 = 1_000_000_000;

#[test]
fn test_chunked_buffer_ordered_chunks() {
    let mut buf = ChunkedBuffer::new(30 * SECOND);
    let mut removed = Vec::new();
    assert!(buf.merge(make_msg(10, 1, 3, 0, b"aaa"), None, &mut removed, 0).is_none());
    assert!(buf.merge(make_msg(10, 1, 3, 1, b"bbb"), None, &mut removed, 1).is_none());
    let r = buf.merge(make_msg(10, 1, 3, 2, b"ccc"), None, &mut removed, 2);
    assert_eq!(r, Some((10, 1, b"aaabbbccc".to_vec())));
}

#[test]
fn test_chunked_buffer_out_of_order_chunks() {
    let mut buf = ChunkedBuffer::new(30 * SECOND);
    let mut removed = Vec::new();
    assert!(buf.merge(make_msg(20, 2, 3, 2, b"ccc"), None, &mut removed, 0).is_none());
    assert!(buf.merge(make_msg(20, 2, 3, 0, b"aaa"), None, &mut removed, 0).is_none());
    let r = buf.merge(make_msg(20, 2, 3, 1, b"bbb"), None, &mut removed, 0);
    assert_eq!(r, Some((20, 2, b"aaabbbccc".to_vec())));
}

#[test]
fn test_chunked_buffer_multiple_ids_independent() {
    let mut buf = ChunkedBuffer::new(30 * SECOND);
    let mut removed = Vec::new();
    assert!(buf.merge(make_msg(30, 0, 2, 0, b"msgA-part0"), None, &mut removed, 0).is_none());
    assert!(buf.merge(make_msg(40, 0, 2, 0, b"msgB-part0"), None, &mut removed, 0).is_none());
    let r = buf.merge(make_msg(40, 0, 2, 1, b"msgB-part1"), None, &mut removed, 0);
    assert_eq!(r, Some((40, 0, b"msgB-part0msgB-part1".to_vec())));
    let r = buf.merge(make_msg(30, 0, 2, 1, b"msgA-part1"), None, &mut removed, 0);
    assert_eq!(r, Some((30, 0, b"msgA-part0msgA-part1".to_vec())));
}

#[test]
fn chunked_buffer_peers_are_kept_apart() {
    let mut buf = ChunkedBuffer::new(30 * SECOND);
    let mut removed = Vec::new();
    let a = Some((4u8, 0x7f00_0001u128, 9000u16));
    let b = Some((4u8, 0x7f00_0001u128, 9001u16));
    assert!(buf.merge(make_msg(5, 0, 2, 0, b"a0"), a, &mut removed, 0).is_none());
    assert!(buf.merge(make_msg(5, 0, 2, 1, b"b1"), b, &mut removed, 0).is_none());
    let r = buf.merge(make_msg(5, 0, 2, 1, b"a1"), a, &mut removed, 0);
    assert_eq!(r, Some((5, 0, b"a0a1".to_vec())));
}

#[test]
fn chunked_buffer_stale_transfer_starts_over() {
    let mut buf = ChunkedBuffer::new(10);
    let mut removed = Vec::new();
    assert!(buf.merge(make_msg(50, 0, 2, 0, b"stale"), None, &mut removed, 100).is_none());
    // Same bucket (60 % 10 == 50 % 10), arriving after the timeout.
    assert!(buf.merge(make_msg(60, 0, 2, 0, b"fresh"), None, &mut removed, 200).is_none());
    assert_eq!(removed, vec![50]);
    // The stale transfer starts over: its second chunk alone is not complete.
    assert!(buf.merge(make_msg(50, 0, 2, 1, b"late"), None, &mut removed, 201).is_none());
}

#[test]
fn chunked_buffer_within_timeout_is_kept() {
    let mut buf = ChunkedBuffer::new(10);
    let mut removed = Vec::new();
    assert!(buf.merge(make_msg(70, 0, 2, 0, b"x"), None, &mut removed, 100).is_none());
    assert!(buf.merge(make_msg(80, 0, 2, 0, b"y"), None, &mut removed, 110).is_none());
    assert!(removed.is_empty());
    let r = buf.merge(make_msg(70, 0, 2, 1, b"z"), None, &mut removed, 110);
    assert_eq!(r, Some((70, 0, b"xz".to_vec())));
}

#[test]
fn chunked_buffer_completed_transfer_is_dropped_next_time() {
    let mut buf = ChunkedBuffer::new(30 * SECOND);
    let mut removed = Vec::new();
    assert!(buf.merge(make_msg(3, 0, 2, 0, b"p"), None, &mut removed, 0).is_none());
    assert!(buf.merge(make_msg(3, 0, 2, 1, b"q"), None, &mut removed, 0).is_some());
    // The completed, now empty, transfer sits at the front of bucket 3.
    assert!(buf.merge(make_msg(13, 0, 2, 0, b"r"), None, &mut removed, 0).is_none());
    assert_eq!(removed, vec![3]);
}

#[test]
fn test_chunked_buffer_many_chunks() {
    let mut buf = ChunkedBuffer::new(30 * SECOND);
    let mut removed = Vec::new();
    let total = 20u32;
    let mut done = None;
    for i in (0..total).rev() {
        let r = buf.merge(make_msg(90, 0, total, i, &[i as u8]), None, &mut removed, 0);
        if i > 0 {
            assert!(r.is_none());
        } else {
            done = r;
        }
    }
    let (id, _, data) = done.unwrap();
    assert_eq!(id, 90);
    assert_eq!(data, (0..20u8).collect::<Vec<u8>>());
}

#[test]
fn test_chunked_buffer_single_chunk() {
    let mut buf = ChunkedBuffer::new(30 * SECOND);
    let mut removed = Vec::new();
    let r = buf.merge(make_msg(1, 0, 1, 0, b"single"), None, &mut removed, 0);
    assert!(r.is_some());
    let (id, priority, data) = r.unwrap();
    assert_eq!(id, 1);
    assert_eq!(priority, 0);
    assert_eq!(data, b"single");
}

#[test]
fn test_chunked_buffer_single_chunk_zero_total_chunks() {
    let mut buf = ChunkedBuffer::new(30 * SECOND);
    let mut removed = Vec::new();
    let r = buf.merge(make_msg(1, 0, 0, 0, b"no-chunks"), None, &mut removed, 0);
    assert!(r.is_some());
    let (id, _priority, data) = r.unwrap();
    assert_eq!(id, 1);
    assert_eq!(data, b"no-chunks");
}

#[test]
fn test_chunked_buffer_timeout_clears_stale() {
    let millis: u64 = 1_000_000;
    let mut buf = ChunkedBuffer::new(10 * millis);
    let mut removed = Vec::new();
    let _ = buf.merge(make_msg(50, 0, 2, 0, b"stale"), None, &mut removed, 0);
    // 20 ms later, past the timeout.
    let r = buf.merge(make_msg(60, 0, 1, 0, b"fresh"), None, &mut removed, 20 * millis);
    assert!(r.is_some());
    let (id, _, data) = r.unwrap();
    assert_eq!(id, 60);
    assert_eq!(data, b"fresh");
}

#[test]
fn test_chunked_buffer_removed_ids_tracking() {
    let millis: u64 = 1_000_000;
    let mut buf = ChunkedBuffer::new(50 * millis);
    let mut removed_ids = Vec::new();
    let _ = buf.merge(make_msg(70, 0, 2, 0, b"stale"), None, &mut removed_ids, 0);
    // 100 ms later, past the timeout.
    let _ = buf.merge(make_msg(80, 0, 2, 0, b"trigger"), None, &mut removed_ids, 100 * millis);
    assert!(removed_ids.contains(&70), "stale entry id=70 should be in removed_ids");
}
