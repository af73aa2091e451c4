use rust_box::chunked::{ChunkedBuffer, DATA_BUFFSES_MAX};
use rust_box::transfer::{outgoing_messages, split_into_chunks, Error, Message, Result};

fn make_msg(id: u64, priority: u32, total_chunks: u32, chunk_index: u32, data: &[u8]) -> Message {
    Message {
        id,
        priority,
        total_chunks,
        chunk_index,
        data: Some(data.to_vec()),
        ..Default::default()
    }
}

#[test]
fn test_split_into_chunks_small_data() {
    let data = b"hello world";
    let chunks = split_into_chunks(42, data, 5, 1024);
    assert_eq!(chunks.len(), 1);
    assert_eq!(chunks[0].id, 42);
    assert_eq!(chunks[0].priority, 5);
    assert_eq!(chunks[0].total_chunks, 1);
    assert_eq!(chunks[0].chunk_index, 0);
    assert_eq!(chunks[0].data.as_deref(), Some(&data[..]));
}

#[test]
fn test_split_into_chunks_large_data() {
    let id = 100;
    let data: Vec<u8> = (0..5000).map(|i| (i % 256) as u8).collect();
    let chunk_size = 1024;
    let chunks = split_into_chunks(id, &data, 0, chunk_size);
    // ceil(5000/1024) = 5
    assert_eq!(chunks.len(), 5);
    for chunk in &chunks {
        assert_eq!(chunk.id, id);
        assert_eq!(chunk.total_chunks, 5);
    }
    let mut merged = Vec::new();
    for chunk in chunks {
        merged.extend_from_slice(chunk.data.as_deref().unwrap());
    }
    assert_eq!(merged, data);
}

#[test]
fn test_split_into_chunks_empty_data() {
    let data: &[u8] = &[];
    let chunks = split_into_chunks(1, data, 0, 64);
    assert_eq!(chunks.len(), 0);
}

#[test]
fn test_split_into_chunks_exact_boundary() {
    let data = vec![42u8; 1024];
    let chunks = split_into_chunks(2, &data, 0, 1024);
    assert_eq!(chunks.len(), 1);
    assert_eq!(chunks[0].data.as_deref(), Some(&data[..]));
}

#[test]
fn test_split_into_chunks_multiple_of_chunk_size() {
    let data = vec![7u8; 2048];
    let chunks = split_into_chunks(3, &data, 1, 1024);
    assert_eq!(chunks.len(), 2);
    assert_eq!(chunks[0].total_chunks, 2);
    assert_eq!(chunks[1].total_chunks, 2);
    let mut merged = Vec::new();
    for chunk in chunks {
        merged.extend_from_slice(chunk.data.as_deref().unwrap());
    }
    assert_eq!(merged, data);
}

#[test]
fn test_split_into_chunks_preserves_chunk_indices() {
    let data = vec![0u8; 2500];
    let chunks = split_into_chunks(4, &data, 0, 1000);
    assert_eq!(chunks.len(), 3);
    assert_eq!(chunks[0].chunk_index, 0);
    assert_eq!(chunks[1].chunk_index, 1);
    assert_eq!(chunks[2].chunk_index, 2);
    assert_eq!(chunks[0].data.as_ref().unwrap().len(), 1000);
    assert_eq!(chunks[1].data.as_ref().unwrap().len(), 1000);
    assert_eq!(chunks[2].data.as_ref().unwrap().len(), 500);
}

#[test]
fn test_split_into_chunks_different_ids() {
    let data = b"test data";
    let chunks_a = split_into_chunks(10, data, 0, 1024);
    let chunks_b = split_into_chunks(20, data, 0, 1024);
    assert_eq!(chunks_a[0].id, 10);
    assert_eq!(chunks_b[0].id, 20);
}

#[test]
fn test_split_into_chunks_different_priorities() {
    let data = b"priority test";
    let chunks = split_into_chunks(5, data, 99, 1024);
    assert_eq!(chunks[0].priority, 99);
}

#[test]
fn test_error_result_reexported() {
    let _err: Error = anyhow::Error::msg("test error");
    let _res: Result<i32> = Ok(42);
}

#[test]
fn message_default_is_empty() {
    let msg = Message::default();
    assert_eq!(msg.id, 0);
    assert_eq!(msg.priority, 0);
    assert_eq!(msg.total_chunks, 0);
    assert_eq!(msg.chunk_index, 0);
    assert!(msg.data.is_none());
    assert!(msg.err.is_none());
}

#[test]
fn split_chunks_carry_exact_slices() {
    let data: Vec<u8> = (0..10u8).collect();
    let chunks = split_into_chunks(9, &data, 3, 4);
    assert_eq!(chunks.len(), 3);
    assert_eq!(chunks[0].data.as_deref(), Some(&[0u8, 1, 2, 3][..]));
    assert_eq!(chunks[1].data.as_deref(), Some(&[4u8, 5, 6, 7][..]));
    assert_eq!(chunks[2].data.as_deref(), Some(&[8u8, 9][..]));
    assert!(chunks.iter().all(|m| m.total_chunks == 3 && m.err.is_none()));
}

#[test]
fn split_with_chunk_size_one() {
    let chunks = split_into_chunks(1, b"abc", 0, 1);
    assert_eq!(chunks.len(), 3);
    assert_eq!(chunks[2].chunk_index, 2);
    assert_eq!(chunks[2].data.as_deref(), Some(&b"c"[..]));
}

#[test]
fn outgoing_small_payload_is_one_message() {
    let msgs = outgoing_messages(7, b"tiny".to_vec(), 2, 16);
    assert_eq!(msgs.len(), 1);
    assert_eq!(msgs[0].id, 7);
    assert_eq!(msgs[0].priority, 2);
    assert_eq!(msgs[0].total_chunks, 0);
    assert_eq!(msgs[0].chunk_index, 0);
    assert_eq!(msgs[0].data.as_deref(), Some(&b"tiny"[..]));
}

#[test]
fn outgoing_payload_at_chunk_size_is_not_split() {
    let msgs = outgoing_messages(7, vec![1u8; 16], 0, 16);
    assert_eq!(msgs.len(), 1);
    assert_eq!(msgs[0].total_chunks, 0);
}

#[test]
fn outgoing_large_payload_is_split() {
    let msgs = outgoing_messages(8, vec![5u8; 33], 1, 16);
    assert_eq!(msgs.len(), 3);
    assert!(msgs.iter().all(|m| m.total_chunks == 3 && m.id == 8 && m.priority == 1));
}

#[test]
fn split_then_merge_gives_payload_back() {
    let data: Vec<u8> = (0..100u32).map(|i| (i * 7 % 251) as u8).collect();
    let msgs = outgoing_messages(31, data.clone(), 4, 30);
    assert_eq!(msgs.len(), 4);
    let mut buf = ChunkedBuffer::new(1_000_000);
    let mut removed = Vec::new();
    let n = msgs.len();
    for (i, m) in msgs.into_iter().enumerate() {
        let r = buf.merge(m, None, &mut removed, 10);
        if i + 1 < n {
            assert!(r.is_none());
        } else {
            assert_eq!(r, Some((31, 4, data.clone())));
        }
    }
    assert!(removed.is_empty());
    assert_eq!(DATA_BUFFSES_MAX, 10);
}

#[test]
fn single_message_passes_straight_through() {
    let mut buf = ChunkedBuffer::new(1_000_000);
    let mut removed = Vec::new();
    let r = buf.merge(make_msg(1, 0, 1, 0, b"single"), None, &mut removed, 0);
    assert_eq!(r, Some((1, 0, b"single".to_vec())));
    let r = buf.merge(make_msg(1, 0, 0, 0, b"no-chunks"), None, &mut removed, 0);
    assert_eq!(r, Some((1, 0, b"no-chunks".to_vec())));
    let none = Message { id: 2, priority: 3, ..Default::default() };
    assert_eq!(buf.merge(none, None, &mut removed, 0), Some((2, 3, Vec::new())));
}

#[test]
fn outgoing_messages_of_nothing_with_no_chunk_size() {
    let msgs = outgoing_messages(7, Vec::new(), 2, 0);
    assert_eq!(msgs.len(), 1);
    assert_eq!(msgs[0].total_chunks, 0);
    assert_eq!(msgs[0].data, Some(Vec::new()));
}
