use rust_box::binary_heap::BinaryHeap;
use rust_box::priority_queue::PriorityQueue;

fn heap_of(items: &[u8]) -> BinaryHeap<u8> {
    let mut map: BinaryHeap<u8> = BinaryHeap::new();
    for &i in items {
        map.push(i);
    }
    map
}

#[test]
fn binary_heap_test_iter_sorted() {
    let map = heap_of(&[2, 1, 9, 3, 5]);
    let data = map.iter_sorted().into_iter().collect::<Vec<_>>();
    assert_eq!(data, [&9, &5, &3, &2, &1]);
}

#[test]
fn binary_heap_test_drain_sorted() {
    let mut map = heap_of(&[2, 1, 9, 3, 5]);
    let data = map.drain_sorted().into_iter().collect::<Vec<_>>();
    assert_eq!(data, [9, 5, 3, 2, 1]);
    assert!(map.is_empty());
}

#[test]
fn binary_heap_test_into_sorted_vec() {
    let map = heap_of(&[2, 1, 9, 3, 5]);
    let data = map.into_sorted_vec();
    assert_eq!(data, [1, 2, 3, 5, 9]);
}

#[test]
fn binary_heap_pop_order() {
    let mut map = heap_of(&[2, 1, 9, 3, 5]);
    let mut out = Vec::new();
    while let Some(item) = map.pop() {
        out.push(item);
    }
    assert_eq!(out, [9, 5, 3, 2, 1]);
    assert_eq!(map.pop(), None);
}

#[test]
fn binary_heap_peek_len_clear() {
    let mut map = heap_of(&[4, 8, 1]);
    assert_eq!(map.peek(), Some(&8));
    assert_eq!(map.len(), 3);
    map.clear();
    assert!(map.is_empty());
    assert_eq!(map.peek(), None);
}

#[test]
fn binary_heap_from_vec_and_duplicates() {
    let mut map = BinaryHeap::from_vec(vec![3u8, 7, 3, 1, 7, 0]);
    assert_eq!(map.len(), 6);
    assert_eq!(map.iter().len(), 6);
    assert_eq!(map.drain_sorted(), vec![7, 7, 3, 3, 1, 0]);
    let d: BinaryHeap<u8> = BinaryHeap::default();
    assert!(d.is_empty());
}

fn queue_of(items: &[(u8, i16)]) -> PriorityQueue<u8, i16> {
    let mut q: PriorityQueue<u8, i16> = PriorityQueue::new();
    for &(p, v) in items {
        q.push(p, v);
    }
    q
}

#[test]
fn priority_queue_test_iter_sorted() {
    let map = queue_of(&[(2, 22), (1, 11), (9, 99), (3, 33), (5, 55)]);
    let data = map.iter_sorted().into_iter().collect::<Vec<_>>();
    assert_eq!(data, [(&9, &99), (&5, &55), (&3, &33), (&2, &22), (&1, &11)]);
}

#[test]
fn priority_queue_test_drain_sorted() {
    let mut map = queue_of(&[(2, 22), (1, 88), (9, 10), (3, 33), (5, 66)]);
    let data = map.drain_sorted().into_iter().collect::<Vec<_>>();
    assert_eq!(data, [(9, 10), (5, 66), (3, 33), (2, 22), (1, 88)]);
}

#[test]
fn priority_queue_test_into_sorted_vec() {
    let map = queue_of(&[(2, 22), (1, 88), (9, 10), (3, 33), (5, 66)]);
    let data = map.into_sorted_vec();
    assert_eq!(data, [(1, 88), (2, 22), (3, 33), (5, 66), (9, 10)]);
}

#[test]
fn test_priority_queue_empty() {
    let mut heap: PriorityQueue<u8, i16> = PriorityQueue::new();
    assert_eq!(heap.len(), 0);
    assert!(heap.is_empty());
    assert_eq!(heap.peek(), None);
    assert_eq!(heap.pop(), None);
    assert_eq!(heap.drain_sorted(), Vec::<(u8, i16)>::new());
    assert_eq!(heap.into_sorted_vec(), Vec::<(u8, i16)>::new());
}

#[test]
fn test_priority_queue_single_element() {
    let mut heap: PriorityQueue<u8, i16> = PriorityQueue::new();
    heap.push(5, 55);
    assert_eq!(heap.len(), 1);
    assert!(!heap.is_empty());
    assert_eq!(heap.peek(), Some((&5, &55)));
    assert_eq!(heap.pop(), Some((5, 55)));
    assert!(heap.is_empty());

    let mut heap2: PriorityQueue<u8, i16> = PriorityQueue::new();
    heap2.push(7, 77);
    let drained: Vec<(u8, i16)> = heap2.drain_sorted();
    assert_eq!(drained, [(7, 77)]);

    let mut heap3: PriorityQueue<u8, i16> = PriorityQueue::new();
    heap3.push(3, 33);
    assert_eq!(heap3.into_sorted_vec(), [(3, 33)]);
}

#[test]
fn test_priority_queue_same_priority() {
    let mut heap: PriorityQueue<u8, i16> = PriorityQueue::new();
    heap.push(1, 10);
    heap.push(1, 20);
    heap.push(1, 30);
    heap.push(2, 99);
    heap.push(2, 88);
    assert_eq!(heap.len(), 5);

    let drained = heap.drain_sorted();
    assert_eq!(drained, [(2, 99), (2, 88), (1, 30), (1, 20), (1, 10)]);
}

#[test]
fn test_priority_queue_clear() {
    let mut heap: PriorityQueue<u8, i16> = PriorityQueue::new();
    heap.push(3, 33);
    heap.push(1, 11);
    heap.push(4, 44);
    heap.push(5, 55);
    assert_eq!(heap.len(), 4);

    heap.clear();
    assert_eq!(heap.len(), 0);
    assert!(heap.is_empty());
    assert_eq!(heap.peek(), None);
    assert_eq!(heap.pop(), None);
}

#[test]
fn priority_queue_pop_drains_by_priority() {
    let mut heap = PriorityQueue::from_vec(vec![(3u8, 'c'), (9, 'i'), (1, 'a'), (5, 'e')]);
    let mut out = Vec::new();
    while let Some((p, _)) = heap.pop() {
        out.push(p);
    }
    assert_eq!(out, [9, 5, 3, 1]);
    assert_eq!(heap.iter().len(), 0);
}

#[test]
fn peek_shows_what_pop_takes() {
    let mut q: PriorityQueue<u8, u8> = PriorityQueue::new();
    q.push(3, 1);
    q.push(3, 2);
    q.push(1, 9);
    let seen = q.peek().map(|(p, v)| (*p, *v));
    assert_eq!(q.pop(), seen);
    let mut h = heap_of(&[4, 7, 7, 1]);
    let top = h.peek().copied();
    assert_eq!(h.pop(), top);
}
