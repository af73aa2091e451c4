use rust_box::channel::{deque_reply, deque_take, priority_queue_reply, priority_queue_take};
use rust_box::priority_queue::PriorityQueue;
use rust_box::queue_ext::{Action, Reply};
use std::collections::VecDeque;

fn is_full(r: Reply<()>) -> Option<bool> {
    match r {
        Reply::IsFull(b) => Some(b),
        _ => None,
    }
}

fn len(r: Reply<()>) -> Option<usize> {
    match r {
        Reply::Len(n) => Some(n),
        _ => None,
    }
}

#[test]
fn priority_queue_answers_actions() {
    let mut q: PriorityQueue<u32, &str> = PriorityQueue::new();
    assert_eq!(is_full(priority_queue_reply(&mut q, 2, Action::IsFull)), Some(false));
    assert!(matches!(priority_queue_reply(&mut q, 2, Action::Send((1, "low"))), Reply::Send(())));
    assert!(matches!(priority_queue_reply(&mut q, 2, Action::Send((9, "high"))), Reply::Send(())));
    assert_eq!(is_full(priority_queue_reply(&mut q, 2, Action::IsFull)), Some(true));
    assert_eq!(len(priority_queue_reply(&mut q, 2, Action::Len)), Some(2));
    assert!(matches!(priority_queue_reply(&mut q, 2, Action::IsEmpty), Reply::IsEmpty(false)));
    assert_eq!(priority_queue_take(&mut q), Some((9, "high")));
    assert_eq!(priority_queue_take(&mut q), Some((1, "low")));
    assert_eq!(priority_queue_take(&mut q), None);
    assert!(matches!(priority_queue_reply(&mut q, 2, Action::IsEmpty), Reply::IsEmpty(true)));
}

#[test]
fn deque_answers_actions_in_order() {
    let mut q: VecDeque<i32> = VecDeque::new();
    assert!(matches!(deque_reply(&mut q, 1, Action::Send(4)), Reply::Send(())));
    assert_eq!(is_full(deque_reply(&mut q, 1, Action::IsFull)), Some(true));
    assert!(matches!(deque_reply(&mut q, 1, Action::Send(5)), Reply::Send(())));
    assert_eq!(len(deque_reply(&mut q, 1, Action::Len)), Some(2));
    assert_eq!(deque_take(&mut q), Some(4));
    assert_eq!(deque_take(&mut q), Some(5));
    assert_eq!(deque_take(&mut q), None);
    assert!(matches!(deque_reply(&mut q, 1, Action::IsEmpty), Reply::IsEmpty(true)));
}
