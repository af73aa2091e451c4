//! How the queues behind bounded channels answer a sender's requests.
use vstd::prelude::*;
use std::collections::VecDeque;
use crate::order::lawful_order;
use crate::priority_queue::PriorityQueue;
use crate::queue_ext::{Action, Reply};

verus! {

/// Answers `act` on a priority queue that counts as full at `bound` items:
/// a send adds the entry, the other actions report on the queue unchanged.
pub fn priority_queue_reply<P: Ord, T>(q: &mut PriorityQueue<P, T>, bound: usize, act: Action<(P, T)>) -> (r: Reply<()>)
    requires
        lawful_order::<P>(),
    ensures
        match act {
            Action::Send(e) => r == Reply::<()>::Send(()) && final(q)@ == old(q)@.insert(e),
            Action::IsFull => r == Reply::<()>::IsFull(old(q)@.len() >= bound) && final(q)@ == old(q)@,
            Action::IsEmpty => r == Reply::<()>::IsEmpty(old(q)@.len() == 0) && final(q)@ == old(q)@,
            Action::Len => r == Reply::<()>::Len(old(q)@.len() as usize) && final(q)@ == old(q)@,
        },
{
    match act {
        Action::Send((p, val)) => {
            q.push(p, val);
            Reply::Send(())
        },
        Action::IsFull => Reply::IsFull(q.len() >= bound),
        Action::IsEmpty => Reply::IsEmpty(q.is_empty()),
        Action::Len => Reply::Len(q.len()),
    }
}

/// Takes the entry of greatest priority, if any.
pub fn priority_queue_take<P: Ord, T>(q: &mut PriorityQueue<P, T>) -> (r: Option<(P, T)>)
    requires
        lawful_order::<P>(),
    ensures
        old(q)@.len() == 0 <==> r is None,
        r is None ==> final(q)@ == old(q)@,
        r matches Some(e) ==> old(q)@.count(e) > 0 && final(q)@ == old(q)@.remove(e)
            && forall|x: (P, T)| #[trigger] old(q)@.count(x) > 0 ==> crate::order::ord_le(x.0, e.0),
{
    q.pop()
}

/// Answers `act` on a first-in first-out queue that counts as full at
/// `bound` items: a send appends the item, the other actions report on the
/// queue unchanged.
pub fn deque_reply<T>(q: &mut VecDeque<T>, bound: usize, act: Action<T>) -> (r: Reply<()>)
    ensures
        match act {
            Action::Send(e) => r == Reply::<()>::Send(()) && final(q)@ == old(q)@.push(e),
            Action::IsFull => r == Reply::<()>::IsFull(old(q)@.len() >= bound) && final(q)@ == old(q)@,
            Action::IsEmpty => r == Reply::<()>::IsEmpty(old(q)@.len() == 0) && final(q)@ == old(q)@,
            Action::Len => r == Reply::<()>::Len(old(q)@.len() as usize) && final(q)@ == old(q)@,
        },
{
    match act {
        Action::Send(val) => {
            q.push_back(val);
            Reply::Send(())
        },
        Action::IsFull => Reply::IsFull(q.len() >= bound),
        Action::IsEmpty => Reply::IsEmpty(q.len() == 0),
        Action::Len => Reply::Len(q.len()),
    }
}

/// Takes the oldest item, if any.
pub fn deque_take<T>(q: &mut VecDeque<T>) -> (r: Option<T>)
    ensures
        old(q)@.len() == 0 ==> r is None && final(q)@ == old(q)@,
        old(q)@.len() > 0 ==> r == Some(old(q)@[0]) && final(q)@ == old(q)@.drop_first(),
{
    q.pop_front()
}

} // verus!
