//! A sending half over any queue: the queue answers requests (`Action`)
//! through a handler, and wakes or parks tasks through `Waker`.
use vstd::prelude::*;

verus! {

/// Why a send failed.
#[derive(Clone, Copy, Debug, PartialEq, Eq, Structural)]
pub enum SendErrorKind {
    Full,
    Disconnected,
}

/// A failed send, with the item when there is one to hand back.
#[derive(Clone, Debug, PartialEq, Eq)]
pub struct SendError<T> {
    kind: SendErrorKind,
    val: Option<T>,
}

/// The error of `try_send`.
pub type TrySendError<T> = SendError<T>;

impl<T> SendError<T> {
    /// Why the send failed.
    pub closed spec fn why(&self) -> SendErrorKind {
        self.kind
    }

    /// The item handed back, if any.
    pub closed spec fn item(&self) -> Option<T> {
        self.val
    }

    /// The queue was full; the item comes back.
    pub fn full(val: T) -> (e: Self)
        ensures
            e.why() == SendErrorKind::Full,
            e.item() == Some(val),
    {
        SendError { kind: SendErrorKind::Full, val: Some(val) }
    }

    /// The receiving side is gone.
    pub fn disconnected(val: Option<T>) -> (e: Self)
        ensures
            e.why() == SendErrorKind::Disconnected,
            e.item() == val,
    {
        SendError { kind: SendErrorKind::Disconnected, val }
    }

    /// Whether the queue was full.
    pub fn is_full(&self) -> (b: bool)
        ensures
            b == (self.why() == SendErrorKind::Full),
    {
        match self.kind {
            SendErrorKind::Full => true,
            SendErrorKind::Disconnected => false,
        }
    }

    /// Whether the receiving side was gone.
    pub fn is_disconnected(&self) -> (b: bool)
        ensures
            b == (self.why() == SendErrorKind::Disconnected),
    {
        match self.kind {
            SendErrorKind::Full => false,
            SendErrorKind::Disconnected => true,
        }
    }

    /// The item that could not be sent.
    pub fn into_inner(self) -> (r: Option<T>)
        ensures
            r == self.item(),
    {
        self.val
    }

    /// The error as text.
    pub fn to_string(&self) -> (s: String)
        ensures
            self.why() == SendErrorKind::Full ==> s@ == "send failed because mpsc is full"@,
            self.why() == SendErrorKind::Disconnected ==> s@ == "send failed because receiver is gone"@,
    {
        match self.kind {
            SendErrorKind::Full => "send failed because mpsc is full".to_owned(),
            SendErrorKind::Disconnected => "send failed because receiver is gone".to_owned(),
        }
    }
}

/// A request to the queue behind a sender.
pub enum Action<Item> {
    Send(Item),
    IsFull,
    IsEmpty,
    Len,
}

/// The queue's answer to an `Action`, of the same variant.
pub enum Reply<R> {
    Send(R),
    IsFull(bool),
    IsEmpty(bool),
    Len(usize),
}


/// `std::task::Waker`, a handle that wakes a task.
#[verifier::external_type_specification]
#[verifier::external_body]
pub struct ExTaskWaker(std::task::Waker);

/// The signals between the two sides of a queue, implemented by the
/// receiving side.
pub trait Waker {
    /// Wake the receiving task.
    fn rx_wake(&self);

    /// Park a sending task until there is room.
    fn tx_park(&self, w: std::task::Waker);

    /// Close the queue: no more items will be sent.
    fn close_channel(&self);

    /// Whether the queue is closed.
    fn is_closed(&self) -> bool;
}

/// What `try_send` does after looking at the queue.
#[derive(Clone, Copy, Debug, PartialEq, Eq, Structural)]
pub enum SendStep {
    /// Hand the item back: the queue is closed.
    Disconnected,
    /// Hand the item back: the queue is full.
    Full,
    /// Give the item to the queue.
    Send,
}

/// The step of a send to a queue that is `closed` or `full`: a closed queue
/// refuses first, then a full one.
pub fn send_step(closed: bool, full: bool) -> (s: SendStep)
    ensures
        closed ==> s == SendStep::Disconnected,
        !closed && full ==> s == SendStep::Full,
        !closed && !full ==> s == SendStep::Send,
{
    if closed {
        SendStep::Disconnected
    } else if full {
        SendStep::Full
    } else {
        SendStep::Send
    }
}

/// What closing a sender does: `Err` when the queue is already closed;
/// `Ok(true)` when other senders remain (`senders_before` counts this one
/// too), so that the queue stays open; `Ok(false)` when this was the last
/// sender, which closes the queue and then waits for it to drain.
pub fn close_step(closed: bool, senders_before: usize) -> (r: Result<bool, SendError<()>>)
    ensures
        closed ==> (r matches Err(e) && e.why() == SendErrorKind::Disconnected && e.item() is None),
        !closed ==> r == Ok::<bool, SendError<()>>(senders_before > 1),
{
    if closed {
        Err(SendError::disconnected(None))
    } else {
        Ok(senders_before > 1)
    }
}

/// Whether dropping a sender closes the queue: when it was the last one.
pub fn last_sender(senders_before: usize) -> (b: bool)
    ensures
        b == (senders_before == 1),
{
    senders_before == 1
}

} // verus!
