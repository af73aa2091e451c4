//! Settings and errors of a task executor.
use vstd::prelude::*;
use core::marker::PhantomData;

verus! {

/// Default number of tasks that run at once.
pub const DEFAULT_WORKERS: usize = 100;

/// Default number of tasks that may wait.
pub const DEFAULT_QUEUE_MAX: usize = 100000;

/// How a task failed to enter the queue, with the task when it comes back.
#[derive(Debug, PartialEq, Eq)]
pub enum ErrorType<T> {
    Full(Option<T>),
    Closed(Option<T>),
    Timeout(Option<T>),
}

/// A failed spawn: which kind of send failed and how.
#[derive(Debug)]
pub enum Error<T> {
    SendError(ErrorType<T>),
    TrySendError(ErrorType<T>),
    SendTimeoutError(ErrorType<T>),
    RecvResultError,
}

/// The way a send failed, if the error carries one.
pub open spec fn error_type<T>(e: Error<T>) -> Option<ErrorType<T>> {
    match e {
        Error::SendError(t) => Some(t),
        Error::TrySendError(t) => Some(t),
        Error::SendTimeoutError(t) => Some(t),
        Error::RecvResultError => None,
    }
}

impl<T> Error<T> {
    /// Whether the queue was full.
    pub fn is_full(&self) -> (b: bool)
        ensures
            b == (error_type(*self) matches Some(ErrorType::Full(_))),
    {
        match self {
            Error::SendError(ErrorType::Full(_)) => true,
            Error::TrySendError(ErrorType::Full(_)) => true,
            Error::SendTimeoutError(ErrorType::Full(_)) => true,
            _ => false,
        }
    }

    /// Whether the queue was closed.
    pub fn is_closed(&self) -> (b: bool)
        ensures
            b == (error_type(*self) matches Some(ErrorType::Closed(_))),
    {
        match self {
            Error::SendError(ErrorType::Closed(_)) => true,
            Error::TrySendError(ErrorType::Closed(_)) => true,
            Error::SendTimeoutError(ErrorType::Closed(_)) => true,
            _ => false,
        }
    }

    /// Whether the send timed out.
    pub fn is_timeout(&self) -> (b: bool)
        ensures
            b == (error_type(*self) matches Some(ErrorType::Timeout(_))),
    {
        match self {
            Error::SendError(ErrorType::Timeout(_)) => true,
            Error::TrySendError(ErrorType::Timeout(_)) => true,
            Error::SendTimeoutError(ErrorType::Timeout(_)) => true,
            _ => false,
        }
    }

    /// The error as text.
    pub fn to_string(&self) -> (s: String)
        ensures
            self is SendError ==> s@ == "send error"@,
            self is TrySendError ==> s@ == "try send error"@,
            self is SendTimeoutError ==> s@ == "send timeout error"@,
            self is RecvResultError ==> s@ == "recv result error"@,
    {
        match self {
            Error::SendError(_) => "send error".to_owned(),
            Error::TrySendError(_) => "try send error".to_owned(),
            Error::SendTimeoutError(_) => "send timeout error".to_owned(),
            Error::RecvResultError => "recv result error".to_owned(),
        }
    }

    /// The error of a `try_send` that failed on a `full` queue, or else on a
    /// closed one; the task comes back.
    pub fn from_try_send(full: bool, task: T) -> (e: Self)
        ensures
            full ==> e == Error::TrySendError(ErrorType::Full(Some(task))),
            !full ==> e == Error::TrySendError(ErrorType::Closed(Some(task))),
    {
        if full {
            Error::TrySendError(ErrorType::Full(Some(task)))
        } else {
            Error::TrySendError(ErrorType::Closed(Some(task)))
        }
    }

    /// The error of a `send` that failed on a `full` queue, or else on a
    /// closed one.
    pub fn from_send(full: bool) -> (e: Self)
        ensures
            full ==> e == Error::<T>::SendError(ErrorType::Full(None)),
            !full ==> e == Error::<T>::SendError(ErrorType::Closed(None)),
    {
        if full {
            Error::SendError(ErrorType::Full(None))
        } else {
            Error::SendError(ErrorType::Closed(None))
        }
    }
}

/// Settings of an executor: how many tasks run at once and how many may wait.
pub struct Builder {
    pub workers: usize,
    pub queue_max: usize,
}

impl Default for Builder {
    fn default() -> (b: Self)
        ensures
            b.workers == DEFAULT_WORKERS,
            b.queue_max == DEFAULT_QUEUE_MAX,
    {
        Builder { workers: DEFAULT_WORKERS, queue_max: DEFAULT_QUEUE_MAX }
    }
}

impl Builder {
    /// Run at most `workers` tasks at once.
    pub fn workers(self, workers: usize) -> (b: Self)
        ensures
            b.workers == workers,
            b.queue_max == self.queue_max,
    {
        Builder { workers, ..self }
    }

    /// Let at most `queue_max` tasks wait.
    pub fn queue_max(self, queue_max: usize) -> (b: Self)
        ensures
            b.workers == self.workers,
            b.queue_max == queue_max,
    {
        Builder { queue_max, ..self }
    }

    /// The same settings, for an executor that runs the tasks of a group in order.
    pub fn group(self) -> (g: GroupBuilder)
        ensures
            g.builder == self,
    {
        GroupBuilder { builder: self }
    }
}

/// Settings of an executor that runs the tasks of a group in order.
pub struct GroupBuilder {
    pub builder: Builder,
}

/// Settings of a single-threaded executor.
pub struct LocalBuilder {
    pub workers: usize,
    pub queue_max: usize,
}

impl Default for LocalBuilder {
    fn default() -> (b: Self)
        ensures
            b.workers == DEFAULT_WORKERS,
            b.queue_max == DEFAULT_QUEUE_MAX,
    {
        LocalBuilder { workers: DEFAULT_WORKERS, queue_max: DEFAULT_QUEUE_MAX }
    }
}

impl LocalBuilder {
    /// Run at most `workers` tasks at once.
    pub fn workers(self, workers: usize) -> (b: Self)
        ensures
            b.workers == workers,
            b.queue_max == self.queue_max,
    {
        LocalBuilder { workers, ..self }
    }

    /// Let at most `queue_max` tasks wait.
    pub fn queue_max(self, queue_max: usize) -> (b: Self)
        ensures
            b.workers == self.workers,
            b.queue_max == queue_max,
    {
        LocalBuilder { queue_max, ..self }
    }

    /// The same settings, for an executor over the channel `tx`/`rx`.
    pub fn with_channel<Tx, Rx, D>(self, tx: Tx, rx: Rx) -> (c: ChannelLocalBuilder<Tx, Rx, D>)
        ensures
            c.builder == self,
            c.tx == tx,
            c.rx == rx,
    {
        ChannelLocalBuilder { builder: self, tx, rx, _d: PhantomData }
    }
}

/// Settings of a single-threaded executor over a given channel.
pub struct ChannelLocalBuilder<Tx, Rx, D> {
    pub builder: LocalBuilder,
    pub tx: Tx,
    pub rx: Rx,
    pub _d: PhantomData<D>,
}

impl<Tx, Rx, D> ChannelLocalBuilder<Tx, Rx, D> {
    /// The same settings and channel, for an executor that runs the tasks of
    /// a group in order.
    pub fn group(self) -> (g: GroupChannelLocalBuilder<Tx, Rx, D>)
        ensures
            g.builder == self,
    {
        GroupChannelLocalBuilder { builder: self }
    }
}

/// Settings of a single-threaded executor over a given channel that runs
/// the tasks of a group in order.
pub struct GroupChannelLocalBuilder<Tx, Rx, D> {
    pub builder: ChannelLocalBuilder<Tx, Rx, D>,
}

} // verus!
