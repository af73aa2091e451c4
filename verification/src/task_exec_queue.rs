//! Settings, errors and per-group ordering of a task execution queue.
use vstd::prelude::*;
use std::collections::VecDeque;
use core::marker::PhantomData;

verus! {

/// Default number of tasks that run at once.
pub const DEFAULT_WORKERS: usize = 100;

/// Default number of tasks that may wait.
pub const DEFAULT_QUEUE_MAX: usize = 100000;

/// How a task failed to enter the queue, with the task when it comes back.
#[derive(Debug, PartialEq, Eq)]
pub enum ErrorType<T> {
    Full(Option<T>),
    Closed(Option<T>),
    Timeout(Option<T>),
}

/// A failed spawn: which kind of send failed and how.
#[derive(Debug)]
pub enum Error<T> {
    SendError(ErrorType<T>),
    TrySendError(ErrorType<T>),
    SendTimeoutError(ErrorType<T>),
    RecvResultError,
}

/// The way a send failed, if the error carries one.
pub open spec fn error_type<T>(e: Error<T>) -> Option<ErrorType<T>> {
    match e {
        Error::SendError(t) => Some(t),
        Error::TrySendError(t) => Some(t),
        Error::SendTimeoutError(t) => Some(t),
        Error::RecvResultError => None,
    }
}

impl<T> Error<T> {
    /// Whether the queue was full.
    pub fn is_full(&self) -> (b: bool)
        ensures
            b == (error_type(*self) matches Some(ErrorType::Full(_))),
    {
        match self {
            Error::SendError(ErrorType::Full(_)) => true,
            Error::TrySendError(ErrorType::Full(_)) => true,
            Error::SendTimeoutError(ErrorType::Full(_)) => true,
            _ => false,
        }
    }

    /// Whether the queue was closed.
    pub fn is_closed(&self) -> (b: bool)
        ensures
            b == (error_type(*self) matches Some(ErrorType::Closed(_))),
    {
        match self {
            Error::SendError(ErrorType::Closed(_)) => true,
            Error::TrySendError(ErrorType::Closed(_)) => true,
            Error::SendTimeoutError(ErrorType::Closed(_)) => true,
            _ => false,
        }
    }

    /// Whether the send timed out.
    pub fn is_timeout(&self) -> (b: bool)
        ensures
            b == (error_type(*self) matches Some(ErrorType::Timeout(_))),
    {
        match self {
            Error::SendError(ErrorType::Timeout(_)) => true,
            Error::TrySendError(ErrorType::Timeout(_)) => true,
            Error::SendTimeoutError(ErrorType::Timeout(_)) => true,
            _ => false,
        }
    }

    /// The error as text.
    pub fn to_string(&self) -> (s: String)
        ensures
            self is SendError ==> s@ == "send error"@,
            self is TrySendError ==> s@ == "try send error"@,
            self is SendTimeoutError ==> s@ == "send timeout error"@,
            self is RecvResultError ==> s@ == "recv result error"@,
    {
        match self {
            Error::SendError(_) => "send error".to_owned(),
            Error::TrySendError(_) => "try send error".to_owned(),
            Error::SendTimeoutError(_) => "send timeout error".to_owned(),
            Error::RecvResultError => "recv result error".to_owned(),
        }
    }

    /// The error of a `try_send` that failed on a `full` queue, or else on a
    /// closed one; the task comes back.
    pub fn from_try_send(full: bool, task: T) -> (e: Self)
        ensures
            full ==> e == Error::TrySendError(ErrorType::Full(Some(task))),
            !full ==> e == Error::TrySendError(ErrorType::Closed(Some(task))),
    {
        if full {
            Error::TrySendError(ErrorType::Full(Some(task)))
        } else {
            Error::TrySendError(ErrorType::Closed(Some(task)))
        }
    }

    /// The error of a `send` that failed on a `full` queue, or else on a
    /// closed one.
    pub fn from_send(full: bool) -> (e: Self)
        ensures
            full ==> e == Error::<T>::SendError(ErrorType::Full(None)),
            !full ==> e == Error::<T>::SendError(ErrorType::Closed(None)),
    {
        if full {
            Error::SendError(ErrorType::Full(None))
        } else {
            Error::SendError(ErrorType::Closed(None))
        }
    }
}

/// Settings of a queue: how many tasks run at once and how many may wait.
pub struct Builder {
    pub workers: usize,
    pub queue_max: usize,
}

impl Default for Builder {
    fn default() -> (b: Self)
        ensures
            b.workers == DEFAULT_WORKERS,
            b.queue_max == DEFAULT_QUEUE_MAX,
    {
        Builder { workers: DEFAULT_WORKERS, queue_max: DEFAULT_QUEUE_MAX }
    }
}

impl Builder {
    /// Run at most `workers` tasks at once.
    pub fn workers(self, workers: usize) -> (b: Self)
        ensures
            b.workers == workers,
            b.queue_max == self.queue_max,
    {
        Builder { workers, ..self }
    }

    /// Let at most `max` tasks wait.
    pub fn queue_max(self, max: usize) -> (b: Self)
        ensures
            b.workers == self.workers,
            b.queue_max == max,
    {
        Builder { queue_max: max, ..self }
    }

    /// The same settings, for a queue that runs the tasks of a group in order.
    pub fn group(self) -> (g: GroupBuilder)
        ensures
            g.builder == self,
    {
        GroupBuilder { builder: self }
    }

    /// The same settings, for a queue over the channel `tx`/`rx`.
    pub fn with_channel<Tx, Rx, D>(self, tx: Tx, rx: Rx) -> (c: ChannelBuilder<Tx, Rx, D>)
        ensures
            c.builder == self,
            c.tx == tx,
            c.rx == rx,
    {
        ChannelBuilder { builder: self, tx, rx, _d: PhantomData }
    }
}

/// Settings of a queue that runs the tasks of a group in order.
pub struct GroupBuilder {
    pub builder: Builder,
}

/// Settings of a queue over a given channel.
pub struct ChannelBuilder<Tx, Rx, D> {
    pub builder: Builder,
    pub tx: Tx,
    pub rx: Rx,
    pub _d: PhantomData<D>,
}

impl<Tx, Rx, D> ChannelBuilder<Tx, Rx, D> {
    /// The same settings and channel, for a queue that runs the tasks of a
    /// group in order.
    pub fn group(self) -> (g: GroupChannelBuilder<Tx, Rx, D>)
        ensures
            g.builder == self,
    {
        GroupChannelBuilder { builder: self }
    }
}

/// Settings of a queue over a given channel that runs the tasks of a group
/// in order.
pub struct GroupChannelBuilder<Tx, Rx, D> {
    pub builder: ChannelBuilder<Tx, Rx, D>,
}

/// Whether a queue with `waiting` tasks waiting is full.
pub fn queue_is_full(waiting: isize, queue_max: isize) -> (b: bool)
    ensures
        b == (waiting >= queue_max),
{
    waiting >= queue_max
}

/// The tasks of one group, run one after another: while one runs, the
/// others wait here in arrival order.
pub struct GroupTaskExecQueue<TT> {
    tasks: VecDeque<TT>,
    is_running: bool,
}

impl<TT> GroupTaskExecQueue<TT> {
    /// The waiting tasks, oldest first.
    pub closed spec fn waiting(&self) -> Seq<TT> {
        self.tasks@
    }

    /// Whether a task of the group is running.
    pub closed spec fn running(&self) -> bool {
        self.is_running
    }

    /// No task waiting, none running.
    pub fn new() -> (q: Self)
        ensures
            q.waiting() == Seq::<TT>::empty(),
            !q.running(),
    {
        GroupTaskExecQueue { tasks: VecDeque::new(), is_running: false }
    }

    /// Queue `task` behind the others.
    pub fn push(&mut self, task: TT)
        ensures
            final(self).waiting() == old(self).waiting().push(task),
            final(self).running() == old(self).running(),
    {
        self.tasks.push_back(task);
    }

    /// The oldest waiting task; when none waits, the group stops running.
    pub fn pop(&mut self) -> (r: Option<TT>)
        ensures
            old(self).waiting().len() > 0 ==> {
                &&& r == Some(old(self).waiting()[0])
                &&& final(self).waiting() == old(self).waiting().drop_first()
                &&& final(self).running() == old(self).running()
            },
            old(self).waiting().len() == 0 ==> {
                &&& r is None
                &&& final(self).waiting() == old(self).waiting()
                &&& !final(self).running()
            },
    {
        match self.tasks.pop_front() {
            Some(task) => Some(task),
            None => {
                self.set_running(false);
                None
            },
        }
    }

    /// Mark the group running or not.
    pub fn set_running(&mut self, b: bool)
        ensures
            final(self).waiting() == old(self).waiting(),
            final(self).running() == b,
    {
        self.is_running = b;
    }

    /// Whether a task of the group is running.
    pub fn is_running(&self) -> (b: bool)
        ensures
            b == self.running(),
    {
        self.is_running
    }
}

/// What a group send does with a task.
#[derive(Clone, Copy, Debug, PartialEq, Eq, Structural)]
pub enum GroupSendStep {
    /// The queue is closed: the task comes back.
    Refuse,
    /// A task of the group is running: the task waits behind it.
    Wait,
    /// No task of the group runs: the given one starts a runner.
    Start,
}

/// The step of a group send to a queue that is `closed`, for a group that
/// is `running`.
pub fn group_send_step(closed: bool, running: bool) -> (s: GroupSendStep)
    ensures
        closed ==> s == GroupSendStep::Refuse,
        !closed && running ==> s == GroupSendStep::Wait,
        !closed && !running ==> s == GroupSendStep::Start,
{
    if closed {
        GroupSendStep::Refuse
    } else if running {
        GroupSendStep::Wait
    } else {
        GroupSendStep::Start
    }
}

/// Hands a task to its group: refused when the queue is `closed`; queued
/// behind the group's running task, if any; otherwise the group is marked
/// running and the task is returned to be run at once.
pub fn group_send<TT>(closed: bool, group: &mut GroupTaskExecQueue<TT>, task: TT) -> (r: Result<Option<TT>, Error<TT>>)
    ensures
        closed ==> r == Err::<Option<TT>, Error<TT>>(Error::SendError(ErrorType::Closed(Some(task))))
            && final(group).waiting() == old(group).waiting() && final(group).running() == old(group).running(),
        !closed && old(group).running() ==> r == Ok::<Option<TT>, Error<TT>>(None)
            && final(group).waiting() == old(group).waiting().push(task) && final(group).running(),
        !closed && !old(group).running() ==> r == Ok::<Option<TT>, Error<TT>>(Some(task))
            && final(group).waiting() == old(group).waiting() && final(group).running(),
{
    match group_send_step(closed, group.is_running()) {
        GroupSendStep::Refuse => Err(Error::SendError(ErrorType::Closed(Some(task)))),
        GroupSendStep::Wait => {
            group.push(task);
            Ok(None)
        },
        GroupSendStep::Start => {
            group.set_running(true);
            Ok(Some(task))
        },
    }
}

/// No worker index occurs twice.
pub open spec fn distinct_workers(s: Seq<usize>) -> bool {
    forall|a: int, b: int| 0 <= a < b < s.len() ==> (#[trigger] s[a]) != (#[trigger] s[b])
}

/// The idle list after the dispatcher takes a worker from it: its last
/// index leaves, and an empty list stays empty.
pub open spec fn after_dispatch(idle: Seq<usize>) -> Seq<usize> {
    if idle.len() == 0 {
        idle
    } else {
        idle.drop_last()
    }
}

/// The idle list after worker `i` finishes a task: `i` joins it unless its
/// slot already holds the next task or it is already there.
pub open spec fn after_done(idle: Seq<usize>, i: usize, slot_full: bool) -> Seq<usize> {
    if slot_full || idle.contains(i) {
        idle
    } else {
        idle.push(i)
    }
}

/// What the dispatcher does with the next task.
#[derive(Clone, Copy, Debug, PartialEq, Eq, Structural)]
pub enum DispatchAction {
    /// No worker is idle: wait until one is.
    Wait,
    /// Hand the task to this idle worker.
    SendTo(usize),
}

/// The idle list when a queue with `workers` workers starts: every worker,
/// in order.
pub fn initial_idle(workers: usize) -> (idle: Vec<usize>)
    ensures
        idle@.len() == workers,
        forall|j: int| 0 <= j < workers ==> #[trigger] idle@[j] == j,
        distinct_workers(idle@),
{
    let mut idle: Vec<usize> = Vec::new();
    for i in 0..workers
        invariant
            idle@.len() == i,
            forall|j: int| 0 <= j < i ==> #[trigger] idle@[j] == j,
    {
        idle.push(i);
    }
    idle
}

/// Picks the worker for the next task: the most recently idle one, which
/// leaves the idle list; `Wait` when no worker is idle.
pub fn next_dispatch(idle: &mut Vec<usize>) -> (a: DispatchAction)
    requires
        distinct_workers(old(idle)@),
    ensures
        old(idle)@.len() == 0 ==> a == DispatchAction::Wait && final(idle)@ == old(idle)@,
        old(idle)@.len() > 0 ==> a == DispatchAction::SendTo(old(idle)@.last()),
        final(idle)@ == after_dispatch(old(idle)@),
        distinct_workers(final(idle)@),
{
    match idle.pop() {
        Some(i) => DispatchAction::SendTo(i),
        None => DispatchAction::Wait,
    }
}

/// Worker `i` has finished a task: it becomes idle again unless its slot
/// already holds a task (or it is idle already). The answer says whether a
/// waiting flush must be woken: the queue is `flushing` and the worker's
/// slot is empty.
pub fn worker_done(idle: &mut Vec<usize>, i: usize, slot_full: bool, flushing: bool, slot_empty: bool) -> (wake_flush: bool)
    requires
        distinct_workers(old(idle)@),
    ensures
        final(idle)@ == after_done(old(idle)@, i, slot_full),
        distinct_workers(final(idle)@),
        wake_flush == (flushing && slot_empty),
{
    if !slot_full {
        let mut present = false;
        let n = idle.len();
        let mut k: usize = 0;
        while k < n
            invariant
                n == idle@.len(),
                k <= n,
                present == exists|j: int| 0 <= j < k && idle@[j] == i,
            decreases n - k,
        {
            if idle[k] == i {
                present = true;
            }
            k = k + 1;
        }
        if !present {
            let ghost before = idle@;
            idle.push(i);
            proof {
                assert(!before.contains(i)) by {
                    if before.contains(i) {
                        let j = choose|j: int| 0 <= j < before.len() && before[j] == i;
                        assert(exists|j: int| 0 <= j < n && before[j] == i);
                    }
                }
                assert forall|a: int, b: int| 0 <= a < b < idle@.len() implies (#[trigger] idle@[a]) != (#[trigger] idle@[b]) by {
                    if b == before.len() {
                        assert(idle@[a] == before[a]);
                        assert(before.contains(before[a]));
                    } else {
                        assert(idle@[a] == before[a] && idle@[b] == before[b]);
                    }
                }
            }
        } else {
            proof {
                let j = choose|j: int| 0 <= j < k && idle@[j] == i;
                assert(idle@.contains(i));
            }
        }
    }
    flushing && slot_empty
}

/// The workers of a pool of `workers`: each is either idle (listed once in
/// `idle`) or busy (in `busy`), never both, and nothing else is counted.
pub open spec fn pool_ok(workers: nat, idle: Seq<usize>, busy: Set<usize>) -> bool {
    &&& distinct_workers(idle)
    &&& forall|j: int| 0 <= j < idle.len() ==> #[trigger] idle[j] < workers
    &&& forall|b: usize| #[trigger] busy.contains(b) ==> b < workers && !idle.contains(b)
    &&& busy.finite()
    &&& idle.len() + busy.len() == workers
}

/// When a queue starts, all its workers are idle and none is busy.
pub proof fn lemma_pool_start(workers: usize, idle: Seq<usize>)
    requires
        idle.len() == workers,
        forall|j: int| 0 <= j < workers ==> #[trigger] idle[j] == j,
    ensures
        pool_ok(workers as nat, idle, Set::empty()),
{
}

/// Dispatching a task to an idle worker moves it from idle to busy: idle
/// and busy workers still add up to `workers`, so at most `workers` tasks
/// run at once.
pub proof fn lemma_pool_dispatch(workers: nat, idle: Seq<usize>, busy: Set<usize>)
    requires
        pool_ok(workers, idle, busy),
        idle.len() > 0,
    ensures
        pool_ok(workers, after_dispatch(idle), busy.insert(idle.last())),
        busy.insert(idle.last()).len() <= workers,
{
    let w = idle.last();
    let t = idle.drop_last();
    assert(!busy.contains(w));
    assert forall|b: usize| #[trigger] busy.insert(w).contains(b) implies b < workers && !t.contains(b) by {
        if b == w {
            if t.contains(w) {
                let j = choose|j: int| 0 <= j < t.len() && t[j] == w;
                assert(idle[j] == idle[idle.len() - 1]);
            }
        } else {
            assert(!idle.contains(b));
            if t.contains(b) {
                let j = choose|j: int| 0 <= j < t.len() && t[j] == b;
                assert(idle[j] == b);
            }
        }
    }
}

/// A busy worker that finishes with an empty slot goes back to idle: idle
/// and busy workers still add up to `workers`.
pub proof fn lemma_pool_done(workers: nat, idle: Seq<usize>, busy: Set<usize>, i: usize)
    requires
        pool_ok(workers, idle, busy),
        busy.contains(i),
    ensures
        pool_ok(workers, after_done(idle, i, false), busy.remove(i)),
{
    let t = idle.push(i);
    assert(!idle.contains(i));
    assert(after_done(idle, i, false) == t);
    assert forall|a: int, b: int| 0 <= a < b < t.len() implies (#[trigger] t[a]) != (#[trigger] t[b]) by {
        if b == idle.len() {
            assert(t[a] == idle[a]);
            assert(idle.contains(idle[a]));
        } else {
            assert(t[a] == idle[a] && t[b] == idle[b]);
        }
    }
    assert forall|j: int| 0 <= j < t.len() implies #[trigger] t[j] < workers by {
        if j < idle.len() {
            assert(t[j] == idle[j]);
        }
    }
    assert forall|b: usize| #[trigger] busy.remove(i).contains(b) implies b < workers && !t.contains(b) by {
        assert(!idle.contains(b));
        if t.contains(b) {
            let j = choose|j: int| 0 <= j < t.len() && t[j] == b;
            if j < idle.len() {
                assert(idle[j] == b);
            }
        }
    }
}

/// What a spawner does with its task when polled.
#[derive(Clone, Copy, Debug, PartialEq, Eq, Structural)]
pub enum SpawnStep {
    /// The queue is closed and the task was never parked: it comes back.
    Refuse,
    /// The queue is full and the spawn is not `quickly`: wait for room.
    Park,
    /// Hand the task to the queue.
    Send,
}

/// The step of a spawner polled on a queue that is `closed` and `full`,
/// having parked before (`pending`) or not, and asked to skip the wait
/// for room (`quickly`) or not.
pub fn spawn_step(closed: bool, pending: bool, quickly: bool, full: bool) -> (s: SpawnStep)
    ensures
        closed && !pending ==> s == SpawnStep::Refuse,
        !(closed && !pending) && !quickly && full ==> s == SpawnStep::Park,
        !(closed && !pending) && !(!quickly && full) ==> s == SpawnStep::Send,
{
    if closed && !pending {
        SpawnStep::Refuse
    } else if !quickly && full {
        SpawnStep::Park
    } else {
        SpawnStep::Send
    }
}

} // verus!
