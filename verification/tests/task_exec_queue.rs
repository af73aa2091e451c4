use rust_box::task_exec_queue::{
    group_send, group_send_step, initial_idle, next_dispatch, queue_is_full, spawn_step, worker_done, Builder,
    DispatchAction, Error, ErrorType, GroupSendStep, GroupTaskExecQueue, SpawnStep,
};
use rust_box::task_executor;

#[test]
fn test_error_type_variants() {
    let err = Error::<i32>::TrySendError(ErrorType::Full(Some(42)));
    assert!(err.is_full());
    assert!(!err.is_closed());
    assert!(!err.is_timeout());
    assert!(matches!(err, Error::TrySendError(ErrorType::Full(Some(42)))));

    let err = Error::<i32>::SendError(ErrorType::Full(Some(42)));
    assert!(err.is_full());
    assert!(matches!(err, Error::SendError(ErrorType::Full(Some(42)))));

    let err = Error::<i32>::SendTimeoutError(ErrorType::Full(Some(42)));
    assert!(err.is_full());
    assert!(matches!(err, Error::SendTimeoutError(ErrorType::Full(Some(42)))));

    let err = Error::<i32>::TrySendError(ErrorType::Closed(Some(99)));
    assert!(err.is_closed());
    assert!(!err.is_full());

    let err = Error::<i32>::SendError(ErrorType::Closed(Some(99)));
    assert!(err.is_closed());

    let err = Error::<i32>::SendTimeoutError(ErrorType::Closed(Some(99)));
    assert!(err.is_closed());

    let err = Error::<i32>::SendTimeoutError(ErrorType::Timeout(Some(77)));
    assert!(err.is_timeout());
    assert!(!err.is_full());
    assert!(!err.is_closed());

    let err = Error::<i32>::RecvResultError;
    assert!(!err.is_full());
    assert!(!err.is_closed());
    assert!(!err.is_timeout());
}

#[test]
fn test_error_type_debug_and_display() {
    let err = Error::<String>::TrySendError(ErrorType::Full(Some("hello".into())));
    assert!(!format!("{:?}", err).is_empty());
    assert!(!err.to_string().is_empty());
}

#[test]
fn test_error_type_eq() {
    assert_eq!(ErrorType::<i32>::Full(Some(1)), ErrorType::<i32>::Full(Some(1)));
    assert_ne!(ErrorType::<i32>::Full(Some(1)), ErrorType::<i32>::Full(Some(2)));
    assert_ne!(ErrorType::<i32>::Full(Some(1)), ErrorType::<i32>::Closed(Some(1)));
}

#[test]
fn test_error_none_values() {
    assert!(Error::<()>::SendError(ErrorType::Full(None)).is_full());
    assert!(Error::<()>::SendError(ErrorType::Closed(None)).is_closed());
    assert!(Error::<()>::SendTimeoutError(ErrorType::Timeout(None)).is_timeout());
}

#[test]
fn error_texts() {
    assert_eq!(Error::<()>::SendError(ErrorType::Full(None)).to_string(), "send error");
    assert_eq!(Error::<()>::TrySendError(ErrorType::Full(None)).to_string(), "try send error");
    assert_eq!(Error::<()>::SendTimeoutError(ErrorType::Timeout(None)).to_string(), "send timeout error");
    assert_eq!(Error::<()>::RecvResultError.to_string(), "recv result error");
}

#[test]
fn errors_from_channel_failures() {
    assert!(matches!(Error::from_try_send(true, 5), Error::TrySendError(ErrorType::Full(Some(5)))));
    assert!(matches!(Error::from_try_send(false, 5), Error::TrySendError(ErrorType::Closed(Some(5)))));
    assert!(matches!(Error::<u8>::from_send(true), Error::SendError(ErrorType::Full(None))));
    assert!(matches!(Error::<u8>::from_send(false), Error::SendError(ErrorType::Closed(None))));
}

#[test]
fn builder_settings() {
    let b = Builder::default();
    assert_eq!((b.workers, b.queue_max), (100, 100_000));
    let b = Builder::default().workers(42).queue_max(7);
    assert_eq!((b.workers, b.queue_max), (42, 7));
    let g = Builder::default().workers(3).group();
    assert_eq!(g.builder.workers, 3);
    let c = Builder::default().queue_max(9).with_channel::<u8, u16, ()>(1, 2);
    assert_eq!((c.builder.queue_max, c.tx, c.rx), (9, 1, 2));
    let gc = c.group();
    assert_eq!(gc.builder.builder.queue_max, 9);

    let e = task_executor::Builder::default().workers(5).group();
    assert_eq!((e.builder.workers, e.builder.queue_max), (5, 100_000));
    let l = task_executor::LocalBuilder::default().queue_max(11).with_channel::<(), (), ()>((), ());
    assert_eq!((l.builder.workers, l.builder.queue_max), (100, 11));
    assert_eq!(l.group().builder.builder.queue_max, 11);
    assert!(task_executor::Error::<u8>::SendTimeoutError(task_executor::ErrorType::Timeout(None)).is_timeout());
}

#[test]
fn queue_fullness() {
    assert!(!queue_is_full(0, 10));
    assert!(queue_is_full(10, 10));
    assert!(queue_is_full(11, 10));
}

#[test]
fn group_queue_runs_in_order() {
    let mut g = GroupTaskExecQueue::new();
    assert!(!g.is_running());
    assert_eq!(group_send_step(false, false), GroupSendStep::Start);
    assert_eq!(group_send(false, &mut g, 1).unwrap(), Some(1));
    assert!(g.is_running());
    assert_eq!(group_send(false, &mut g, 2).unwrap(), None);
    assert_eq!(group_send(false, &mut g, 3).unwrap(), None);
    assert!(matches!(group_send(true, &mut g, 4), Err(Error::SendError(ErrorType::Closed(Some(4))))));
    assert_eq!(g.pop(), Some(2));
    assert_eq!(g.pop(), Some(3));
    assert!(g.is_running());
    assert_eq!(g.pop(), None);
    assert!(!g.is_running());
    assert_eq!(group_send_step(true, true), GroupSendStep::Refuse);
    assert_eq!(group_send_step(false, true), GroupSendStep::Wait);
}

#[test]
fn dispatch_goes_to_idle_workers() {
    let mut idle = initial_idle(3);
    assert_eq!(idle, vec![0, 1, 2]);
    assert_eq!(next_dispatch(&mut idle), DispatchAction::SendTo(2));
    assert_eq!(next_dispatch(&mut idle), DispatchAction::SendTo(1));
    assert_eq!(next_dispatch(&mut idle), DispatchAction::SendTo(0));
    assert_eq!(next_dispatch(&mut idle), DispatchAction::Wait);
    assert!(idle.is_empty());
    // Worker 1 finishes with an empty slot while a flush waits.
    assert!(worker_done(&mut idle, 1, false, true, true));
    assert_eq!(idle, vec![1]);
    // A worker with a task already in its slot stays busy.
    assert!(!worker_done(&mut idle, 2, true, false, false));
    assert_eq!(idle, vec![1]);
    // A worker already idle is not listed twice.
    assert!(!worker_done(&mut idle, 1, false, false, true));
    assert_eq!(idle, vec![1]);
    assert_eq!(next_dispatch(&mut idle), DispatchAction::SendTo(1));
}

#[test]
fn spawn_steps() {
    assert_eq!(spawn_step(true, false, false, false), SpawnStep::Refuse);
    assert_eq!(spawn_step(true, true, false, true), SpawnStep::Park);
    assert_eq!(spawn_step(true, true, false, false), SpawnStep::Send);
    assert_eq!(spawn_step(false, false, false, true), SpawnStep::Park);
    assert_eq!(spawn_step(false, false, true, true), SpawnStep::Send);
    assert_eq!(spawn_step(false, false, false, false), SpawnStep::Send);
}
