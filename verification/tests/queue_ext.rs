use rust_box::queue_ext::{close_step, last_sender, send_step, SendError, SendErrorKind, SendStep};

#[test]
fn send_error_full_ctor() {
    let err = SendError::full(42i32);
    assert!(err.is_full());
    assert!(!err.is_disconnected());
    assert_eq!(err.into_inner(), Some(42));
}

#[test]
fn send_error_disconnected_ctor() {
    let err = SendError::<i32>::disconnected(Some(99));
    assert!(err.is_disconnected());
    assert!(!err.is_full());
    assert_eq!(err.into_inner(), Some(99));
}

#[test]
fn send_error_disconnected_none() {
    let err = SendError::<i32>::disconnected(None);
    assert!(err.is_disconnected());
    assert_eq!(err.into_inner(), None);
}

#[test]
fn send_error_debug() {
    let err = SendError::full(42i32);
    let s = format!("{:?}", err);
    assert!(s.contains("SendError"));
}

#[test]
fn send_error_display_full() {
    let err = SendError::full(42i32);
    assert_eq!(err.to_string(), "send failed because mpsc is full");
}

#[test]
fn send_error_display_disconnected() {
    let err = SendError::<i32>::disconnected(None);
    assert_eq!(err.to_string(), "send failed because receiver is gone");
}

#[test]
fn send_error_clone_eq() {
    let err1 = SendError::full(42i32);
    let err2 = err1.clone();
    assert_eq!(err1, err2);
    assert!(err1.is_full());
    assert_eq!(err2.into_inner(), Some(42));
}

#[test]
fn test_send_error_full() {
    let err = SendError::full(42i32);
    assert!(err.is_full());
    assert!(!err.is_disconnected());
    assert_eq!(err.into_inner(), Some(42));
}

#[test]
fn test_send_error_disconnected() {
    let err = SendError::<i32>::disconnected(Some(99));
    assert!(err.is_disconnected());
    assert!(!err.is_full());
    assert_eq!(err.into_inner(), Some(99));
}

#[test]
fn test_send_error_disconnected_none() {
    let err = SendError::<i32>::disconnected(None);
    assert!(err.is_disconnected());
    assert_eq!(err.into_inner(), None);
}

#[test]
fn send_error_kinds_differ() {
    assert_ne!(SendError::full(1u8), SendError::disconnected(Some(1u8)));
    assert_ne!(SendErrorKind::Full, SendErrorKind::Disconnected);
}

#[test]
fn send_step_closed_wins() {
    assert_eq!(send_step(true, true), SendStep::Disconnected);
    assert_eq!(send_step(true, false), SendStep::Disconnected);
    assert_eq!(send_step(false, true), SendStep::Full);
    assert_eq!(send_step(false, false), SendStep::Send);
}

#[test]
fn close_step_cases() {
    let e = close_step(true, 3).unwrap_err();
    assert!(e.is_disconnected());
    assert_eq!(e.into_inner(), None);
    assert_eq!(close_step(false, 2), Ok(true));
    assert_eq!(close_step(false, 1), Ok(false));
}

#[test]
fn last_sender_closes() {
    assert!(last_sender(1));
    assert!(!last_sender(2));
    assert!(!last_sender(0));
}
