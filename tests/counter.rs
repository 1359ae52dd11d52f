use mls::counter::{ConnErrorKind, ErrorCounter, PollAction, PollEvent};

#[test]
fn counter_trips_past_forty() {
    let mut c = ErrorCounter::new();
    assert!(!c.is_too_mutch());
    for _ in 0..40 {
        c.inc();
    }
    assert!(!c.is_too_mutch());
    c.inc();
    assert!(c.is_too_mutch());
    c.reset();
    assert!(!c.is_too_mutch());
}

#[test]
fn transient_errors_back_off() {
    let mut c = ErrorCounter::new();
    assert_eq!(c.on_event(PollEvent::Error(ConnErrorKind::Transient)), PollAction::Retry(3));
    assert_eq!(c.on_event(PollEvent::Error(ConnErrorKind::State)), PollAction::Retry(0));
    assert_eq!(c.on_event(PollEvent::Error(ConnErrorKind::Reported)), PollAction::Retry(0));
    assert_eq!(c.on_event(PollEvent::Publish), PollAction::Handle);
    assert_eq!(c.on_event(PollEvent::Other), PollAction::Retry(0));
}

#[test]
fn too_many_errors_give_up_and_connack_resets() {
    let mut c = ErrorCounter::new();
    for _ in 0..40 {
        assert_ne!(c.on_event(PollEvent::Error(ConnErrorKind::State)), PollAction::GiveUp);
    }
    assert_eq!(c.on_event(PollEvent::Error(ConnErrorKind::State)), PollAction::GiveUp);
    assert_eq!(c.on_event(PollEvent::ConnAck), PollAction::Subscribe);
    assert!(!c.is_too_mutch());
    assert_eq!(c.on_event(PollEvent::Error(ConnErrorKind::Transient)), PollAction::Retry(3));
}
