use brhap::session::{linked_event, Event, Launched, SessionError, SessionState};

#[test]
fn a_new_session_is_idle() {
    let session = SessionState::new();
    assert!(!session.running());
    assert_eq!(session.pid(), None);
}

#[test]
fn stopping_nothing_is_a_conflict_not_a_crash() {
    let session = SessionState::new();
    match session.stop_target() {
        Err(SessionError::Conflict(message)) => assert!(message.contains("nothing is running")),
        other => panic!("expected a conflict, got {other:?}"),
    }
}

#[test]
fn one_game_at_a_time() {
    let mut session = SessionState::new();
    assert_eq!(session.check_launch(), Ok(()));
    let (launched, events) = session.on_spawned(42, 1, 3);
    assert_eq!(launched, Launched { pid: 42, removed: 1, created: 3 });
    assert_eq!(events, vec![Event::Spawned { pid: 42 }, Event::State { running: true, pid: Some(42) }]);
    assert!(session.running());
    assert_eq!(session.stop_target(), Ok(42));
    assert_eq!(
        session.check_launch(),
        Err(SessionError::Conflict("a game is already running".to_string()))
    );
    let events = session.on_exit(Some(0));
    assert_eq!(events, vec![Event::Exited { code: Some(0) }, Event::State { running: false, pid: None }]);
    assert!(!session.running());
    assert_eq!(session.check_launch(), Ok(()));
}

#[test]
fn a_watch_failure_ends_the_session() {
    let mut session = SessionState::new();
    session.on_spawned(7, 0, 0);
    let events = session.on_watch_error("lost it".to_string());
    assert_eq!(
        events,
        vec![Event::Error { message: "lost it".to_string() }, Event::State { running: false, pid: None }]
    );
    assert_eq!(session.pid(), None);
}

#[test]
fn links_are_reported_as_counts() {
    assert_eq!(linked_event(2, 3), Event::Linked { removed: 2, created: 3 });
    assert_eq!(SessionError::Io("denied".to_string()).message(), "denied");
}
