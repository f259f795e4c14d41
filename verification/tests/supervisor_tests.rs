use chat_relay::{
    supervisor_step, ConversationStore, Pacer, RelayError, Role, SessionEvent, SupervisorAction,
    SupervisorState, BACKOFF_UNITS,
};

#[test]
fn startup_connects_then_streams() {
    let (s, a) = supervisor_step(SupervisorState::Idle, SessionEvent::BackoffElapsed);
    assert!(s == SupervisorState::Connecting && a == SupervisorAction::Connect);
    let (s, a) = supervisor_step(s, SessionEvent::ConnectSucceeded);
    assert!(s == SupervisorState::Streaming && a == SupervisorAction::Stream);
}

#[test]
fn connect_failure_backs_off() {
    let (s, a) = supervisor_step(SupervisorState::Connecting, SessionEvent::ConnectFailed);
    assert!(s == SupervisorState::Idle && a == SupervisorAction::Backoff);
}

#[test]
fn stream_end_backs_off_then_reconnects() {
    // disconnect while streaming
    let (s, a) = supervisor_step(SupervisorState::Streaming, SessionEvent::StreamEnded);
    assert!(s == SupervisorState::Idle && a == SupervisorAction::Backoff);
    assert_eq!(BACKOFF_UNITS, 30);
    // after the backoff the supervisor re-enters Connecting
    let (s, a) = supervisor_step(s, SessionEvent::BackoffElapsed);
    assert!(s == SupervisorState::Connecting && a == SupervisorAction::Connect);
}

#[test]
fn fatal_error_is_not_distinguished_from_disconnect() {
    let (s, a) = supervisor_step(SupervisorState::Streaming, SessionEvent::FatalError);
    assert!(s == SupervisorState::Idle && a == SupervisorAction::Backoff);
}

#[test]
fn inapplicable_events_hold_the_state() {
    let (s, a) = supervisor_step(SupervisorState::Idle, SessionEvent::StreamEnded);
    assert!(s == SupervisorState::Idle && a == SupervisorAction::Hold);
}

#[test]
fn store_outlives_the_session() {
    // the store lives at the supervisor's level, not the session's: a
    // disconnect and reconnect does not touch recorded history
    let mut store = ConversationStore::new();
    store.record("alice", Role::User, "before disconnect");
    let (s, _) = supervisor_step(SupervisorState::Streaming, SessionEvent::StreamEnded);
    let (s, _) = supervisor_step(s, SessionEvent::BackoffElapsed);
    let (_, _) = supervisor_step(s, SessionEvent::ConnectSucceeded);
    let h = store.history_of("alice").expect("history preserved");
    assert_eq!(h[0].content, "before disconnect");
}

#[test]
fn transport_errors_are_fatal_completion_errors_are_not() {
    let t = RelayError::Transport(String::from("connection reset"));
    let c = RelayError::Completion(String::from("bad request"));
    assert!(t.is_fatal());
    assert!(!c.is_fatal());
    assert_eq!(t.describe(), "IRC error: connection reset");
    assert_eq!(c.describe(), "OpenAI error: bad request");
}

#[test]
fn pacer_delivers_strictly_in_order() {
    let plan = vec![
        (String::from("#chan"), String::from("one")),
        (String::from("#chan"), String::from("two")),
        (String::from("alice"), String::from("three")),
    ];
    let mut pacer = Pacer::new();
    let mut seen = Vec::new();
    while let Some((target, text)) = pacer.next_to_send(&plan) {
        seen.push((target.clone(), text.clone()));
        pacer.mark_sent(&plan);
    }
    assert_eq!(seen, plan);
    assert!(pacer.next_to_send(&plan).is_none());
}
