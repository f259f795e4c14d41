use chat_relay::{ConversationStore, Role, MAX_MEMORY};

#[test]
fn unknown_identity_has_no_history() {
    let store = ConversationStore::new();
    assert!(store.history_of("alice").is_none());
}

#[test]
fn first_record_creates_history() {
    let mut store = ConversationStore::new();
    store.record("alice", Role::User, "hello");
    let h = store.history_of("alice").expect("history exists");
    assert_eq!(h.len(), 1);
    assert!(h[0].role == Role::User);
    assert_eq!(h[0].content, "hello");
}

#[test]
fn history_is_bounded_and_keeps_most_recent() {
    let mut store = ConversationStore::new();
    for i in 0..25 {
        store.record("alice", Role::User, &format!("msg{}", i));
    }
    let h = store.history_of("alice").expect("history exists");
    assert_eq!(h.len(), MAX_MEMORY);
    for (k, turn) in h.iter().enumerate() {
        // the retained turns are exactly the most recent ones, in order
        assert_eq!(turn.content, format!("msg{}", 25 - MAX_MEMORY + k));
    }
}

#[test]
fn identities_are_independent() {
    let mut store = ConversationStore::new();
    store.record("alice", Role::User, "from alice");
    store.record("bob", Role::User, "from bob");
    store.record("alice", Role::Assistant, "to alice");
    let a = store.history_of("alice").expect("alice history");
    let b = store.history_of("bob").expect("bob history");
    assert_eq!(a.len(), 2);
    assert_eq!(b.len(), 1);
    assert_eq!(a[1].content, "to alice");
    assert!(a[1].role == Role::Assistant);
    assert_eq!(b[0].content, "from bob");
}

#[test]
fn string_unequal_identities_are_distinct() {
    let mut store = ConversationStore::new();
    store.record("Alice", Role::User, "upper");
    store.record("alice", Role::User, "lower");
    assert_eq!(store.history_of("Alice").expect("upper history").len(), 1);
    assert_eq!(store.history_of("alice").expect("lower history").len(), 1);
}

#[test]
fn exchange_can_evict_two_turns() {
    let mut store = ConversationStore::new();
    for i in 0..MAX_MEMORY {
        store.record("alice", Role::User, &format!("old{}", i));
    }
    // one full exchange: both write paths evict independently
    store.record("alice", Role::User, "question");
    store.record("alice", Role::Assistant, "answer");
    let h = store.history_of("alice").expect("history exists");
    assert_eq!(h.len(), MAX_MEMORY);
    assert_eq!(h[0].content, "old2");
    assert_eq!(h[MAX_MEMORY - 2].content, "question");
    assert_eq!(h[MAX_MEMORY - 1].content, "answer");
}
