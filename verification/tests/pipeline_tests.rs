use chat_relay::{
    build, classify, directive_for, fallback_reply, settle_completion, ConversationStore,
    Dispatch, InboundMessage, PromptError, Role,
};

#[test]
fn build_without_history_fails() {
    let store = ConversationStore::new();
    let r = build("alice", &store);
    assert!(matches!(r, Err(PromptError::NoHistory)));
}

#[test]
fn build_prepends_ephemeral_directive() {
    let mut store = ConversationStore::new();
    store.record("alice", Role::User, "hi there");
    let prompt = build("alice", &store).expect("history was recorded");
    assert_eq!(prompt.len(), 2);
    assert!(prompt[0].role == Role::System);
    assert_eq!(prompt[0].content, directive_for("alice"));
    assert_eq!(
        prompt[0].content,
        "You are an IRC chat bot. Your name is pickles. Your job is to respond to other members \
         of your channel in a funny and humorous manner. You are supposed to make people laugh. \
         You should be silly, funny, stupid, irreverent, witty, likable, and fun. Your responses \
         don't have to make sense but the should make people laugh. Your most recent message is \
         from: alice. Make sure you respond to them."
    );
    assert!(prompt[1].role == Role::User);
    assert_eq!(prompt[1].content, "hi there");
    // the directive turn is reconstructed per call, never stored
    assert_eq!(store.history_of("alice").expect("still there").len(), 1);
    let again = build("alice", &store).expect("history still there");
    assert_eq!(again.len(), 2);
}

#[test]
fn zero_choices_fall_back_and_leave_store_unchanged() {
    let mut store = ConversationStore::new();
    store.record("alice", Role::User, "question");
    let choices: Vec<Option<String>> = Vec::new();
    let reply = settle_completion(&mut store, "alice", &choices);
    assert_eq!(reply, "hrmmm I'm not really sure...");
    assert_eq!(reply, fallback_reply());
    let h = store.history_of("alice").expect("history exists");
    assert_eq!(h.len(), 1);
    assert!(h[0].role == Role::User);
}

#[test]
fn first_choice_is_recorded_once_as_assistant_turn() {
    let mut store = ConversationStore::new();
    store.record("alice", Role::User, "question");
    let choices = vec![Some(String::from("answer")), Some(String::from("ignored"))];
    let reply = settle_completion(&mut store, "alice", &choices);
    assert_eq!(reply, "answer");
    let h = store.history_of("alice").expect("history exists");
    assert_eq!(h.len(), 2);
    assert!(h[1].role == Role::Assistant);
    assert_eq!(h[1].content, "answer");
}

#[test]
fn contentless_choice_records_empty_reply() {
    let mut store = ConversationStore::new();
    store.record("alice", Role::User, "question");
    let choices = vec![None];
    let reply = settle_completion(&mut store, "alice", &choices);
    assert_eq!(reply, "");
    let h = store.history_of("alice").expect("history exists");
    assert_eq!(h.len(), 2);
    assert_eq!(h[1].content, "");
}

fn msg(target: &str, text: &str, sender: Option<&str>) -> InboundMessage {
    InboundMessage {
        target: target.to_string(),
        text: text.to_string(),
        sender: sender.map(|s| s.to_string()),
    }
}

fn channels() -> Vec<String> {
    vec!["#linuxgeneration".to_string(), "#dfw".to_string()]
}

#[test]
fn addressed_channel_message_is_consumed() {
    let m = msg("#linuxgeneration", "pickles: tell me a joke", Some("bob"));
    match classify(&m, "pickles", &channels()) {
        Dispatch::Respond { identity, content, arrival_target } => {
            assert_eq!(identity, "bob");
            assert_eq!(content, "tell me a joke");
            assert_eq!(arrival_target, "#linuxgeneration");
        }
        Dispatch::Ignore => panic!("should be consumed"),
    }
}

#[test]
fn unaddressed_channel_message_is_ignored() {
    let m = msg("#dfw", "just chatting", Some("bob"));
    assert!(matches!(classify(&m, "pickles", &channels()), Dispatch::Ignore));
}

#[test]
fn unmonitored_channel_is_ignored() {
    let m = msg("#other", "pickles: hello", Some("bob"));
    assert!(matches!(classify(&m, "pickles", &channels()), Dispatch::Ignore));
}

#[test]
fn missing_sender_falls_back_to_placeholder() {
    let m = msg("#dfw", "pickles: hello", None);
    match classify(&m, "pickles", &channels()) {
        Dispatch::Respond { identity, content, arrival_target } => {
            assert_eq!(identity, "Luser");
            assert_eq!(content, "hello");
            assert_eq!(arrival_target, "#dfw");
        }
        Dispatch::Ignore => panic!("should be consumed"),
    }
}

#[test]
fn private_delivery_answers_the_sender() {
    let m = msg("pickles", "hello there", Some("bob"));
    match classify(&m, "pickles", &channels()) {
        Dispatch::Respond { identity, content, arrival_target } => {
            assert_eq!(identity, "bob");
            assert_eq!(content, "hello there");
            assert_eq!(arrival_target, "bob");
        }
        Dispatch::Ignore => panic!("should be consumed"),
    }
}

#[test]
fn private_delivery_from_sentinel_is_ignored() {
    let m = msg("pickles", "hello there", Some("DM"));
    assert!(matches!(classify(&m, "pickles", &channels()), Dispatch::Ignore));
}

#[test]
fn private_delivery_without_sender_is_ignored() {
    let m = msg("pickles", "hello there", None);
    assert!(matches!(classify(&m, "pickles", &channels()), Dispatch::Ignore));
}

#[test]
fn nick_change_moves_the_address_prefix() {
    let m = msg("#dfw", "pickles: hello", Some("bob"));
    // the current self-identifier is re-read per event; under a new nick the
    // old prefix no longer matches
    assert!(matches!(classify(&m, "gherkin", &channels()), Dispatch::Ignore));
    let m2 = msg("#dfw", "gherkin: hello", Some("bob"));
    assert!(matches!(
        classify(&m2, "gherkin", &channels()),
        Dispatch::Respond { .. }
    ));
}
