use chat_relay::{delivery_strategy, notice_for, plan_delivery, Strategy, CHUNK_LIMIT, MAX_LINES};

#[test]
fn three_short_lines_go_direct() {
    let line = "x".repeat(100);
    let reply = format!("{}\n{}\n{}", line, line, line);
    assert!(delivery_strategy(&reply) == Strategy::Direct);
    let plan = plan_delivery(&reply, "#chan", "alice");
    assert_eq!(plan.len(), 3);
    for (target, chunk) in &plan {
        assert_eq!(target, "#chan");
        assert_eq!(chunk.chars().count(), 100);
    }
}

#[test]
fn six_lines_redirect_with_notice() {
    let reply = "l1\nl2\nl3\nl4\nl5\nl6";
    assert!(delivery_strategy(reply) == Strategy::Redirect);
    let plan = plan_delivery(reply, "#chan", "alice");
    assert_eq!(plan.len(), 7);
    assert_eq!(plan[0].0, "#chan");
    assert_eq!(
        plan[0].1,
        "alice: sure but it's a big one so I'll send it to just you"
    );
    for (k, (target, chunk)) in plan.iter().skip(1).enumerate() {
        assert_eq!(target, "alice");
        assert_eq!(chunk, &format!("l{}", k + 1));
    }
}

#[test]
fn six_lines_to_self_redirect_without_notice() {
    let reply = "l1\nl2\nl3\nl4\nl5\nl6";
    // the trigger already arrived in private: arrival target == sender
    let plan = plan_delivery(reply, "alice", "alice");
    assert_eq!(plan.len(), 6);
    for (target, _) in &plan {
        assert_eq!(target, "alice");
    }
}

#[test]
fn exact_double_limit_line_makes_two_chunks() {
    let reply = "y".repeat(2 * CHUNK_LIMIT);
    assert!(delivery_strategy(&reply) == Strategy::Direct);
    let plan = plan_delivery(&reply, "#chan", "alice");
    assert_eq!(plan.len(), 2);
    assert_eq!(plan[0].0, "#chan");
    assert_eq!(plan[1].0, "#chan");
    assert_eq!(plan[0].1.chars().count(), CHUNK_LIMIT);
    assert_eq!(plan[1].1.chars().count(), CHUNK_LIMIT);
}

#[test]
fn one_over_limit_leaves_single_char_chunk() {
    let reply = "z".repeat(CHUNK_LIMIT + 1);
    let plan = plan_delivery(&reply, "#chan", "alice");
    assert_eq!(plan.len(), 2);
    assert_eq!(plan[0].1.chars().count(), CHUNK_LIMIT);
    assert_eq!(plan[1].1, "z");
}

#[test]
fn limit_is_counted_in_characters_not_bytes() {
    // 600 two-byte characters: 1200 bytes, but only 600 characters
    let reply = "é".repeat(600);
    let plan = plan_delivery(&reply, "#chan", "alice");
    assert_eq!(plan.len(), 2);
    assert_eq!(plan[0].1.chars().count(), CHUNK_LIMIT);
    assert_eq!(plan[1].1.chars().count(), 100);
}

#[test]
fn direct_drops_lines_beyond_the_budget_never_applies_within_it() {
    // exactly MAX_LINES lines stay direct and all are delivered
    let reply = vec!["a"; MAX_LINES].join("\n");
    let plan = plan_delivery(&reply, "#chan", "alice");
    assert_eq!(plan.len(), MAX_LINES);
}

#[test]
fn empty_line_is_sent_as_empty_chunk() {
    let plan = plan_delivery("a\n\nb", "#chan", "alice");
    assert_eq!(plan.len(), 3);
    assert_eq!(plan[1].1, "");
}

#[test]
fn empty_reply_plans_nothing() {
    let plan = plan_delivery("", "#chan", "alice");
    assert!(plan.is_empty());
}

#[test]
fn trailing_newline_adds_no_line() {
    let plan = plan_delivery("a\nb\n", "#chan", "alice");
    assert_eq!(plan.len(), 2);
    assert_eq!(plan[0].1, "a");
    assert_eq!(plan[1].1, "b");
}

#[test]
fn carriage_return_line_endings_are_stripped() {
    let plan = plan_delivery("a\r\nb", "#chan", "alice");
    assert_eq!(plan.len(), 2);
    assert_eq!(plan[0].1, "a");
    assert_eq!(plan[1].1, "b");
}

#[test]
fn replanning_the_same_reply_is_deterministic() {
    let reply = "l1\nl2\nl3\nl4\nl5\nl6";
    let first = plan_delivery(reply, "#chan", "alice");
    let second = plan_delivery(reply, "#chan", "alice");
    assert_eq!(first, second);
}

#[test]
fn notice_names_the_sender() {
    assert_eq!(
        notice_for("bob"),
        "bob: sure but it's a big one so I'll send it to just you"
    );
}
