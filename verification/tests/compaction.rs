use rust_course::compaction::compaction_would_finish;
use rust_course::{compact_keep_recent_turns, Message, Role};

#[test]
fn compaction_does_not_start_with_orphan_tool_result() {
    let history = vec![
        Message::user("u1"),
        Message::assistant("a1 tool call"),
        Message::tool("tool result"),
        Message::assistant("a2"),
    ];

    let compacted = compact_keep_recent_turns(&history, 2);
    assert!(!matches!(compacted[1].role, Role::Tool));
}

#[test]
fn compaction_moves_the_cut_before_tool_results() {
    let history = vec![
        Message::user("u1"),
        Message::assistant("a1 tool call"),
        Message::tool("tool result"),
        Message::assistant("a2"),
    ];
    let compacted = compact_keep_recent_turns(&history, 2);
    assert_eq!(
        compacted,
        vec![
            Message::user("[compact summary] u1"),
            Message::assistant("a1 tool call"),
            Message::tool("tool result"),
            Message::assistant("a2"),
        ]
    );
}

#[test]
fn compaction_summarizes_what_it_drops() {
    let history = vec![
        Message::user("Please inspect the project."),
        Message::assistant("I will call bash."),
        Message::tool("tool_call_id=1 name=bash result=README.md docs rust-course"),
        Message::user("Remember that rust-course exists."),
        Message::assistant("Noted. I will keep the Rust course in context."),
        Message::user("Now continue after compaction."),
    ];
    let compacted = compact_keep_recent_turns(&history, 3);
    assert_eq!(compacted.len(), 4);
    assert_eq!(compacted[0].role, Role::User);
    assert_eq!(
        compacted[0].content,
        "[compact summary] Please inspect the project. | I will call bash. | tool_call_id=1 name=bash result=README.md docs rust-course"
    );
    assert_eq!(&compacted[1..], &history[3..]);
}

#[test]
fn short_history_is_left_alone() {
    let history = vec![Message::user("a"), Message::tool("b")];
    assert_eq!(compact_keep_recent_turns(&history, 2), history);
    assert_eq!(compact_keep_recent_turns(&history, 5), history);
    assert_eq!(compact_keep_recent_turns(&[], 0), vec![]);
}

#[test]
fn keeping_nothing_summarizes_everything() {
    let history = vec![Message::user("a"), Message::assistant("b")];
    assert_eq!(
        compact_keep_recent_turns(&history, 0),
        vec![Message::user("[compact summary] a | b")]
    );
}

#[test]
fn cut_at_the_first_message_gives_an_empty_summary() {
    let history = vec![
        Message::user("q"),
        Message::tool("r1"),
        Message::tool("r2"),
    ];
    let compacted = compact_keep_recent_turns(&history, 2);
    assert_eq!(compacted[0].content, "[compact summary] ");
    assert_eq!(&compacted[1..], &history[..]);
}

#[test]
fn compaction_that_cannot_place_its_cut_is_detected() {
    let all_results = vec![Message::tool("r1"), Message::tool("r2"), Message::tool("r3")];
    assert!(!compaction_would_finish(&all_results, 1));
    assert!(compaction_would_finish(&all_results, 0));
    assert!(compaction_would_finish(&all_results, 3));
    let history = vec![Message::user("u"), Message::tool("r1"), Message::tool("r2")];
    assert!(compaction_would_finish(&history, 1));
}
