use rust_course::text::{chars_of, contains_text, same_text, trimmed, trimmed_end, white_space};
use rust_course::{char_prefix, ShellTool};

#[test]
fn shell_tool_blocks_commands_outside_its_allowlist() {
    let shell = ShellTool::new(vec!["pwd".to_string(), "ls -la".to_string()]);
    assert_eq!(shell.name(), "bash");
    assert!(shell.allows("pwd"));
    assert!(!shell.allows("pwd "));
    assert_eq!(shell.screen("ls -la"), None);
    assert_eq!(
        shell.screen("rm x"),
        Some("blocked: command is not in the lab allowlist: rm x".to_string())
    );
}

#[test]
fn shell_tool_answers_with_trimmed_output() {
    assert_eq!(ShellTool::finish(true, "/home/lab\n", "warn\n"), "/home/lab");
    assert_eq!(ShellTool::finish(false, "ignored", "failure \t\n"), "failure");
    assert_eq!(ShellTool::finish(true, "  keep leading", ""), "  keep leading");
}

#[test]
fn trimming_follows_white_space() {
    assert_eq!(trimmed("\t a b \n"), "a b");
    assert_eq!(trimmed("\u{3000}x\u{2029}"), "x");
    assert_eq!(trimmed(" \n "), "");
    assert_eq!(trimmed_end("  x  "), "  x");
    assert!(white_space('\u{85}'));
    assert!(!white_space('\u{200b}'));
    assert!(!white_space('a'));
}

#[test]
fn prefixes_count_characters() {
    assert_eq!(char_prefix("héllo", 2), "hé");
    assert_eq!(char_prefix("abc", 10), "abc");
    assert_eq!(char_prefix("abc", 0), "");
}

#[test]
fn text_search_and_comparison() {
    assert!(contains_text(&chars_of("please sudo now"), &chars_of("sudo")));
    assert!(!contains_text(&chars_of("sud"), &chars_of("sudo")));
    assert!(contains_text(&chars_of("x"), &chars_of("")));
    assert!(same_text("a", "a"));
    assert!(!same_text("a", "b"));
}
