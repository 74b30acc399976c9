use ghost_complete::context::CommandContext;
use ghost_complete::history::{parse_history_line, HistoryProvider};
use ghost_complete::tokenizer::QuoteState;

fn cmd_position_ctx(word: &str) -> CommandContext {
    CommandContext {
        command: None,
        args: vec![],
        current_word: word.to_string(),
        word_index: 0,
        is_flag: false,
        is_long_flag: false,
        preceding_flag: None,
        in_pipe: false,
        in_redirect: false,
        quote_state: QuoteState::Unquoted,
    }
}

fn arg_position_ctx() -> CommandContext {
    CommandContext {
        command: Some("git".into()),
        args: vec![],
        current_word: String::new(),
        word_index: 1,
        is_flag: false,
        is_long_flag: false,
        preceding_flag: None,
        in_pipe: false,
        in_redirect: false,
        quote_state: QuoteState::Unquoted,
    }
}

#[test]
fn test_parse_extended_history() {
    let line = ": 1234567890:0;git push";
    assert_eq!(parse_history_line(line), "git push");
}

#[test]
fn test_parse_plain_history() {
    let line = "cargo build --release";
    assert_eq!(parse_history_line(line), "cargo build --release");
}

#[test]
fn test_history_only_at_command_position() {
    let provider = HistoryProvider::from_entries(vec!["git push".into(), "ls -la".into()]);
    let ctx = arg_position_ctx();
    let results = provider.provide(&ctx, "/tmp");
    assert!(results.is_empty());
}

#[test]
fn test_history_at_command_position() {
    let provider = HistoryProvider::from_entries(vec!["git push".into(), "ls -la".into()]);
    let ctx = cmd_position_ctx("gi");
    let results = provider.provide(&ctx, "/tmp");
    assert_eq!(results.len(), 2);
    assert!(results.iter().any(|s| s.text == "git"));
    assert!(results.iter().any(|s| s.text == "ls"));
}

#[test]
fn history_keeps_most_recent_distinct_commands() {
    let contents = ": 1:0;git push\nls -la\n: 2:0;git push\ncargo build\n\n";
    let entries = HistoryProvider::parse_and_dedup(contents, 10);
    assert_eq!(entries, vec!["ls -la", "git push", "cargo build"]);
}

#[test]
fn history_limit_keeps_newest() {
    let contents = "a\nb\nc\nd\n";
    assert_eq!(HistoryProvider::parse_and_dedup(contents, 2), vec!["c", "d"]);
    assert!(HistoryProvider::parse_and_dedup(contents, 0).is_empty());
}

#[test]
fn history_load_from_bytes() {
    let provider = HistoryProvider::load(Some(b"git status\r\ngit status\nmake\n"), 100);
    let results = provider.provide(&cmd_position_ctx(""), ".");
    let texts: Vec<&str> = results.iter().map(|s| s.text.as_str()).collect();
    assert_eq!(texts, vec!["git", "make"]);
    assert_eq!(results[0].description.as_deref(), Some("git status"));
    let none = HistoryProvider::load(None, 100);
    assert!(none.provide(&cmd_position_ctx(""), ".").is_empty());
}

#[test]
fn history_invalid_utf8_is_replaced() {
    let provider = HistoryProvider::load(Some(&[0x66, 0xFF, 0x0A]), 100);
    let results = provider.provide(&cmd_position_ctx(""), ".");
    assert_eq!(results.len(), 1);
    assert_eq!(results[0].text, "f\u{FFFD}");
}

#[test]
fn zero_limit_loads_nothing() {
    assert!(HistoryProvider::parse_and_dedup("ls\ngit status\n", 0).is_empty());
    assert_eq!(HistoryProvider::parse_and_dedup("ls\ngit status\nls\n", 1), vec!["ls".to_string()]);
}
