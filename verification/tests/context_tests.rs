use ghost_complete::context::parse_command_context;
use ghost_complete::tokenizer::QuoteState;

#[test]
fn test_simple_command_at_end() {
    let ctx = parse_command_context("git", 3);
    assert_eq!(ctx.command, None);
    assert_eq!(ctx.current_word, "git");
    assert_eq!(ctx.word_index, 0);
}

#[test]
fn test_command_with_space() {
    let ctx = parse_command_context("git ", 4);
    assert_eq!(ctx.command, Some("git".into()));
    assert_eq!(ctx.current_word, "");
    assert_eq!(ctx.word_index, 1);
}

#[test]
fn test_command_with_arg() {
    let ctx = parse_command_context("git checkout ", 13);
    assert_eq!(ctx.command, Some("git".into()));
    assert_eq!(ctx.args, vec!["checkout"]);
    assert_eq!(ctx.current_word, "");
    assert_eq!(ctx.word_index, 2);
}

#[test]
fn test_partial_arg() {
    let ctx = parse_command_context("git check", 9);
    assert_eq!(ctx.command, Some("git".into()));
    assert_eq!(ctx.current_word, "check");
    assert_eq!(ctx.word_index, 1);
}

#[test]
fn test_flag() {
    let ctx = parse_command_context("ls -l", 5);
    assert!(ctx.is_flag);
    assert_eq!(ctx.current_word, "-l");
}

#[test]
fn test_long_flag() {
    let ctx = parse_command_context("git log --one", 13);
    assert!(ctx.is_long_flag);
    assert!(ctx.is_flag);
    assert_eq!(ctx.current_word, "--one");
}

#[test]
fn test_flag_value() {
    let ctx = parse_command_context("git checkout -b ", 16);
    assert_eq!(ctx.preceding_flag, Some("-b".into()));
    assert_eq!(ctx.current_word, "");
}

#[test]
fn test_after_pipe() {
    let ctx = parse_command_context("cat f | grep ", 13);
    assert_eq!(ctx.command, Some("grep".into()));
    assert!(ctx.in_pipe);
    assert_eq!(ctx.current_word, "");
    assert_eq!(ctx.word_index, 1);
}

#[test]
fn test_after_redirect() {
    let ctx = parse_command_context("echo hi > ", 10);
    assert!(ctx.in_redirect);
}

#[test]
fn test_after_semicolon() {
    let ctx = parse_command_context("cd /tmp; ls ", 12);
    assert_eq!(ctx.command, Some("ls".into()));
    assert_eq!(ctx.current_word, "");
    assert_eq!(ctx.word_index, 1);
}

#[test]
fn test_cursor_at_start() {
    let ctx = parse_command_context("", 0);
    assert_eq!(ctx.command, None);
    assert_eq!(ctx.current_word, "");
    assert_eq!(ctx.word_index, 0);
}

#[test]
fn test_in_double_quotes() {
    let ctx = parse_command_context("echo \"hel", 9);
    assert_eq!(ctx.quote_state, QuoteState::DoubleQuoted);
    assert_eq!(ctx.current_word, "hel");
}

#[test]
fn test_multiple_pipes() {
    let ctx = parse_command_context("a | b | c ", 10);
    assert_eq!(ctx.command, Some("c".into()));
    assert!(ctx.in_pipe);
}

#[test]
fn test_multibyte_char_does_not_panic() {
    // 'ą' is 2 bytes in UTF-8. cursor=1 means after the first CHARACTER.
    let ctx = parse_command_context("ą", 1);
    assert_eq!(ctx.current_word, "ą");
    assert_eq!(ctx.word_index, 0);
}

#[test]
fn test_multibyte_mid_buffer() {
    // "echo ąść" — cursor at char 6 (after "echo ą")
    let ctx = parse_command_context("echo ąść", 6);
    assert_eq!(ctx.command, Some("echo".into()));
    assert_eq!(ctx.current_word, "ą");
}

#[test]
fn test_multibyte_full_word() {
    let ctx = parse_command_context("echo ąść", 8);
    assert_eq!(ctx.command, Some("echo".into()));
    assert_eq!(ctx.current_word, "ąść");
}

#[test]
fn test_cursor_beyond_end_clamps() {
    let ctx = parse_command_context("git", 999);
    assert_eq!(ctx.current_word, "git");
}

#[test]
fn redirect_target_being_typed() {
    let ctx = parse_command_context("echo hi > ou", 12);
    assert!(ctx.in_redirect);
    assert_eq!(ctx.current_word, "ou");
    let done = parse_command_context("echo hi > out ", 14);
    assert!(!done.in_redirect);
}
