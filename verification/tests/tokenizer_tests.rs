use ghost_complete::tokenizer::{tokenize, QuoteState, Token};

fn words(input: &str) -> Vec<Token> {
    tokenize(input).tokens
}

#[test]
fn test_simple_command() {
    assert_eq!(
        words("ls -la"),
        vec![Token::Word("ls".into()), Token::Word("-la".into()),]
    );
}

#[test]
fn test_pipe() {
    assert_eq!(
        words("cat f | grep x"),
        vec![
            Token::Word("cat".into()),
            Token::Word("f".into()),
            Token::Pipe,
            Token::Word("grep".into()),
            Token::Word("x".into()),
        ]
    );
}

#[test]
fn test_redirect() {
    assert_eq!(
        words("echo hi > f.txt"),
        vec![
            Token::Word("echo".into()),
            Token::Word("hi".into()),
            Token::RedirectOut,
            Token::Word("f.txt".into()),
        ]
    );
}

#[test]
fn test_append_redirect() {
    assert_eq!(
        words("echo hi >> f.txt"),
        vec![
            Token::Word("echo".into()),
            Token::Word("hi".into()),
            Token::RedirectAppend,
            Token::Word("f.txt".into()),
        ]
    );
}

#[test]
fn test_single_quotes() {
    assert_eq!(
        words("echo 'hello world'"),
        vec![
            Token::Word("echo".into()),
            Token::Word("hello world".into()),
        ]
    );
}

#[test]
fn test_double_quotes() {
    assert_eq!(
        words("echo \"hello world\""),
        vec![
            Token::Word("echo".into()),
            Token::Word("hello world".into()),
        ]
    );
}

#[test]
fn test_escape_in_double_quotes() {
    assert_eq!(
        words(r#"echo "say \"hi\"""#),
        vec![Token::Word("echo".into()), Token::Word("say \"hi\"".into()),]
    );
}

#[test]
fn test_backslash_escape() {
    assert_eq!(
        words(r"echo hello\ world"),
        vec![
            Token::Word("echo".into()),
            Token::Word("hello world".into()),
        ]
    );
}

#[test]
fn test_and_operator() {
    assert_eq!(
        words("cmd1 && cmd2"),
        vec![
            Token::Word("cmd1".into()),
            Token::And,
            Token::Word("cmd2".into()),
        ]
    );
}

#[test]
fn test_or_operator() {
    assert_eq!(
        words("cmd1 || cmd2"),
        vec![
            Token::Word("cmd1".into()),
            Token::Or,
            Token::Word("cmd2".into()),
        ]
    );
}

#[test]
fn test_semicolon() {
    assert_eq!(
        words("cmd1; cmd2"),
        vec![
            Token::Word("cmd1".into()),
            Token::Semicolon,
            Token::Word("cmd2".into()),
        ]
    );
}

#[test]
fn test_incomplete_double_quote() {
    let result = tokenize("echo \"hello");
    assert_eq!(
        result.tokens,
        vec![Token::Word("echo".into()), Token::Word("hello".into()),]
    );
    assert_eq!(result.quote_state, QuoteState::DoubleQuoted);
}

#[test]
fn test_incomplete_single_quote() {
    let result = tokenize("echo 'hello");
    assert_eq!(
        result.tokens,
        vec![Token::Word("echo".into()), Token::Word("hello".into()),]
    );
    assert_eq!(result.quote_state, QuoteState::SingleQuoted);
}

#[test]
fn tokenizer_test_empty_input() {
    assert_eq!(words(""), Vec::<Token>::new());
}

#[test]
fn test_only_spaces() {
    assert_eq!(words("   "), Vec::<Token>::new());
}

#[test]
fn joined_lines_tokenize_as_parts() {
    let a = "git commit -m 'fix it' > log";
    let b = "| grep \"x y";
    let joined = tokenize(&format!("{a} {b}"));
    let mut expected = tokenize(a).tokens;
    expected.extend(tokenize(b).tokens);
    assert_eq!(joined.tokens, expected);
    assert_eq!(joined.quote_state, tokenize(b).quote_state);
}
