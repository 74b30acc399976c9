use ghost_complete::overlay::OverlayState;
use ghost_complete::render::{render_popup_themed, PopupTheme};
use ghost_complete::style::parse_style;
use ghost_complete::suggestion::{Suggestion, SuggestionKind, SuggestionSource};

#[test]
fn parse_style_single_tokens() {
    assert_eq!(parse_style("reverse").unwrap(), b"\x1b[7m".to_vec());
    assert_eq!(parse_style("dim").unwrap(), b"\x1b[2m".to_vec());
    assert_eq!(parse_style("bold").unwrap(), b"\x1b[1m".to_vec());
    assert_eq!(parse_style("underline").unwrap(), b"\x1b[4m".to_vec());
    assert_eq!(parse_style("fg:255").unwrap(), b"\x1b[38;5;255m".to_vec());
    assert_eq!(parse_style("bg:236").unwrap(), b"\x1b[48;5;236m".to_vec());
}

#[test]
fn parse_style_combines_tokens() {
    assert_eq!(parse_style("  bold fg:208\tunderline ").unwrap(), b"\x1b[1m\x1b[38;5;208m\x1b[4m".to_vec());
    assert_eq!(parse_style("").unwrap(), Vec::<u8>::new());
}

#[test]
fn parse_style_rejects_unknown_tokens() {
    assert_eq!(parse_style("bold blink fg:1").unwrap_err().token, "blink");
    assert_eq!(parse_style("fg:256").unwrap_err().token, "fg:256");
    assert_eq!(parse_style("bg:").unwrap_err().token, "bg:");
    assert_eq!(parse_style("fg:1x").unwrap_err().token, "fg:1x");
}

#[test]
fn themed_render_uses_theme_bytes() {
    let suggestions = vec![Suggestion {
        text: "checkout".into(),
        description: Some("Switch branches".into()),
        kind: SuggestionKind::Subcommand,
        source: SuggestionSource::Spec,
        score: 0,
    }, Suggestion {
        text: "commit".into(),
        description: Some("Record changes".into()),
        kind: SuggestionKind::Subcommand,
        source: SuggestionSource::Spec,
        score: 0,
    }];
    let mut state = OverlayState::new();
    state.selected = Some(0);
    let theme = PopupTheme {
        selected_on: parse_style("fg:255 bg:236").unwrap(),
        description_on: parse_style("underline").unwrap(),
    };
    let mut buf = Vec::new();
    render_popup_themed(&mut buf, &suggestions, &state, 5, 0, 24, 80, 10, 20, 60, &theme);
    let output = String::from_utf8_lossy(&buf);
    assert!(output.contains("\x1b[38;5;255m\x1b[48;5;236m S checkout"));
    assert!(output.contains("\x1b[4mRecord changes\x1b[0m"));
    assert!(!output.contains("\x1b[7m"));
}
