use ghost_complete::overlay::{
    OverlayState, PopupLayout, DEFAULT_MAX_POPUP_WIDTH, DEFAULT_MAX_VISIBLE, DEFAULT_MIN_POPUP_WIDTH,
};
use ghost_complete::render::{clear_popup, format_item, render_popup};
use ghost_complete::suggestion::{Suggestion, SuggestionKind, SuggestionSource};

fn make(text: &str, desc: Option<&str>, kind: SuggestionKind) -> Suggestion {
    Suggestion {
        text: text.to_string(),
        description: desc.map(String::from),
        kind,
        source: SuggestionSource::Spec,
        score: 0,
    }
}

fn make_suggestions() -> Vec<Suggestion> {
    vec![
        make(
            "checkout",
            Some("Switch branches"),
            SuggestionKind::Subcommand,
        ),
        make("commit", Some("Record changes"), SuggestionKind::Subcommand),
        make("push", Some("Update remote"), SuggestionKind::Subcommand),
    ]
}

#[test]
fn test_render_produces_sync_wrapper() {
    let mut buf = Vec::new();
    let suggestions = make_suggestions();
    let state = OverlayState::new();
    render_popup(
        &mut buf,
        &suggestions,
        &state,
        5,
        0,
        24,
        80,
        DEFAULT_MAX_VISIBLE,
        DEFAULT_MIN_POPUP_WIDTH,
        DEFAULT_MAX_POPUP_WIDTH,
    );
    let output = String::from_utf8_lossy(&buf);
    assert!(
        output.starts_with("\x1b[?2026h"),
        "should start with begin_sync"
    );
    assert!(output.ends_with("\x1b[?2026l"), "should end with end_sync");
}

#[test]
fn test_render_saves_restores_cursor() {
    let mut buf = Vec::new();
    let suggestions = make_suggestions();
    let state = OverlayState::new();
    render_popup(
        &mut buf,
        &suggestions,
        &state,
        5,
        0,
        24,
        80,
        DEFAULT_MAX_VISIBLE,
        DEFAULT_MIN_POPUP_WIDTH,
        DEFAULT_MAX_POPUP_WIDTH,
    );
    let output = String::from_utf8_lossy(&buf);
    assert!(output.contains("\x1b7"), "should contain save cursor");
    assert!(output.contains("\x1b8"), "should contain restore cursor");
}

#[test]
fn test_render_positions_at_layout() {
    let mut buf = Vec::new();
    let suggestions = make_suggestions();
    let state = OverlayState::new();
    render_popup(
        &mut buf,
        &suggestions,
        &state,
        5,
        0,
        24,
        80,
        DEFAULT_MAX_VISIBLE,
        DEFAULT_MIN_POPUP_WIDTH,
        DEFAULT_MAX_POPUP_WIDTH,
    );
    let output = String::from_utf8_lossy(&buf);
    // Popup below cursor at row 5 → starts at row 6 (1-indexed: 7)
    assert!(
        output.contains("\x1b[7;1H"),
        "should position at row 7 col 1"
    );
}

#[test]
fn test_selected_item_has_reverse_video() {
    let mut buf = Vec::new();
    let suggestions = make_suggestions();
    let mut state = OverlayState::new();
    state.selected = Some(0);
    render_popup(
        &mut buf,
        &suggestions,
        &state,
        5,
        0,
        24,
        80,
        DEFAULT_MAX_VISIBLE,
        DEFAULT_MIN_POPUP_WIDTH,
        DEFAULT_MAX_POPUP_WIDTH,
    );
    let output = String::from_utf8_lossy(&buf);
    assert!(
        output.contains("\x1b[7m"),
        "should contain reverse video for selected"
    );
}

#[test]
fn test_format_item_shows_kind_gutter() {
    let mut buf = Vec::new();
    let s = make("checkout", None, SuggestionKind::Subcommand);
    format_item(&mut buf, &s, 30, false);
    let output = String::from_utf8_lossy(&buf);
    assert!(
        output.starts_with(" S checkout"),
        "should show kind char S for subcommand: got '{output}'"
    );
}

#[test]
fn test_format_item_truncates_description() {
    let mut buf = Vec::new();
    let long_desc = "a".repeat(200);
    let s = make("cmd", Some(&long_desc), SuggestionKind::Command);
    format_item(&mut buf, &s, 30, false);
    // Output should not exceed width
    assert!(buf.len() < 200, "should truncate description");
}

#[test]
fn test_clear_writes_spaces() {
    let mut buf = Vec::new();
    let layout = PopupLayout {
        start_row: 5,
        start_col: 0,
        width: 20,
        height: 3,
        renders_above: false,
    };
    clear_popup(&mut buf, &layout);
    let output = String::from_utf8_lossy(&buf);
    assert!(!output.contains("\x1b[K"), "should not use erase_to_eol");
    assert!(
        output.contains("                    "),
        "should write spaces"
    );
}

#[test]
fn test_clear_correct_dimensions() {
    let mut buf = Vec::new();
    let layout = PopupLayout {
        start_row: 10,
        start_col: 5,
        width: 25,
        height: 4,
        renders_above: false,
    };
    clear_popup(&mut buf, &layout);
    let output = String::from_utf8_lossy(&buf);
    assert!(output.contains("\x1b[11;6H"), "row 10 -> ANSI row 11");
    assert!(output.contains("\x1b[12;6H"), "row 11 -> ANSI row 12");
    assert!(output.contains("\x1b[13;6H"), "row 12 -> ANSI row 13");
    assert!(output.contains("\x1b[14;6H"), "row 13 -> ANSI row 14");
}

#[test]
fn test_render_with_scroll_offset() {
    let mut buf = Vec::new();
    let suggestions: Vec<Suggestion> = (0..15)
        .map(|i| make(&format!("item{i}"), None, SuggestionKind::Command))
        .collect();
    let mut state = OverlayState::new();
    state.scroll_offset = 5;
    state.selected = Some(5);
    let layout = render_popup(
        &mut buf,
        &suggestions,
        &state,
        5,
        0,
        24,
        80,
        DEFAULT_MAX_VISIBLE,
        DEFAULT_MIN_POPUP_WIDTH,
        DEFAULT_MAX_POPUP_WIDTH,
    );
    let output = String::from_utf8_lossy(&buf);
    assert!(
        output.contains("item5"),
        "should show item5 at scroll_offset=5"
    );
    assert!(
        !output.contains("item0"),
        "should not show item0 when scrolled"
    );
    assert_eq!(layout.height, 10); // DEFAULT_MAX_VISIBLE
}

#[test]
fn test_render_empty_suggestions() {
    let mut buf = Vec::new();
    let suggestions: Vec<Suggestion> = vec![];
    let state = OverlayState::new();
    let layout = render_popup(
        &mut buf,
        &suggestions,
        &state,
        5,
        0,
        24,
        80,
        DEFAULT_MAX_VISIBLE,
        DEFAULT_MIN_POPUP_WIDTH,
        DEFAULT_MAX_POPUP_WIDTH,
    );
    assert_eq!(layout.height, 0);
    assert!(
        buf.is_empty(),
        "should produce no output for empty suggestions"
    );
}

#[test]
fn render_empty_list_at_any_offset_draws_nothing() {
    let mut buf = Vec::new();
    let state = OverlayState { selected: None, scroll_offset: 7 };
    let layout = render_popup(&mut buf, &[], &state, 5, 10, 24, 80, DEFAULT_MAX_VISIBLE, DEFAULT_MIN_POPUP_WIDTH, DEFAULT_MAX_POPUP_WIDTH);
    assert_eq!(layout.height, 0);
    assert!(buf.is_empty());
}

#[test]
fn render_on_very_wide_screen() {
    let mut buf = Vec::new();
    let items = vec![make("checkout", None, SuggestionKind::Subcommand)];
    let state = OverlayState::new();
    let layout = render_popup(&mut buf, &items, &state, 5, 40000, 24, 60000, DEFAULT_MAX_VISIBLE, DEFAULT_MIN_POPUP_WIDTH, DEFAULT_MAX_POPUP_WIDTH);
    assert_eq!(layout.start_col, 40000);
    assert!(buf.starts_with(b"\x1b[?2026h\x1b7"));
    assert!(buf.ends_with(b"\x1b8\x1b[?2026l"));
}
