use ghost_complete::layout::compute_layout;
use ghost_complete::overlay::{DEFAULT_MAX_POPUP_WIDTH, DEFAULT_MAX_VISIBLE, DEFAULT_MIN_POPUP_WIDTH};
use ghost_complete::suggestion::{Suggestion, SuggestionKind, SuggestionSource};

fn make(text: &str, desc: Option<&str>) -> Suggestion {
    Suggestion {
        text: text.to_string(),
        description: desc.map(String::from),
        kind: SuggestionKind::Command,
        source: SuggestionSource::Commands,
        score: 0,
    }
}

#[test]
fn test_popup_below_cursor() {
    let suggestions = vec![make("checkout", None), make("commit", None)];
    let layout = compute_layout(
        &suggestions,
        0,
        5,
        0,
        24,
        80,
        DEFAULT_MAX_VISIBLE,
        DEFAULT_MIN_POPUP_WIDTH,
        DEFAULT_MAX_POPUP_WIDTH,
    );
    assert!(!layout.renders_above);
    assert_eq!(layout.start_row, 6);
}

#[test]
fn test_popup_above_cursor() {
    let suggestions: Vec<Suggestion> =
        (0..5).map(|i| make(&format!("item{i}"), None)).collect();
    let layout = compute_layout(
        &suggestions,
        0,
        22,
        0,
        24,
        80,
        DEFAULT_MAX_VISIBLE,
        DEFAULT_MIN_POPUP_WIDTH,
        DEFAULT_MAX_POPUP_WIDTH,
    );
    assert!(layout.renders_above);
    assert!(layout.start_row < 22);
}

#[test]
fn test_popup_shifts_left() {
    let suggestions = vec![make("a-long-suggestion-name", None)];
    let layout = compute_layout(
        &suggestions,
        0,
        5,
        70,
        24,
        80,
        DEFAULT_MAX_VISIBLE,
        DEFAULT_MIN_POPUP_WIDTH,
        DEFAULT_MAX_POPUP_WIDTH,
    );
    assert!(layout.start_col + layout.width <= 80);
}

#[test]
fn test_popup_at_top_left() {
    let suggestions = vec![make("ls", None)];
    let layout = compute_layout(
        &suggestions,
        0,
        0,
        0,
        24,
        80,
        DEFAULT_MAX_VISIBLE,
        DEFAULT_MIN_POPUP_WIDTH,
        DEFAULT_MAX_POPUP_WIDTH,
    );
    assert_eq!(layout.start_row, 1);
    assert_eq!(layout.start_col, 0);
}

#[test]
fn test_width_clamped_min() {
    let suggestions = vec![make("x", None)];
    let layout = compute_layout(
        &suggestions,
        0,
        0,
        0,
        24,
        80,
        DEFAULT_MAX_VISIBLE,
        DEFAULT_MIN_POPUP_WIDTH,
        DEFAULT_MAX_POPUP_WIDTH,
    );
    assert!(layout.width >= DEFAULT_MIN_POPUP_WIDTH);
}

#[test]
fn test_width_clamped_max() {
    let long_desc = "a".repeat(200);
    let suggestions = vec![make("cmd", Some(&long_desc))];
    let layout = compute_layout(
        &suggestions,
        0,
        0,
        0,
        24,
        80,
        DEFAULT_MAX_VISIBLE,
        DEFAULT_MIN_POPUP_WIDTH,
        DEFAULT_MAX_POPUP_WIDTH,
    );
    assert!(layout.width <= DEFAULT_MAX_POPUP_WIDTH);
}

#[test]
fn test_height_capped_at_max_visible() {
    let suggestions: Vec<Suggestion> =
        (0..50).map(|i| make(&format!("item{i}"), None)).collect();
    let layout = compute_layout(
        &suggestions,
        0,
        0,
        0,
        24,
        80,
        DEFAULT_MAX_VISIBLE,
        DEFAULT_MIN_POPUP_WIDTH,
        DEFAULT_MAX_POPUP_WIDTH,
    );
    assert_eq!(layout.height, DEFAULT_MAX_VISIBLE as u16);
}

#[test]
fn layout_test_custom_max_visible() {
    let suggestions: Vec<Suggestion> =
        (0..50).map(|i| make(&format!("item{i}"), None)).collect();
    let layout = compute_layout(
        &suggestions,
        0,
        0,
        0,
        24,
        80,
        5,
        DEFAULT_MIN_POPUP_WIDTH,
        DEFAULT_MAX_POPUP_WIDTH,
    );
    assert_eq!(layout.height, 5);
}

#[test]
fn layout_on_very_wide_screen() {
    let items = vec![make("checkout", None)];
    let l = compute_layout(&items, 0, 5, 50000, 24, 65000, DEFAULT_MAX_VISIBLE, DEFAULT_MIN_POPUP_WIDTH, DEFAULT_MAX_POPUP_WIDTH);
    assert_eq!(l.start_col, 50000);
    assert_eq!(l.width, DEFAULT_MIN_POPUP_WIDTH);
}
