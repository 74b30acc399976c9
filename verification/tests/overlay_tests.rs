use ghost_complete::overlay::{OverlayState, DEFAULT_MAX_VISIBLE};

#[test]
fn test_move_down_from_none_selects_first() {
    let mut state = OverlayState::new();
    assert_eq!(state.selected, None);
    state.move_down(5, DEFAULT_MAX_VISIBLE);
    assert_eq!(state.selected, Some(0));
}

#[test]
fn test_move_down_increments() {
    let mut state = OverlayState::new();
    state.selected = Some(0);
    state.move_down(5, DEFAULT_MAX_VISIBLE);
    assert_eq!(state.selected, Some(1));
}

#[test]
fn test_move_up_decrements() {
    let mut state = OverlayState::new();
    state.selected = Some(1);
    state.move_up();
    assert_eq!(state.selected, Some(0));
}

#[test]
fn test_move_up_at_zero_deselects() {
    let mut state = OverlayState::new();
    state.selected = Some(0);
    state.move_up();
    assert_eq!(state.selected, None);
}

#[test]
fn test_move_up_at_none_stays_none() {
    let mut state = OverlayState::new();
    state.move_up();
    assert_eq!(state.selected, None);
}

#[test]
fn test_move_down_at_end_stays() {
    let mut state = OverlayState::new();
    state.selected = Some(4);
    state.move_down(5, DEFAULT_MAX_VISIBLE);
    assert_eq!(state.selected, Some(4));
}

#[test]
fn test_scroll_offset_on_move_down() {
    let mut state = OverlayState::new();
    // First move_down goes None -> Some(0), then 0->1, 1->2, ...
    for _ in 0..DEFAULT_MAX_VISIBLE + 3 {
        state.move_down(20, DEFAULT_MAX_VISIBLE);
    }
    // None + (MAX_VISIBLE + 3) moves = Some(MAX_VISIBLE + 2)
    assert_eq!(state.selected, Some(DEFAULT_MAX_VISIBLE + 2));
    assert!(state.scroll_offset > 0);
    assert!(state.selected.unwrap() < state.scroll_offset + DEFAULT_MAX_VISIBLE);
}

#[test]
fn test_scroll_offset_on_move_up() {
    let mut state = OverlayState::new();
    state.selected = Some(5);
    state.scroll_offset = 5;
    state.move_up();
    assert_eq!(state.selected, Some(4));
    assert_eq!(state.scroll_offset, 4);
}

#[test]
fn types_test_reset() {
    let mut state = OverlayState::new();
    state.selected = Some(7);
    state.scroll_offset = 3;
    state.reset();
    assert_eq!(state.selected, None);
    assert_eq!(state.scroll_offset, 0);
}

#[test]
fn types_test_custom_max_visible() {
    let mut state = OverlayState::new();
    let custom_max = 3;
    // 6 moves: None->0, 0->1, 1->2, 2->3, 3->4, 4->5
    for _ in 0..6 {
        state.move_down(20, custom_max);
    }
    assert_eq!(state.selected, Some(5));
    assert_eq!(state.scroll_offset, 3);
    assert!(state.selected.unwrap() < state.scroll_offset + custom_max);
}
