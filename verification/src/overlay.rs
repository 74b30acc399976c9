//! Popup selection state and the popup's placement on screen.

use vstd::prelude::*;

verus! {

/// Default number of suggestions shown at once.
pub const DEFAULT_MAX_VISIBLE: usize = 10;
/// Default minimum popup width in columns.
pub const DEFAULT_MIN_POPUP_WIDTH: u16 = 20;
/// Default maximum popup width in columns.
pub const DEFAULT_MAX_POPUP_WIDTH: u16 = 60;

/// Which suggestion is selected (if any) and which one is at the top of the
/// visible window.
#[derive(Debug, Clone, Copy, PartialEq, Eq, Structural)]
pub struct OverlayState {
    pub selected: Option<usize>,
    pub scroll_offset: usize,
}

/// Selection moved up: from the first item to no selection; otherwise one
/// item up, scrolling the window up when the selection leaves it.
pub open spec fn spec_move_up(s: OverlayState) -> OverlayState {
    match s.selected {
        Some(n) => if n == 0 {
            OverlayState { selected: None, scroll_offset: s.scroll_offset }
        } else {
            OverlayState {
                selected: Some((n - 1) as usize),
                scroll_offset: if n - 1 < s.scroll_offset { (n - 1) as usize } else { s.scroll_offset },
            }
        },
        None => s,
    }
}

/// Selection moved down: from no selection to the first item (if there is
/// one); otherwise one item down unless at the last, scrolling the window so
/// the selection stays among the `max_visible` shown.
pub open spec fn spec_move_down(s: OverlayState, total_items: usize, max_visible: usize) -> OverlayState {
    match s.selected {
        None => if total_items > 0 {
            OverlayState { selected: Some(0), scroll_offset: s.scroll_offset }
        } else {
            s
        },
        Some(n) => if n + 1 < total_items {
            OverlayState {
                selected: Some((n + 1) as usize),
                scroll_offset: if n + 1 >= s.scroll_offset + max_visible {
                    (n + 1 - max_visible + 1) as usize
                } else {
                    s.scroll_offset
                },
            }
        } else {
            s
        },
    }
}

/// The selection lies in the visible window of `max_visible` items starting
/// at `scroll_offset`, and the window is at the top when nothing is selected.
pub open spec fn selection_in_window(s: OverlayState, max_visible: usize) -> bool {
    match s.selected {
        Some(n) => s.scroll_offset <= n < s.scroll_offset + max_visible,
        None => s.scroll_offset == 0,
    }
}

impl OverlayState {
    /// Nothing selected, window at the top.
    pub fn new() -> (s: Self)
        ensures
            s.selected is None,
            s.scroll_offset == 0,
            forall|max_visible: usize| #[trigger] selection_in_window(s, max_visible),
    {
        OverlayState { selected: None, scroll_offset: 0 }
    }

    /// Move the selection up.
    pub fn move_up(&mut self)
        ensures
            *final(self) == spec_move_up(*old(self)),
    {
        match self.selected {
            Some(n) => {
                if n == 0 {
                    self.selected = None;
                } else {
                    self.selected = Some(n - 1);
                    if n - 1 < self.scroll_offset {
                        self.scroll_offset = n - 1;
                    }
                }
            },
            None => {},
        }
    }

    /// Move the selection down among `total_items`, showing `max_visible` at
    /// once. The window end `scroll_offset + max_visible` must fit in a
    /// `usize` when the selection moves.
    pub fn move_down(&mut self, total_items: usize, max_visible: usize)
        requires
            old(self).selected matches Some(n) && n + 1 < total_items
                ==> old(self).scroll_offset + max_visible <= usize::MAX,
        ensures
            *final(self) == spec_move_down(*old(self), total_items, max_visible),
    {
        match self.selected {
            None => {
                if total_items > 0 {
                    self.selected = Some(0);
                }
            },
            Some(n) => {
                if total_items > 0 && n < total_items - 1 {
                    self.selected = Some(n + 1);
                    if n + 1 >= self.scroll_offset + max_visible {
                        self.scroll_offset = n + 1 - max_visible + 1;
                    }
                }
            },
        }
    }

    /// Nothing selected, window at the top.
    pub fn reset(&mut self)
        ensures
            final(self).selected is None,
            final(self).scroll_offset == 0,
            forall|max_visible: usize| #[trigger] selection_in_window(*final(self), max_visible),
    {
        self.selected = None;
        self.scroll_offset = 0;
    }
}

/// Where the popup was drawn.
#[derive(Debug, Clone, Copy, PartialEq, Eq, Structural)]
pub struct PopupLayout {
    pub start_row: u16,
    pub start_col: u16,
    pub width: u16,
    pub height: u16,
    pub renders_above: bool,
}

/// Moving the selection keeps it inside the visible window: a state whose
/// selection is shown stays so after moving up or down (with a window of at
/// least one item).
pub proof fn law_moves_keep_selection_visible(s: OverlayState, total_items: usize, max_visible: usize)
    requires
        max_visible > 0,
        selection_in_window(s, max_visible),
    ensures
        selection_in_window(spec_move_up(s), max_visible),
        selection_in_window(spec_move_down(s, total_items, max_visible), max_visible),
{
    if let Some(n) = s.selected {
        if n + 1 < total_items {
            let m = spec_move_down(s, total_items, max_visible);
            assert(m.selected == Some((n + 1) as usize));
            if n + 1 >= s.scroll_offset + max_visible {
                assert(m.scroll_offset == (n + 1 - max_visible + 1) as usize);
            } else {
                assert(m.scroll_offset == s.scroll_offset);
            }
        }
    }
}

/// Moving down and then up gives back the selection whenever the move down
/// moved it.
pub proof fn law_move_down_then_up_restores(s: OverlayState, total_items: usize, max_visible: usize)
    requires
        spec_move_down(s, total_items, max_visible).selected != s.selected,
    ensures
        spec_move_up(spec_move_down(s, total_items, max_visible)).selected == s.selected,
{
    if let Some(n) = s.selected {
        let m = spec_move_down(s, total_items, max_visible);
        assert(m.selected == Some((n + 1) as usize));
        assert(((n + 1) as usize) != 0);
        assert((((n + 1) as usize) - 1) as usize == n);
    }
}

/// Moving down never selects past the last item.
pub proof fn law_move_down_stays_in_list(s: OverlayState, total_items: usize, max_visible: usize)
    requires
        s.selected matches Some(n) ==> n < total_items,
    ensures
        spec_move_down(s, total_items, max_visible).selected matches Some(n) ==> n < total_items,
{
}

} // verus!
