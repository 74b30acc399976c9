//! Where the popup goes: below the cursor when it fits, above otherwise,
//! shifted left when it would run off the right edge.

use vstd::prelude::*;
use vstd::utf8::encode_utf8;

use crate::overlay::PopupLayout;
use crate::suggestion::{suggestions_view, SpecSuggestion, Suggestion};

verus! {

/// Display width of a suggestion line: `" K "` gutter, the text, then
/// `"  description"` when there is one, then a trailing space (byte counts).
pub open spec fn display_width(s: SpecSuggestion) -> int {
    let desc: int = match s.description {
        Some(d) => encode_utf8(d).len() + 2int,
        None => 0,
    };
    3 + encode_utf8(s.text).len() + desc + 1
}

/// Every suggestion's display width fits in a `usize` with room to spare.
pub open spec fn widths_fit(ss: Seq<SpecSuggestion>) -> bool {
    forall|i: int| 0 <= i < ss.len() ==> #[trigger] display_width(ss[i]) + 2 <= usize::MAX
}

/// The largest display width among the suggestions (0 for none).
pub open spec fn max_display_width(ss: Seq<SpecSuggestion>) -> int
    decreases ss.len(),
{
    if ss.len() == 0 {
        0
    } else {
        let m = max_display_width(ss.drop_last());
        let w = display_width(ss.last());
        if w > m { w } else { m }
    }
}

/// `a` clamped into `[lo, hi]`.
pub open spec fn clamp_u16(a: u16, lo: u16, hi: u16) -> u16 {
    if a < lo { lo } else if a > hi { hi } else { a }
}

/// The smaller of two values.
pub open spec fn min_int(a: int, b: int) -> int {
    if a < b { a } else { b }
}

/// The number of rows a popup of `len` items, at most `max_visible` shown,
/// takes (as the `u16` height it is stored in).
pub open spec fn popup_height(len: int, max_visible: int) -> int {
    min_int(len, max_visible) % 0x10000
}

/// The suggestions in the window of `max_visible` starting at `scroll_offset`.
pub open spec fn window(ss: Seq<SpecSuggestion>, scroll_offset: int, max_visible: int) -> Seq<SpecSuggestion> {
    let lo = min_int(scroll_offset, ss.len() as int);
    ss.subrange(lo, min_int(lo + max_visible, ss.len() as int))
}

/// The layout of a popup for `ss`: `height` is the number of visible items;
/// `width` is the widest visible line clamped to `[min_width, min(max_width,
/// screen_cols)]`; the popup goes below the cursor row when the rows below
/// can hold it, above otherwise; it starts at the cursor column unless that
/// would cross the right edge, in which case it ends at the edge.
pub open spec fn spec_layout(
    ss: Seq<SpecSuggestion>,
    scroll_offset: int,
    cursor_row: u16,
    cursor_col: u16,
    screen_rows: u16,
    screen_cols: u16,
    max_visible: int,
    min_width: u16,
    max_width: u16,
) -> PopupLayout {
    let visible_count = min_int(ss.len() as int, max_visible);
    let height = (visible_count % 0x10000) as u16;
    let win = window(ss, scroll_offset, max_visible);
    let content = if win.len() == 0 { min_width as int } else { max_display_width(win) };
    let hi = if max_width < screen_cols { max_width } else { screen_cols };
    let width = clamp_u16((content % 0x10000) as u16, min_width, hi);
    let space_below = if screen_rows < cursor_row + 1 { 0 } else { screen_rows - (cursor_row + 1) };
    let renders_above = space_below < height;
    PopupLayout {
        start_row: if renders_above {
            if cursor_row < height { 0 } else { (cursor_row - height) as u16 }
        } else {
            (cursor_row + 1) as u16
        },
        start_col: if cursor_col + width > screen_cols {
            if screen_cols < width { 0 } else { (screen_cols - width) as u16 }
        } else {
            cursor_col
        },
        width,
        height,
        renders_above,
    }
}

/// Calculate display width for a single suggestion line.
fn item_display_width(s: &Suggestion) -> (w: usize)
    requires
        display_width(s@) <= usize::MAX,
    ensures
        w == display_width(s@),
{
    let text_len = s.text.as_str().len();
    let desc_len = match &s.description {
        Some(d) => d.as_str().len() + 2,
        None => 0,
    };
    3 + text_len + desc_len + 1
}

/// Computes where a popup for `suggestions` goes. The width bounds must be
/// ordered (`min_width` at most both `max_width` and `screen_cols`, as
/// `clamp` demands), the cursor may not be on the last representable row,
/// the cursor column plus the widest the popup can be must fit in a `u16`,
/// and every line width must fit in a `usize`.
#[allow(clippy::too_many_arguments)]
pub fn compute_layout(
    suggestions: &[Suggestion],
    scroll_offset: usize,
    cursor_row: u16,
    cursor_col: u16,
    screen_rows: u16,
    screen_cols: u16,
    max_visible: usize,
    min_width: u16,
    max_width: u16,
) -> (l: PopupLayout)
    requires
        min_width <= max_width,
        min_width <= screen_cols,
        cursor_row < 0xffff,
        cursor_col as int + (if max_width < screen_cols { max_width } else { screen_cols }) as int <= 0xffff,
        widths_fit(suggestions_view(suggestions@)),
    ensures
        l == spec_layout(
            suggestions_view(suggestions@),
            scroll_offset as int,
            cursor_row,
            cursor_col,
            screen_rows,
            screen_cols,
            max_visible as int,
            min_width,
            max_width,
        ),
{
    let ghost sv = suggestions_view(suggestions@);
    let n = suggestions.len();
    let visible_count = if n < max_visible { n } else { max_visible };
    let height = (visible_count % 0x10000) as u16;

    let lo = if scroll_offset < n { scroll_offset } else { n };
    let hi = if n - lo < max_visible { n } else { lo + max_visible };
    let ghost win = window(sv, scroll_offset as int, max_visible as int);
    assert(win =~= sv.subrange(lo as int, hi as int));
    let mut best: usize = 0;
    let mut i = lo;
    while i < hi
        invariant
            lo <= i <= hi <= n,
            n == suggestions@.len(),
            sv == suggestions_view(suggestions@),
            widths_fit(sv),
            best as int == max_display_width(sv.subrange(lo as int, i as int)),
        decreases hi - i,
    {
        assert(display_width(sv[i as int]) + 2 <= usize::MAX);
        let w = item_display_width(&suggestions[i]);
        proof {
            assert(sv.subrange(lo as int, i + 1).drop_last() =~= sv.subrange(lo as int, i as int));
        }
        if w > best {
            best = w;
        }
        i = i + 1;
    }
    let content_width: usize = if hi == lo { min_width as usize } else { best };
    let upper = if max_width < screen_cols { max_width } else { screen_cols };
    let c16 = (content_width % 0x10000) as u16;
    let width = if c16 < min_width { min_width } else if c16 > upper { upper } else { c16 };

    let space_below = screen_rows.saturating_sub(cursor_row + 1);
    let renders_above = space_below < height;
    let start_row = if renders_above { cursor_row.saturating_sub(height) } else { cursor_row + 1 };
    let start_col = if cursor_col + width > screen_cols {
        screen_cols.saturating_sub(width)
    } else {
        cursor_col
    };
    PopupLayout { start_row, start_col, width, height, renders_above }
}

} // verus!

verus! {

/// The popup stays on screen: it is never wider than the screen, never runs
/// past its right edge, sits right below the cursor when it fits below (so
/// it ends on screen), and otherwise ends right above the cursor row when
/// there is room above. It shows as many items as are listed, up to
/// `max_visible`.
pub proof fn law_popup_on_screen(
    ss: Seq<SpecSuggestion>,
    scroll_offset: int,
    cursor_row: u16,
    cursor_col: u16,
    screen_rows: u16,
    screen_cols: u16,
    max_visible: int,
    min_width: u16,
    max_width: u16,
)
    requires
        min_width <= max_width,
        min_width <= screen_cols,
        cursor_row < screen_rows,
        0 <= max_visible,
        min_int(ss.len() as int, max_visible) < 0x10000,
    ensures
        ({
            let l = spec_layout(
                ss,
                scroll_offset,
                cursor_row,
                cursor_col,
                screen_rows,
                screen_cols,
                max_visible,
                min_width,
                max_width,
            );
            &&& l.height == min_int(ss.len() as int, max_visible)
            &&& l.width <= screen_cols
            &&& l.start_col + l.width <= screen_cols
            &&& !l.renders_above ==> l.start_row == cursor_row + 1 && l.start_row + l.height <= screen_rows
            &&& l.renders_above && l.height <= cursor_row ==> l.start_row + l.height == cursor_row
        }),
{
}


/// The largest display width is at least that of every suggestion, and is
/// the width of one of them when there is any.
proof fn lemma_max_display_width(ss: Seq<SpecSuggestion>)
    ensures
        forall|i: int| 0 <= i < ss.len() ==> display_width(ss[i]) <= max_display_width(ss),
        ss.len() > 0 ==> exists|i: int| 0 <= i < ss.len() && display_width(ss[i]) == max_display_width(ss),
    decreases ss.len(),
{
    if ss.len() > 0 {
        let init = ss.drop_last();
        lemma_max_display_width(init);
        assert forall|i: int| 0 <= i < ss.len() implies display_width(ss[i]) <= max_display_width(ss) by {
            if i < init.len() {
                assert(ss[i] == init[i]);
            }
        }
        if display_width(ss.last()) > max_display_width(init) || init.len() == 0 {
            assert(display_width(ss[ss.len() - 1]) == max_display_width(ss));
        } else {
            let j = choose|j: int| 0 <= j < init.len() && display_width(init[j]) == max_display_width(init);
            assert(ss[j] == init[j]);
        }
    }
}

/// The popup is as wide as its widest visible line, within the bounds: with
/// `hi` the smaller of `max_width` and `screen_cols`, the width lies in
/// `[min_width, hi]`, is at least every visible line's width (or `hi`, if
/// that line is wider), and is that of one visible line clamped into
/// `[min_width, hi]`; with no visible line it is `min_width`. (Line widths
/// are taken to fit in a `u16`, the type the width is kept in.)
pub proof fn law_width_fits_widest_visible(
    ss: Seq<SpecSuggestion>,
    scroll_offset: int,
    cursor_row: u16,
    cursor_col: u16,
    screen_rows: u16,
    screen_cols: u16,
    max_visible: int,
    min_width: u16,
    max_width: u16,
)
    requires
        min_width <= max_width,
        min_width <= screen_cols,
        0 <= scroll_offset,
        0 <= max_visible,
        forall|k: int|
            scroll_offset <= k < scroll_offset + max_visible && 0 <= k < ss.len() ==> #[trigger] display_width(ss[k])
                < 0x10000,
    ensures
        ({
            let l = spec_layout(
                ss,
                scroll_offset,
                cursor_row,
                cursor_col,
                screen_rows,
                screen_cols,
                max_visible,
                min_width,
                max_width,
            );
            let hi = if max_width < screen_cols { max_width } else { screen_cols };
            &&& min_width <= l.width <= hi
            &&& forall|k: int|
                scroll_offset <= k < scroll_offset + max_visible && 0 <= k < ss.len() ==> l.width >= min_int(
                    #[trigger] display_width(ss[k]),
                    hi as int,
                )
            &&& scroll_offset < ss.len() && 0 < max_visible ==> exists|k: int|
                scroll_offset <= k < scroll_offset + max_visible && 0 <= k < ss.len() && l.width == clamp_u16(
                    #[trigger] display_width(ss[k]) as u16,
                    min_width,
                    hi,
                )
            &&& !(scroll_offset < ss.len() && 0 < max_visible) ==> l.width == min_width
        }),
{
    let lo = min_int(scroll_offset, ss.len() as int);
    let end = min_int(lo + max_visible, ss.len() as int);
    let win = window(ss, scroll_offset, max_visible);
    assert(win =~= ss.subrange(lo, end));
    lemma_max_display_width(win);
    assert forall|k: int| scroll_offset <= k < scroll_offset + max_visible && 0 <= k < ss.len() implies 0 <= k - lo
        < win.len() && win[k - lo] == ss[k] by {}
    if scroll_offset < ss.len() && 0 < max_visible {
        assert(win.len() > 0);
        let j = choose|j: int| 0 <= j < win.len() && display_width(win[j]) == max_display_width(win);
        assert(win[j] == ss[j + lo]);
        assert(display_width(ss[j + lo]) < 0x10000);
    } else {
        if win.len() > 0 {
            assert(win[0] == ss[lo]);
        }
    }
}

} // verus!
