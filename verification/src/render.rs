//! Drawing the popup into a byte buffer, and clearing it again.

use vstd::prelude::*;
use vstd::utf8::encode_utf8;

use crate::ansi::{
    append_bytes, begin_sync, dim, end_sync, move_to, reset, restore_cursor, reverse_video,
    save_cursor, seq_begin_sync, seq_dim, seq_end_sync, seq_move_to, seq_reset,
    seq_restore_cursor, seq_reverse_video, seq_save_cursor,
};
use crate::layout::{compute_layout, display_width, popup_height, spec_layout, widths_fit};
use crate::overlay::{OverlayState, PopupLayout};
use crate::suggestion::{suggestions_view, SpecSuggestion, Suggestion, SuggestionKind};
use crate::text::{chars_of, string_from_chars, take_chars};

verus! {

/// How the selected line and descriptions are styled: the SGR bytes sent
/// before each.
pub struct PopupTheme {
    pub selected_on: Vec<u8>,
    pub description_on: Vec<u8>,
}

/// Model of a [`PopupTheme`].
pub struct ThemeModel {
    pub selected_on: Seq<u8>,
    pub description_on: Seq<u8>,
}

impl View for PopupTheme {
    type V = ThemeModel;

    open spec fn view(&self) -> ThemeModel {
        ThemeModel { selected_on: self.selected_on@, description_on: self.description_on@ }
    }
}

/// The default theme: the selected line in reverse video, descriptions dim.
pub open spec fn default_theme() -> ThemeModel {
    ThemeModel { selected_on: seq_reverse_video(), description_on: seq_dim() }
}

/// The dim style's bytes.
fn dim_bytes() -> (v: Vec<u8>)
    ensures
        v@ == seq_dim(),
{
    let mut v: Vec<u8> = Vec::new();
    dim(&mut v);
    assert(v@ =~= seq_dim());
    v
}

impl Default for PopupTheme {
    fn default() -> (t: Self)
        ensures
            t@ == default_theme(),
    {
        let mut selected_on: Vec<u8> = Vec::new();
        reverse_video(&mut selected_on);
        assert(selected_on@ =~= seq_reverse_video());
        PopupTheme { selected_on, description_on: dim_bytes() }
    }
}

/// The gutter letter of a kind.
pub open spec fn kind_char(k: SuggestionKind) -> u8 {
    match k {
        SuggestionKind::Command => 67,
        SuggestionKind::Subcommand => 83,
        SuggestionKind::Flag => 70,
        SuggestionKind::FilePath => 102,
        SuggestionKind::Directory => 100,
        SuggestionKind::GitBranch => 66,
        SuggestionKind::GitTag => 84,
        SuggestionKind::GitRemote => 82,
        SuggestionKind::History => 72,
    }
}

/// The UTF-8 bytes of a character sequence (kept folded in proofs).
#[verifier::opaque]
pub open spec fn utf8_bytes(cs: Seq<char>) -> Seq<u8> {
    encode_utf8(cs)
}

/// `n` spaces.
pub open spec fn spaces(n: int) -> Seq<u8> {
    Seq::new(if n < 0 { 0 } else { n as nat }, |i: int| 32u8)
}

/// `a - b`, or 0 when `b` is larger.
pub open spec fn sat_diff(a: int, b: int) -> int {
    if a < b { 0 } else { a - b }
}

/// One popup line `width` bytes wide: `" K text"`, then — when the item has a
/// description and more than two bytes are left after the text and a gap —
/// two spaces and the description cut to that many characters (styled with
/// `desc_on` unless the line is selected), then spaces up to the width.
#[verifier::opaque]
pub open spec fn spec_format_item(s: SpecSuggestion, width: int, is_selected: bool, desc_on: Seq<u8>) -> Seq<u8> {
    let text = utf8_bytes(s.text);
    let head = seq![32u8, kind_char(s.kind), 32u8] + text;
    let gutter_text_len: int = 3 + text.len() as int;
    let desc = match s.description {
        Some(d) => d,
        None => Seq::empty(),
    };
    let max_desc_len = sat_diff(width, gutter_text_len + 3);
    if desc.len() > 0 && max_desc_len > 2 {
        let truncated = utf8_bytes(desc.take(if max_desc_len < desc.len() { max_desc_len } else { desc.len() as int }));
        head + seq![32u8, 32u8] + (if is_selected { Seq::empty() } else { desc_on }) + truncated
            + (if is_selected { Seq::empty() } else { seq_reset() })
            + spaces(sat_diff(width, gutter_text_len + 2 + truncated.len() as int))
    } else {
        head + spaces(sat_diff(width, gutter_text_len))
    }
}

/// The lines of items `from..to` of a popup at `layout`.
pub open spec fn spec_render_items(
    ss: Seq<SpecSuggestion>,
    state: OverlayState,
    layout: PopupLayout,
    from: int,
    to: int,
    theme: ThemeModel,
) -> Seq<u8>
    decreases to - from,
{
    if from >= to {
        Seq::empty()
    } else {
        let i = to - 1;
        let sel = state.selected == Some(i as usize);
        spec_render_items(ss, state, layout, from, i, theme)
            + seq_move_to((layout.start_row + (i - state.scroll_offset)) as u16, layout.start_col)
            + (if sel { theme.selected_on } else { Seq::empty() })
            + spec_format_item(ss[i], layout.width as int, sel, theme.description_on)
            + seq_reset()
    }
}

/// The bytes of a popup: nothing when no item is visible; otherwise the
/// visible items, each moved to its row, wrapped in synchronized output and a
/// cursor save/restore; the selected line and descriptions are styled by the
/// theme.
pub open spec fn spec_render(ss: Seq<SpecSuggestion>, state: OverlayState, layout: PopupLayout, theme: ThemeModel) -> Seq<u8> {
    if layout.height == 0 {
        Seq::empty()
    } else {
        let end = if state.scroll_offset + layout.height < ss.len() {
            state.scroll_offset + layout.height
        } else {
            ss.len() as int
        };
        seq_begin_sync() + seq_save_cursor() + spec_render_items(ss, state, layout, state.scroll_offset as int, end, theme)
            + seq_restore_cursor() + seq_end_sync()
    }
}

/// Rows `0..k` of the popup area overwritten with spaces.
pub open spec fn spec_clear_rows(layout: PopupLayout, k: int) -> Seq<u8>
    decreases k,
{
    if k <= 0 {
        Seq::empty()
    } else {
        spec_clear_rows(layout, k - 1) + seq_move_to((layout.start_row + k - 1) as u16, layout.start_col)
            + spaces(layout.width as int)
    }
}

/// The bytes that clear a popup: every row of its area overwritten with
/// spaces, wrapped like a render; nothing for an empty popup.
pub open spec fn spec_clear(layout: PopupLayout) -> Seq<u8> {
    if layout.height == 0 {
        Seq::empty()
    } else {
        seq_begin_sync() + seq_save_cursor() + spec_clear_rows(layout, layout.height as int)
            + seq_restore_cursor() + seq_end_sync()
    }
}

/// Appends `n` spaces.
fn push_spaces(buf: &mut Vec<u8>, n: usize)
    ensures
        final(buf)@ == old(buf)@ + spaces(n as int),
{
    for i in 0..n
        invariant
            buf@ == old(buf)@ + spaces(i as int),
    {
        buf.push(32);
        assert(old(buf)@ + spaces(i + 1) =~= (old(buf)@ + spaces(i as int)).push(32u8));
    }
}

/// Writes the description part of a line: two spaces, then the first `k`
/// characters of `desc` (styled with `desc_on` unless selected).
fn push_description(buf: &mut Vec<u8>, desc: &Vec<char>, k: usize, is_selected: bool, desc_on: &[u8]) -> (n: usize)
    requires
        k <= desc@.len(),
    ensures
        n == utf8_bytes(desc@.take(k as int)).len(),
        final(buf)@ == old(buf)@ + seq![32u8, 32u8] + (if is_selected { Seq::empty() } else { desc_on@ })
            + utf8_bytes(desc@.take(k as int)) + (if is_selected { Seq::empty() } else { seq_reset() }),
{
    buf.push(32);
    buf.push(32);
    if !is_selected {
        append_bytes(buf, desc_on);
    }
    let kept = take_chars(desc, k);
    let truncated = string_from_chars(kept.as_slice());
    let tb = truncated.as_str().as_bytes();
    assert(tb@ == utf8_bytes(desc@.take(k as int))) by {
        reveal(utf8_bytes);
    }
    append_bytes(buf, tb);
    if !is_selected {
        reset(buf);
    }
    assert(final(buf)@ =~= old(buf)@ + seq![32u8, 32u8] + (if is_selected { Seq::empty() } else { desc_on@ })
        + utf8_bytes(desc@.take(k as int)) + (if is_selected { Seq::empty() } else { seq_reset() }));
    tb.len()
}

/// Writes one popup line, descriptions dimmed.
pub fn format_item(buf: &mut Vec<u8>, s: &Suggestion, width: u16, is_selected: bool)
    requires
        display_width(s@) + 2 <= usize::MAX,
    ensures
        final(buf)@ == old(buf)@ + spec_format_item(s@, width as int, is_selected, seq_dim()),
{
    let d = dim_bytes();
    format_item_themed(buf, s, width, is_selected, d.as_slice());
}

/// Writes one popup line, descriptions styled with `desc_on`.
#[verifier::rlimit(100)]
#[verifier::spinoff_prover]
pub fn format_item_themed(buf: &mut Vec<u8>, s: &Suggestion, width: u16, is_selected: bool, desc_on: &[u8])
    requires
        display_width(s@) + 2 <= usize::MAX,
    ensures
        final(buf)@ == old(buf)@ + spec_format_item(s@, width as int, is_selected, desc_on@),
{
    let kind_char: u8 = match s.kind {
        SuggestionKind::Command => 67,
        SuggestionKind::Subcommand => 83,
        SuggestionKind::Flag => 70,
        SuggestionKind::FilePath => 102,
        SuggestionKind::Directory => 100,
        SuggestionKind::GitBranch => 66,
        SuggestionKind::GitTag => 84,
        SuggestionKind::GitRemote => 82,
        SuggestionKind::History => 72,
    };
    assert(kind_char == crate::render::kind_char(s.kind));
    buf.push(32);
    buf.push(kind_char);
    buf.push(32);
    let text = s.text.as_str().as_bytes();
    assert(text@ == utf8_bytes(s@.text)) by {
        reveal(utf8_bytes);
    }
    append_bytes(buf, text);
    let ghost head = seq![32u8, kind_char, 32u8] + utf8_bytes(s@.text);
    assert(buf@ =~= old(buf)@ + head);
    let ghost after_head = buf@;

    let gutter_text_len = 3 + text.len();
    let total_width = width as usize;
    let ghost desc_chars = match s@.description {
        Some(d) => d,
        None => Seq::<char>::empty(),
    };
    let desc: Vec<char> = match &s.description {
        Some(d) => chars_of(d.as_str()),
        None => Vec::new(),
    };
    assert(desc@ == desc_chars);
    let max_desc_len = total_width.saturating_sub(gutter_text_len + 2 + 1);

    if desc.len() > 0 && max_desc_len > 2 {
        let k = if max_desc_len < desc.len() { max_desc_len } else { desc.len() };
        proof {
            crate::text::lemma_encode_utf8_prefix_len(desc@, k as int);
            assert(utf8_bytes(desc@.take(k as int)) == encode_utf8(desc@.take(k as int))) by {
                reveal(utf8_bytes);
            }
        }
        let tlen = push_description(buf, &desc, k, is_selected, desc_on);
        let used = gutter_text_len + 2 + tlen;
        let pad = total_width.saturating_sub(used);
        let ghost before_pad = buf@;
        push_spaces(buf, pad);
        proof {
            let truncated = utf8_bytes(desc_chars.take(k as int));
            let tail = seq![32u8, 32u8] + (if is_selected { Seq::empty() } else { desc_on@ }) + truncated
                + (if is_selected { Seq::empty() } else { seq_reset() });
            assert(before_pad == after_head + tail);
            assert(spec_format_item(s@, width as int, is_selected, desc_on@) == head + tail + spaces(pad as int)) by {
                reveal(spec_format_item);
            }
            assert(buf@ =~= old(buf)@ + (head + tail + spaces(pad as int)));
        }
    } else {
        let pad = total_width.saturating_sub(gutter_text_len);
        push_spaces(buf, pad);
        proof {
            assert(spec_format_item(s@, width as int, is_selected, desc_on@) == head + spaces(pad as int)) by {
                reveal(spec_format_item);
            }
            assert(buf@ =~= old(buf)@ + (head + spaces(pad as int)));
        }
    }
}

/// Render a popup into a byte buffer, the selected line in reverse video and
/// descriptions dimmed. Returns the layout used for positioning (needed later
/// for cleanup). Besides what [`compute_layout`] needs, the window start may
/// not lie past the end of a list that is drawn, and the cursor and the
/// screen's width may not both be `u16::MAX`.
#[allow(clippy::too_many_arguments)]
pub fn render_popup(
    buf: &mut Vec<u8>,
    suggestions: &[Suggestion],
    state: &OverlayState,
    cursor_row: u16,
    cursor_col: u16,
    screen_rows: u16,
    screen_cols: u16,
    max_visible: usize,
    min_width: u16,
    max_width: u16,
) -> (l: PopupLayout)
    requires
        min_width <= max_width,
        min_width <= screen_cols,
        cursor_row < 0xffff,
        cursor_col as int + (if max_width < screen_cols { max_width } else { screen_cols }) as int <= 0xffff,
        cursor_col < 0xffff || screen_cols < 0xffff,
        popup_height(suggestions@.len() as int, max_visible as int) == 0 || state.scroll_offset <= suggestions@.len(),
        widths_fit(suggestions_view(suggestions@)),
    ensures
        l == spec_layout(
            suggestions_view(suggestions@),
            state.scroll_offset as int,
            cursor_row,
            cursor_col,
            screen_rows,
            screen_cols,
            max_visible as int,
            min_width,
            max_width,
        ),
        final(buf)@ == old(buf)@ + spec_render(suggestions_view(suggestions@), *state, l, default_theme()),
{
    let theme = PopupTheme::default();
    render_popup_themed(
        buf,
        suggestions,
        state,
        cursor_row,
        cursor_col,
        screen_rows,
        screen_cols,
        max_visible,
        min_width,
        max_width,
        &theme,
    )
}

/// Render a popup with a theme (see [`render_popup`]).
#[allow(clippy::too_many_arguments)]
pub fn render_popup_themed(
    buf: &mut Vec<u8>,
    suggestions: &[Suggestion],
    state: &OverlayState,
    cursor_row: u16,
    cursor_col: u16,
    screen_rows: u16,
    screen_cols: u16,
    max_visible: usize,
    min_width: u16,
    max_width: u16,
    theme: &PopupTheme,
) -> (l: PopupLayout)
    requires
        min_width <= max_width,
        min_width <= screen_cols,
        cursor_row < 0xffff,
        cursor_col as int + (if max_width < screen_cols { max_width } else { screen_cols }) as int <= 0xffff,
        cursor_col < 0xffff || screen_cols < 0xffff,
        popup_height(suggestions@.len() as int, max_visible as int) == 0 || state.scroll_offset <= suggestions@.len(),
        widths_fit(suggestions_view(suggestions@)),
    ensures
        l == spec_layout(
            suggestions_view(suggestions@),
            state.scroll_offset as int,
            cursor_row,
            cursor_col,
            screen_rows,
            screen_cols,
            max_visible as int,
            min_width,
            max_width,
        ),
        final(buf)@ == old(buf)@ + spec_render(suggestions_view(suggestions@), *state, l, theme@),
{
    let layout = compute_layout(
        suggestions,
        state.scroll_offset,
        cursor_row,
        cursor_col,
        screen_rows,
        screen_cols,
        max_visible,
        min_width,
        max_width,
    );

    if layout.height == 0 {
        assert(buf@ =~= old(buf)@ + spec_render(suggestions_view(suggestions@), *state, layout, theme@));
        return layout;
    }

    let ghost sv = suggestions_view(suggestions@);
    proof {
        assert(layout.start_col < 0xffff);
        assert(layout.start_row as int + layout.height as int <= 0xffff);
    }
    begin_sync(buf);
    save_cursor(buf);
    let ghost start = buf@;

    let n = suggestions.len();
    let so = state.scroll_offset;
    let end = if n - so > layout.height as usize { so + layout.height as usize } else { n };
    let mut i = so;
    while i < end
        invariant
            so <= i <= end <= n,
            n == suggestions@.len(),
            so == state.scroll_offset,
            sv == suggestions_view(suggestions@),
            widths_fit(sv),
            end - so <= layout.height,
            layout.height > 0,
            layout.start_row as int + layout.height as int <= 0xffff,
            layout.start_col < 0xffff,
            buf@ == start + spec_render_items(sv, *state, layout, so as int, i as int, theme@),
        decreases end - i,
    {
        let row = layout.start_row + (i - so) as u16;
        let is_selected = match state.selected {
            Some(x) => x == i,
            None => false,
        };
        move_to(buf, row, layout.start_col);
        if is_selected {
            append_bytes(buf, theme.selected_on.as_slice());
        }
        assert(display_width(sv[i as int]) + 2 <= usize::MAX);
        format_item_themed(buf, &suggestions[i], layout.width, is_selected, theme.description_on.as_slice());
        reset(buf);
        proof {
            assert(is_selected == (state.selected == Some(i)));
            assert(buf@ =~= start + spec_render_items(sv, *state, layout, so as int, i + 1, theme@));
        }
        i = i + 1;
    }

    restore_cursor(buf);
    end_sync(buf);
    proof {
        assert(buf@ =~= old(buf)@ + spec_render(sv, *state, layout, theme@));
    }
    layout
}

/// Clear the popup area by overwriting with spaces. The area must lie in
/// the representable rows and columns.
pub fn clear_popup(buf: &mut Vec<u8>, layout: &PopupLayout)
    requires
        layout.start_row as int + layout.height as int <= 0xffff,
        layout.start_col < 0xffff,
    ensures
        final(buf)@ == old(buf)@ + spec_clear(*layout),
{
    if layout.height == 0 {
        assert(buf@ =~= old(buf)@ + spec_clear(*layout));
        return;
    }

    begin_sync(buf);
    save_cursor(buf);
    let ghost start = buf@;

    for row_offset in 0..layout.height
        invariant
            layout.start_row as int + layout.height as int <= 0xffff,
            layout.start_col < 0xffff,
            buf@ == start + spec_clear_rows(*layout, row_offset as int),
    {
        let row = layout.start_row + row_offset;
        move_to(buf, row, layout.start_col);
        push_spaces(buf, layout.width as usize);
        assert(buf@ =~= start + spec_clear_rows(*layout, row_offset + 1));
    }

    restore_cursor(buf);
    end_sync(buf);
    assert(buf@ =~= old(buf)@ + spec_clear(*layout));
}

} // verus!
