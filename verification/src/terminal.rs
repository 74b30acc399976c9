//! Terminal state derived from the VT escape sequence stream: cursor position,
//! screen dimensions, prompt boundaries (OSC 133), the shell's command buffer
//! (OSC 7770) and the current working directory (OSC 7).

use vstd::prelude::*;

use crate::context::opt_string_view;
use crate::text::{parse_unsigned, push_char, spec_parse_unsigned, str_eq};

verus! {

/// Tracks terminal state derived from the VT escape sequence stream.
#[derive(Debug)]
pub struct TerminalState {
    cursor_row: u16,
    cursor_col: u16,
    screen_rows: u16,
    screen_cols: u16,
    saved_cursor: Option<(u16, u16)>,
    prompt_row: Option<u16>,
    cwd: Option<String>,
    in_prompt: bool,
    command_buffer: Option<String>,
    buffer_cursor: usize,
    buffer_dirty: bool,
    cwd_dirty: bool,
    cursor_sync_requested: bool,
}

/// Mathematical model of a [`TerminalState`].
pub struct TermModel {
    pub cursor_row: u16,
    pub cursor_col: u16,
    pub screen_rows: u16,
    pub screen_cols: u16,
    pub saved_cursor: Option<(u16, u16)>,
    pub prompt_row: Option<u16>,
    pub cwd: Option<Seq<char>>,
    pub in_prompt: bool,
    pub command_buffer: Option<Seq<char>>,
    pub buffer_cursor: usize,
    pub buffer_dirty: bool,
    pub cwd_dirty: bool,
    pub cursor_sync_requested: bool,
}

impl View for TerminalState {
    type V = TermModel;

    closed spec fn view(&self) -> TermModel {
        TermModel {
            cursor_row: self.cursor_row,
            cursor_col: self.cursor_col,
            screen_rows: self.screen_rows,
            screen_cols: self.screen_cols,
            saved_cursor: self.saved_cursor,
            prompt_row: self.prompt_row,
            cwd: opt_string_view(self.cwd),
            in_prompt: self.in_prompt,
            command_buffer: opt_string_view(self.command_buffer),
            buffer_cursor: self.buffer_cursor,
            buffer_dirty: self.buffer_dirty,
            cwd_dirty: self.cwd_dirty,
            cursor_sync_requested: self.cursor_sync_requested,
        }
    }
}

/// `a + b`, saturating at `u16::MAX`.
pub open spec fn sat_add(a: u16, b: u16) -> u16 {
    if a + b > 0xffff { 0xffff } else { (a + b) as u16 }
}

/// `a - b`, saturating at zero.
pub open spec fn sat_sub(a: u16, b: u16) -> u16 {
    if a < b { 0 } else { (a - b) as u16 }
}

/// A row kept on screen (when the screen has rows).
pub open spec fn clamp_row(m: TermModel, row: u16) -> u16 {
    if m.screen_rows > 0 && row > m.screen_rows - 1 { (m.screen_rows - 1) as u16 } else { row }
}

/// A column kept on screen (when the screen has columns).
pub open spec fn clamp_col(m: TermModel, col: u16) -> u16 {
    if m.screen_cols > 0 && col > m.screen_cols - 1 { (m.screen_cols - 1) as u16 } else { col }
}

/// The state a fresh terminal of the given size starts in.
pub open spec fn spec_new_state(rows: u16, cols: u16) -> TermModel {
    TermModel {
        cursor_row: 0,
        cursor_col: 0,
        screen_rows: rows,
        screen_cols: cols,
        saved_cursor: None,
        prompt_row: None,
        cwd: None,
        in_prompt: false,
        command_buffer: None,
        buffer_cursor: 0,
        buffer_dirty: false,
        cwd_dirty: false,
        cursor_sync_requested: false,
    }
}

/// Cursor moved to `(row, col)`, kept on screen.
pub open spec fn spec_set_cursor(m: TermModel, row: u16, col: u16) -> TermModel {
    TermModel { cursor_row: clamp_row(m, row), cursor_col: clamp_col(m, col), ..m }
}

/// New screen size; the cursor is kept on the new screen.
pub open spec fn spec_update_dimensions(m: TermModel, rows: u16, cols: u16) -> TermModel {
    let m2 = TermModel { screen_rows: rows, screen_cols: cols, ..m };
    spec_set_cursor(m2, m.cursor_row, m.cursor_col)
}

/// `n` printed cells: the column advances and wraps onto following rows,
/// the row stopping at the bottom of the screen.
pub open spec fn spec_advance_col(m: TermModel, n: u16) -> TermModel {
    let col = sat_add(m.cursor_col, n);
    if m.screen_cols > 0 && col >= m.screen_cols {
        TermModel {
            cursor_row: clamp_row(m, sat_add(m.cursor_row, (col / m.screen_cols) as u16)),
            cursor_col: (col % m.screen_cols) as u16,
            ..m
        }
    } else {
        TermModel { cursor_col: col, ..m }
    }
}

/// Cursor up `n` rows, stopping at the top.
pub open spec fn spec_move_up(m: TermModel, n: u16) -> TermModel {
    TermModel { cursor_row: sat_sub(m.cursor_row, n), ..m }
}

/// Cursor down `n` rows, stopping at the bottom.
pub open spec fn spec_move_down(m: TermModel, n: u16) -> TermModel {
    TermModel { cursor_row: clamp_row(m, sat_add(m.cursor_row, n)), ..m }
}

/// Cursor right `n` columns, stopping at the right edge.
pub open spec fn spec_move_forward(m: TermModel, n: u16) -> TermModel {
    TermModel { cursor_col: clamp_col(m, sat_add(m.cursor_col, n)), ..m }
}

/// Cursor left `n` columns, stopping at the left edge.
pub open spec fn spec_move_back(m: TermModel, n: u16) -> TermModel {
    TermModel { cursor_col: sat_sub(m.cursor_col, n), ..m }
}

/// Cursor to column `col` (kept on screen).
pub open spec fn spec_set_col(m: TermModel, col: u16) -> TermModel {
    TermModel { cursor_col: clamp_col(m, col), ..m }
}

/// Cursor to row `row` (kept on screen).
pub open spec fn spec_set_row(m: TermModel, row: u16) -> TermModel {
    TermModel { cursor_row: clamp_row(m, row), ..m }
}

/// Carriage return: column 0.
pub open spec fn spec_carriage_return(m: TermModel) -> TermModel {
    TermModel { cursor_col: 0, ..m }
}

/// Line feed: one row down, stopping at the bottom row (the screen scrolls).
pub open spec fn spec_line_feed(m: TermModel) -> TermModel {
    TermModel { cursor_row: clamp_row(m, sat_add(m.cursor_row, 1)), ..m }
}

/// Backspace: one column left, stopping at the left edge.
pub open spec fn spec_backspace(m: TermModel) -> TermModel {
    TermModel { cursor_col: sat_sub(m.cursor_col, 1), ..m }
}

/// Horizontal tab: the next multiple of 8, kept on screen.
pub open spec fn spec_tab(m: TermModel) -> TermModel {
    TermModel { cursor_col: clamp_col(m, ((m.cursor_col + 8) / 8 * 8) as u16), ..m }
}

/// Saves the cursor position.
pub open spec fn spec_save_cursor(m: TermModel) -> TermModel {
    TermModel { saved_cursor: Some((m.cursor_row, m.cursor_col)), ..m }
}

/// Restores the saved cursor position, if one was saved.
pub open spec fn spec_restore_cursor(m: TermModel) -> TermModel {
    match m.saved_cursor {
        Some((r, c)) => TermModel { cursor_row: r, cursor_col: c, ..m },
        None => m,
    }
}

/// Reverse index: one row up, stopping at the top.
pub open spec fn spec_reverse_index(m: TermModel) -> TermModel {
    TermModel { cursor_row: sat_sub(m.cursor_row, 1), ..m }
}

/// A new working directory; the change flag is raised only when it differs.
pub open spec fn spec_set_cwd(m: TermModel, path: Seq<char>) -> TermModel {
    if m.cwd == Some(path) {
        m
    } else {
        TermModel { cwd: Some(path), cwd_dirty: true, ..m }
    }
}

/// The shell reported its buffer: stored, and the update flag raised.
pub open spec fn spec_set_command_buffer(m: TermModel, buffer: Seq<char>, cursor: usize) -> TermModel {
    TermModel { command_buffer: Some(buffer), buffer_cursor: cursor, buffer_dirty: true, ..m }
}

/// The buffer as it will be after an accepted suggestion (no update flag).
pub open spec fn spec_predict_command_buffer(m: TermModel, buffer: Seq<char>, cursor: usize) -> TermModel {
    TermModel { command_buffer: Some(buffer), buffer_cursor: cursor, ..m }
}

/// A command started executing: the buffer is gone.
pub open spec fn spec_clear_command_buffer(m: TermModel) -> TermModel {
    TermModel { command_buffer: None, buffer_cursor: 0, ..m }
}

impl TerminalState {
    /// A terminal of `rows` × `cols` with the cursor at the top left.
    pub fn new(rows: u16, cols: u16) -> (s: Self)
        ensures
            s@ == spec_new_state(rows, cols),
    {
        TerminalState {
            cursor_row: 0,
            cursor_col: 0,
            screen_rows: rows,
            screen_cols: cols,
            saved_cursor: None,
            prompt_row: None,
            cwd: None,
            in_prompt: false,
            command_buffer: None,
            buffer_cursor: 0,
            buffer_dirty: false,
            cwd_dirty: false,
            cursor_sync_requested: false,
        }
    }

    /// The screen was resized; the cursor is kept on screen.
    pub fn update_dimensions(&mut self, rows: u16, cols: u16)
        ensures
            final(self)@ == spec_update_dimensions(old(self)@, rows, cols),
    {
        self.screen_rows = rows;
        self.screen_cols = cols;
        self.clamp_cursor();
    }

    /// (row, col), 0-indexed.
    pub fn cursor_position(&self) -> (r: (u16, u16))
        ensures
            r == (self@.cursor_row, self@.cursor_col),
    {
        (self.cursor_row, self.cursor_col)
    }

    /// (rows, cols).
    pub fn screen_dimensions(&self) -> (r: (u16, u16))
        ensures
            r == (self@.screen_rows, self@.screen_cols),
    {
        (self.screen_rows, self.screen_cols)
    }

    /// The row where the last prompt started, if one was announced.
    pub fn prompt_row(&self) -> (r: Option<u16>)
        ensures
            r == self@.prompt_row,
    {
        self.prompt_row
    }

    /// The last working directory the shell reported.
    pub fn cwd(&self) -> (r: Option<&String>)
        ensures
            match r {
                Some(s) => self@.cwd == Some(s@),
                None => self@.cwd is None,
            },
    {
        self.cwd.as_ref()
    }

    /// Whether a prompt is being shown (between OSC 133 A and C).
    pub fn in_prompt(&self) -> (r: bool)
        ensures
            r == self@.in_prompt,
    {
        self.in_prompt
    }

    /// The shell's current command buffer, if reported.
    pub fn command_buffer(&self) -> (r: Option<&str>)
        ensures
            match r {
                Some(s) => self@.command_buffer == Some(s@),
                None => self@.command_buffer is None,
            },
    {
        match &self.command_buffer {
            Some(s) => Some(s.as_str()),
            None => None,
        }
    }

    /// The cursor's character offset in the command buffer.
    pub fn buffer_cursor(&self) -> (r: usize)
        ensures
            r == self@.buffer_cursor,
    {
        self.buffer_cursor
    }

    /// Returns true if the command buffer was updated since the last check,
    /// and clears the flag.
    pub fn take_buffer_dirty(&mut self) -> (dirty: bool)
        ensures
            dirty == old(self)@.buffer_dirty,
            final(self)@ == (TermModel { buffer_dirty: false, ..old(self)@ }),
    {
        let dirty = self.buffer_dirty;
        self.buffer_dirty = false;
        dirty
    }

    /// Returns true if the working directory changed since the last check,
    /// and clears the flag.
    pub fn take_cwd_dirty(&mut self) -> (dirty: bool)
        ensures
            dirty == old(self)@.cwd_dirty,
            final(self)@ == (TermModel { cwd_dirty: false, ..old(self)@ }),
    {
        let dirty = self.cwd_dirty;
        self.cwd_dirty = false;
        dirty
    }

    /// Returns true if a prompt started since the last check, so the real
    /// terminal's cursor position should be asked for (CSI 6n), and clears
    /// the request.
    pub fn take_cursor_sync_requested(&mut self) -> (requested: bool)
        ensures
            requested == old(self)@.cursor_sync_requested,
            final(self)@ == (TermModel { cursor_sync_requested: false, ..old(self)@ }),
    {
        let requested = self.cursor_sync_requested;
        self.cursor_sync_requested = false;
        requested
    }

    /// Asks for the real cursor position to be synced.
    pub fn request_cursor_sync(&mut self)
        ensures
            final(self)@ == (TermModel { cursor_sync_requested: true, ..old(self)@ }),
    {
        self.cursor_sync_requested = true;
    }

    /// Cursor to `(row, col)`, kept on screen.
    pub fn set_cursor(&mut self, row: u16, col: u16)
        ensures
            final(self)@ == spec_set_cursor(old(self)@, row, col),
    {
        self.cursor_row = row;
        self.cursor_col = col;
        self.clamp_cursor();
    }

    /// Cursor from a 1-indexed cursor position report.
    pub fn set_cursor_from_report(&mut self, row: u16, col: u16)
        ensures
            final(self)@ == spec_set_cursor(old(self)@, sat_sub(row, 1), sat_sub(col, 1)),
    {
        self.set_cursor(row.saturating_sub(1), col.saturating_sub(1));
    }

    /// `n` printed cells.
    pub fn advance_col(&mut self, n: u16)
        ensures
            final(self)@ == spec_advance_col(old(self)@, n),
    {
        self.cursor_col = self.cursor_col.saturating_add(n);
        if self.screen_cols > 0 && self.cursor_col >= self.screen_cols {
            self.cursor_row = self.cursor_row.saturating_add(self.cursor_col / self.screen_cols);
            self.cursor_col = self.cursor_col % self.screen_cols;
            self.clamp_cursor_row();
        }
    }

    /// Cursor up `n` rows.
    pub fn move_up(&mut self, n: u16)
        ensures
            final(self)@ == spec_move_up(old(self)@, n),
    {
        self.cursor_row = self.cursor_row.saturating_sub(n);
    }

    /// Cursor down `n` rows.
    pub fn move_down(&mut self, n: u16)
        ensures
            final(self)@ == spec_move_down(old(self)@, n),
    {
        self.cursor_row = self.cursor_row.saturating_add(n);
        self.clamp_cursor_row();
    }

    /// Cursor right `n` columns.
    pub fn move_forward(&mut self, n: u16)
        ensures
            final(self)@ == spec_move_forward(old(self)@, n),
    {
        self.cursor_col = self.cursor_col.saturating_add(n);
        self.clamp_cursor_col();
    }

    /// Cursor left `n` columns.
    pub fn move_back(&mut self, n: u16)
        ensures
            final(self)@ == spec_move_back(old(self)@, n),
    {
        self.cursor_col = self.cursor_col.saturating_sub(n);
    }

    /// Cursor to column `col`.
    pub fn set_col(&mut self, col: u16)
        ensures
            final(self)@ == spec_set_col(old(self)@, col),
    {
        self.cursor_col = col;
        self.clamp_cursor_col();
    }

    /// Cursor to row `row`.
    pub fn set_row(&mut self, row: u16)
        ensures
            final(self)@ == spec_set_row(old(self)@, row),
    {
        self.cursor_row = row;
        self.clamp_cursor_row();
    }

    /// Column 0.
    pub fn carriage_return(&mut self)
        ensures
            final(self)@ == spec_carriage_return(old(self)@),
    {
        self.cursor_col = 0;
    }

    /// One row down.
    pub fn line_feed(&mut self)
        ensures
            final(self)@ == spec_line_feed(old(self)@),
    {
        self.cursor_row = self.cursor_row.saturating_add(1);
        self.clamp_cursor_row();
    }

    /// One column left.
    pub fn backspace(&mut self)
        ensures
            final(self)@ == spec_backspace(old(self)@),
    {
        self.cursor_col = self.cursor_col.saturating_sub(1);
    }

    /// Next tab stop (every 8 columns). The column must leave room for the
    /// tab stop in a `u16` (the addition would overflow otherwise).
    pub fn tab(&mut self)
        requires
            old(self)@.cursor_col <= 0xffff - 8,
        ensures
            final(self)@ == spec_tab(old(self)@),
    {
        self.cursor_col = (self.cursor_col + 8) / 8 * 8;
        self.clamp_cursor_col();
    }

    /// DECSC.
    pub fn save_cursor(&mut self)
        ensures
            final(self)@ == spec_save_cursor(old(self)@),
    {
        self.saved_cursor = Some((self.cursor_row, self.cursor_col));
    }

    /// DECRC.
    pub fn restore_cursor(&mut self)
        ensures
            final(self)@ == spec_restore_cursor(old(self)@),
    {
        if let Some((row, col)) = self.saved_cursor {
            self.cursor_row = row;
            self.cursor_col = col;
        }
    }

    /// RI.
    pub fn reverse_index(&mut self)
        ensures
            final(self)@ == spec_reverse_index(old(self)@),
    {
        self.cursor_row = self.cursor_row.saturating_sub(1);
    }

    /// Remember where the prompt started.
    pub fn set_prompt_row(&mut self, row: u16)
        ensures
            final(self)@ == (TermModel { prompt_row: Some(row), ..old(self)@ }),
    {
        self.prompt_row = Some(row);
    }

    /// Whether a prompt is being shown.
    pub fn set_in_prompt(&mut self, in_prompt: bool)
        ensures
            final(self)@ == (TermModel { in_prompt, ..old(self)@ }),
    {
        self.in_prompt = in_prompt;
    }

    /// A reported working directory.
    pub fn set_cwd(&mut self, path: String)
        ensures
            final(self)@ == spec_set_cwd(old(self)@, path@),
    {
        let same = match &self.cwd {
            Some(c) => str_eq(c.as_str(), path.as_str()),
            None => false,
        };
        if !same {
            self.cwd = Some(path);
            self.cwd_dirty = true;
        }
    }

    /// A reported command buffer.
    pub fn set_command_buffer(&mut self, buffer: String, cursor: usize)
        ensures
            final(self)@ == spec_set_command_buffer(old(self)@, buffer@, cursor),
    {
        self.command_buffer = Some(buffer);
        self.buffer_cursor = cursor;
        self.buffer_dirty = true;
    }

    /// The buffer as predicted after accepting a suggestion.
    pub fn predict_command_buffer(&mut self, buffer: String, cursor: usize)
        ensures
            final(self)@ == spec_predict_command_buffer(old(self)@, buffer@, cursor),
    {
        self.command_buffer = Some(buffer);
        self.buffer_cursor = cursor;
    }

    /// Forget the command buffer.
    pub fn clear_command_buffer(&mut self)
        ensures
            final(self)@ == spec_clear_command_buffer(old(self)@),
    {
        self.command_buffer = None;
        self.buffer_cursor = 0;
    }

    /// The cursor's row.
    pub fn cursor_row(&self) -> (r: u16)
        ensures
            r == self@.cursor_row,
    {
        self.cursor_row
    }

    fn clamp_cursor(&mut self)
        ensures
            final(self)@ == spec_set_cursor(old(self)@, old(self)@.cursor_row, old(self)@.cursor_col),
    {
        self.clamp_cursor_row();
        self.clamp_cursor_col();
    }

    fn clamp_cursor_row(&mut self)
        ensures
            final(self)@ == spec_set_row(old(self)@, old(self)@.cursor_row),
    {
        if self.screen_rows > 0 && self.cursor_row > self.screen_rows - 1 {
            self.cursor_row = self.screen_rows - 1;
        }
    }

    fn clamp_cursor_col(&mut self)
        ensures
            final(self)@ == spec_set_col(old(self)@, old(self)@.cursor_col),
    {
        if self.screen_cols > 0 && self.cursor_col > self.screen_cols - 1 {
            self.cursor_col = self.screen_cols - 1;
        }
    }
}

} // verus!

verus! {

/// After a resize to a non-empty screen, the cursor is on the screen.
pub proof fn law_resize_keeps_cursor_on_screen(m: TermModel, rows: u16, cols: u16)
    requires
        rows > 0,
        cols > 0,
    ensures
        spec_update_dimensions(m, rows, cols).cursor_row < rows,
        spec_update_dimensions(m, rows, cols).cursor_col < cols,
{
}

/// Restoring goes back to the position last saved, whatever moved the
/// cursor in between (the moves leave the saved position alone).
pub proof fn law_restore_returns_to_saved(saved_from: TermModel, m: TermModel)
    requires
        m.saved_cursor == spec_save_cursor(saved_from).saved_cursor,
    ensures
        spec_restore_cursor(m).cursor_row == saved_from.cursor_row,
        spec_restore_cursor(m).cursor_col == saved_from.cursor_col,
{
}

/// Reporting the working directory the terminal already has changes nothing
/// (in particular, raises no change flag).
pub proof fn law_same_cwd_not_dirty(m: TermModel, path: Seq<char>)
    requires
        m.cwd == Some(path),
    ensures
        spec_set_cwd(m, path) == m,
{
}

/// A reported working directory is stored; the change flag is raised exactly
/// when it differs from the one before (or stays raised).
pub proof fn law_cwd_change_flagged(m: TermModel, path: Seq<char>)
    ensures
        spec_set_cwd(m, path).cwd == Some(path),
        spec_set_cwd(m, path).cwd_dirty == (m.cwd_dirty || m.cwd != Some(path)),
{
}

/// What the proxy does to the terminal state over time, as far as the
/// change flags go: buffer reports (OSC 7770), working-directory reports
/// (OSC 7), and the takes that read and clear the flags.
pub enum FlagEvent {
    BufferReport(Seq<char>, usize),
    TakeBuffer,
    CwdReport(Seq<char>),
    TakeCwd,
}

/// The state after a sequence of events.
pub open spec fn apply_events(m: TermModel, evs: Seq<FlagEvent>) -> TermModel
    decreases evs.len(),
{
    if evs.len() == 0 {
        m
    } else {
        let prev = apply_events(m, evs.drop_last());
        match evs.last() {
            FlagEvent::BufferReport(b, c) => spec_set_command_buffer(prev, b, c),
            FlagEvent::TakeBuffer => TermModel { buffer_dirty: false, ..prev },
            FlagEvent::CwdReport(p) => spec_set_cwd(prev, p),
            FlagEvent::TakeCwd => TermModel { cwd_dirty: false, ..prev },
        }
    }
}

/// No buffer take among `evs[from..]`.
pub open spec fn no_buffer_take_from(evs: Seq<FlagEvent>, from: int) -> bool {
    forall|l: int| from <= l < evs.len() ==> !(#[trigger] evs[l] is TakeBuffer)
}

/// No working-directory take among `evs[from..]`.
pub open spec fn no_cwd_take_from(evs: Seq<FlagEvent>, from: int) -> bool {
    forall|l: int| from <= l < evs.len() ==> !(#[trigger] evs[l] is TakeCwd)
}

/// The event at `k` reports a working directory other than the one the
/// terminal has just before it.
pub open spec fn cwd_changes_at(m: TermModel, evs: Seq<FlagEvent>, k: int) -> bool {
    evs[k] matches FlagEvent::CwdReport(p) && apply_events(m, evs.take(k)).cwd != Some(p)
}

/// A take of the buffer flag answers whether the shell reported its buffer
/// since the previous take: the flag is raised exactly when some buffer
/// report comes after the last take (or the flag was raised at the start and
/// nothing took it since).
pub proof fn law_buffer_flag_history(m: TermModel, evs: Seq<FlagEvent>)
    ensures
        apply_events(m, evs).buffer_dirty <==> (
            (exists|k: int| 0 <= k < evs.len() && #[trigger] evs[k] is BufferReport && no_buffer_take_from(evs, k + 1))
            || (m.buffer_dirty && no_buffer_take_from(evs, 0))),
    decreases evs.len(),
{
    if evs.len() > 0 {
        let init = evs.drop_last();
        law_buffer_flag_history(m, init);
        let n = evs.len() - 1;
        assert forall|k: int| 0 <= k < n implies (#[trigger] evs[k] == init[k]) by {}
        if evs.last() is TakeBuffer {
            assert(!no_buffer_take_from(evs, 0)) by {
                assert(evs[n] is TakeBuffer);
            }
            assert forall|k: int| 0 <= k < evs.len() && #[trigger] evs[k] is BufferReport implies !no_buffer_take_from(evs, k + 1) by {
                assert(evs[n] is TakeBuffer);
            }
        } else if evs.last() is BufferReport {
            assert(evs[n] is BufferReport && no_buffer_take_from(evs, n + 1));
        } else {
            if exists|k: int| 0 <= k < init.len() && #[trigger] init[k] is BufferReport && no_buffer_take_from(init, k + 1) {
                let k = choose|k: int| 0 <= k < init.len() && #[trigger] init[k] is BufferReport && no_buffer_take_from(init, k + 1);
                assert(evs[k] is BufferReport);
                assert(no_buffer_take_from(evs, k + 1));
            }
            if exists|k: int| 0 <= k < evs.len() && #[trigger] evs[k] is BufferReport && no_buffer_take_from(evs, k + 1) {
                let k = choose|k: int| 0 <= k < evs.len() && #[trigger] evs[k] is BufferReport && no_buffer_take_from(evs, k + 1);
                assert(k < n);
                assert(init[k] is BufferReport);
                assert(no_buffer_take_from(init, k + 1));
            }
            if no_buffer_take_from(init, 0) {
                assert(no_buffer_take_from(evs, 0));
            }
        }
    }
}

/// A take of the working-directory flag answers whether the directory
/// changed since the previous take: the flag is raised exactly when some
/// report of a different directory comes after the last take (or the flag
/// was raised at the start and nothing took it since).
pub proof fn law_cwd_flag_history(m: TermModel, evs: Seq<FlagEvent>)
    ensures
        apply_events(m, evs).cwd_dirty <==> (
            (exists|k: int| 0 <= k < evs.len() && #[trigger] cwd_changes_at(m, evs, k) && no_cwd_take_from(evs, k + 1))
            || (m.cwd_dirty && no_cwd_take_from(evs, 0))),
    decreases evs.len(),
{
    if evs.len() > 0 {
        let init = evs.drop_last();
        law_cwd_flag_history(m, init);
        let n = evs.len() - 1;
        assert(evs.take(n) =~= init);
        assert forall|k: int| 0 <= k < n implies (#[trigger] evs[k] == init[k] && evs.take(k) == init.take(k)) by {
            assert(evs.take(k) =~= init.take(k));
        }
        assert forall|k: int| 0 <= k < n implies (#[trigger] cwd_changes_at(m, evs, k) == cwd_changes_at(m, init, k)) by {
            assert(evs.take(k) =~= init.take(k));
        }
        if evs.last() is TakeCwd {
            assert(!no_cwd_take_from(evs, 0)) by {
                assert(evs[n] is TakeCwd);
            }
            assert forall|k: int| 0 <= k < evs.len() && #[trigger] cwd_changes_at(m, evs, k) implies !no_cwd_take_from(evs, k + 1) by {
                assert(evs[n] is TakeCwd);
            }
        } else {
            if exists|k: int| 0 <= k < init.len() && #[trigger] cwd_changes_at(m, init, k) && no_cwd_take_from(init, k + 1) {
                let k = choose|k: int| 0 <= k < init.len() && #[trigger] cwd_changes_at(m, init, k) && no_cwd_take_from(init, k + 1);
                assert(cwd_changes_at(m, evs, k));
                assert(no_cwd_take_from(evs, k + 1));
            }
            if exists|k: int| 0 <= k < n && #[trigger] cwd_changes_at(m, evs, k) && no_cwd_take_from(evs, k + 1) {
                let k = choose|k: int| 0 <= k < n && #[trigger] cwd_changes_at(m, evs, k) && no_cwd_take_from(evs, k + 1);
                assert(cwd_changes_at(m, init, k));
                assert(no_cwd_take_from(init, k + 1));
            }
            if no_cwd_take_from(init, 0) {
                assert(no_cwd_take_from(evs, 0));
            }
            if evs.last() is CwdReport {
                if cwd_changes_at(m, evs, n) {
                    assert(no_cwd_take_from(evs, n + 1));
                }
            }
        }
    }
}

} // verus!
