//! Keybindings and the popup's reaction to keys.

use vstd::prelude::*;

use vstd::utf8::encode_utf8;

use crate::ansi::append_bytes;
use crate::config::KeybindingsConfig;
use crate::context::{parse_command_context, spec_parse_context, CommandContext, SpecContext};
use crate::engine::{git_view, spec_candidates, EngineModel, Fetched, SuggestionEngine};
use crate::fuzzy::spec_rank;
use crate::history::spec_parse_and_dedup;
use crate::input::{arrow_of, key_at, keys_from, lemma_csi_final_bounds, spec_parse_keys, KeyEvent, SpecKey};
use crate::layout::{display_width, spec_layout, widths_fit};
use crate::overlay::{
    spec_move_down, spec_move_up, OverlayState, PopupLayout, DEFAULT_MAX_POPUP_WIDTH, DEFAULT_MAX_VISIBLE,
    DEFAULT_MIN_POPUP_WIDTH,
};
use crate::render::{clear_popup, default_theme, render_popup_themed, spec_clear, spec_render, PopupTheme, ThemeModel};
use crate::suggestion::{suggestions_view, SpecSuggestion, Suggestion};
use crate::terminal::{spec_predict_command_buffer, TermModel, TerminalState};
use crate::text::{chars_of, push_chars, spec_trim, spec_utf8_lossy, str_eq, string_from_chars, trim_chars};

verus! {

/// Resolved keybindings — each action maps to a concrete `KeyEvent`.
#[derive(Debug, Clone, PartialEq, Eq)]
pub struct Keybindings {
    pub accept: KeyEvent,
    pub accept_and_enter: KeyEvent,
    pub dismiss: KeyEvent,
    pub navigate_up: KeyEvent,
    pub navigate_down: KeyEvent,
    pub trigger: KeyEvent,
}

/// Model of [`Keybindings`].
pub struct SpecKeybindings {
    pub accept: SpecKey,
    pub accept_and_enter: SpecKey,
    pub dismiss: SpecKey,
    pub navigate_up: SpecKey,
    pub navigate_down: SpecKey,
    pub trigger: SpecKey,
}

impl View for Keybindings {
    type V = SpecKeybindings;

    open spec fn view(&self) -> SpecKeybindings {
        SpecKeybindings {
            accept: self.accept@,
            accept_and_enter: self.accept_and_enter@,
            dismiss: self.dismiss@,
            navigate_up: self.navigate_up@,
            navigate_down: self.navigate_down@,
            trigger: self.trigger@,
        }
    }
}

/// The default bindings, the same keys that the default configuration names.
pub open spec fn default_keybindings() -> SpecKeybindings {
    SpecKeybindings {
        accept: SpecKey::Tab,
        accept_and_enter: SpecKey::Enter,
        dismiss: SpecKey::Escape,
        navigate_up: SpecKey::ArrowUp,
        navigate_down: SpecKey::ArrowDown,
        trigger: SpecKey::CtrlSlash,
    }
}

impl Default for Keybindings {
    fn default() -> (k: Self)
        ensures
            k@ == default_keybindings(),
    {
        Keybindings {
            accept: KeyEvent::Tab,
            accept_and_enter: KeyEvent::Enter,
            dismiss: KeyEvent::Escape,
            navigate_up: KeyEvent::ArrowUp,
            navigate_down: KeyEvent::ArrowDown,
            trigger: KeyEvent::CtrlSlash,
        }
    }
}

/// A key name that names no key; `name` is the name as it was matched
/// (trimmed and lowercased).
#[derive(Debug, Clone, PartialEq, Eq)]
pub struct KeyNameError {
    pub name: String,
}

/// The key a normalized (trimmed, lowercase) name stands for.
pub open spec fn spec_key_from_name(s: Seq<char>) -> Option<SpecKey> {
    if s == "tab"@ {
        Some(SpecKey::Tab)
    } else if s == "enter"@ {
        Some(SpecKey::Enter)
    } else if s == "escape"@ {
        Some(SpecKey::Escape)
    } else if s == "backspace"@ {
        Some(SpecKey::Backspace)
    } else if s == "ctrl+space"@ {
        Some(SpecKey::CtrlSpace)
    } else if s == "ctrl+/"@ {
        Some(SpecKey::CtrlSlash)
    } else if s == "arrow_up"@ {
        Some(SpecKey::ArrowUp)
    } else if s == "arrow_down"@ {
        Some(SpecKey::ArrowDown)
    } else if s == "arrow_left"@ {
        Some(SpecKey::ArrowLeft)
    } else if s == "arrow_right"@ {
        Some(SpecKey::ArrowRight)
    } else if s == "space"@ {
        Some(SpecKey::Printable(' '))
    } else if s.len() == 1 && 'a' <= s[0] <= 'z' {
        Some(SpecKey::Printable(s[0]))
    } else {
        None
    }
}

/// What `str::to_lowercase` returns for a string.
pub uninterp spec fn spec_to_lowercase(s: Seq<char>) -> Seq<char>;

/// Every character is ASCII.
pub open spec fn all_ascii(s: Seq<char>) -> bool {
    forall|i: int| 0 <= i < s.len() ==> (#[trigger] s[i] as u32) < 128
}

/// ASCII uppercase letters lowered, every other character kept.
pub open spec fn spec_ascii_lowercase(s: Seq<char>) -> Seq<char> {
    s.map_values(|c: char| if 'A' <= c && c <= 'Z' { ((c as u32) + 32) as char } else { c })
}

/// `str::to_lowercase`: the Unicode lowercase mapping of the string. Trusted:
/// the result is the named lowercase form of exactly these characters, and
/// on ASCII text it lowers `A`-`Z` and keeps everything else. The mapping of
/// other characters (Unicode's `Lowercase` property) is left unsaid.
#[verifier::external_body]
fn to_lowercase(s: &str) -> (r: String)
    ensures
        r@ == spec_to_lowercase(s@),
        all_ascii(s@) ==> r@ == spec_ascii_lowercase(s@),
{
    s.to_lowercase()
}

/// The name as it is matched: surrounding whitespace removed, lowercased.
pub open spec fn normalized_key_name(name: Seq<char>) -> Seq<char> {
    spec_to_lowercase(spec_trim(name))
}

/// What [`parse_key_name`] gives for a name.
pub open spec fn spec_parse_key_name(name: Seq<char>) -> Result<SpecKey, Seq<char>> {
    match spec_key_from_name(normalized_key_name(name)) {
        Some(k) => Ok(k),
        None => Err(normalized_key_name(name)),
    }
}

/// Model of a key-name parse result (the error by its name).
pub open spec fn key_result_view(r: Result<KeyEvent, KeyNameError>) -> Result<SpecKey, Seq<char>> {
    match r {
        Ok(k) => Ok(k@),
        Err(e) => Err(e.name@),
    }
}

/// The key for a name that is already trimmed and lowercase.
pub fn key_from_normalized_name(name: &str) -> (r: Option<KeyEvent>)
    ensures
        match r {
            Some(k) => spec_key_from_name(name@) == Some(k@),
            None => spec_key_from_name(name@) is None,
        },
{
    if str_eq(name, "tab") {
        Some(KeyEvent::Tab)
    } else if str_eq(name, "enter") {
        Some(KeyEvent::Enter)
    } else if str_eq(name, "escape") {
        Some(KeyEvent::Escape)
    } else if str_eq(name, "backspace") {
        Some(KeyEvent::Backspace)
    } else if str_eq(name, "ctrl+space") {
        Some(KeyEvent::CtrlSpace)
    } else if str_eq(name, "ctrl+/") {
        Some(KeyEvent::CtrlSlash)
    } else if str_eq(name, "arrow_up") {
        Some(KeyEvent::ArrowUp)
    } else if str_eq(name, "arrow_down") {
        Some(KeyEvent::ArrowDown)
    } else if str_eq(name, "arrow_left") {
        Some(KeyEvent::ArrowLeft)
    } else if str_eq(name, "arrow_right") {
        Some(KeyEvent::ArrowRight)
    } else if str_eq(name, "space") {
        Some(KeyEvent::Printable(' '))
    } else {
        let cs = chars_of(name);
        if cs.len() == 1 && 'a' <= cs[0] && cs[0] <= 'z' {
            Some(KeyEvent::Printable(cs[0]))
        } else {
            None
        }
    }
}

/// Parse a human-readable key name into a `KeyEvent`.
///
/// Supported names (case-insensitive, surrounding whitespace ignored):
/// `tab`, `enter`, `escape`, `backspace`, `space`, `ctrl+space`, `ctrl+/`,
/// `arrow_up`, `arrow_down`, `arrow_left`, `arrow_right`, and the letters
/// `a` to `z`
pub fn parse_key_name(name: &str) -> (r: Result<KeyEvent, KeyNameError>)
    ensures
        key_result_view(r) == spec_parse_key_name(name@),
        all_ascii(spec_trim(name@)) ==> key_result_view(r) == (match spec_key_from_name(
            spec_ascii_lowercase(spec_trim(name@)),
        ) {
            Some(k) => Ok(k),
            None => Err(spec_ascii_lowercase(spec_trim(name@))),
        }),
{
    let cs = chars_of(name);
    let trimmed = trim_chars(&cs);
    let trimmed_s = string_from_chars(trimmed.as_slice());
    let lower = to_lowercase(trimmed_s.as_str());
    match key_from_normalized_name(lower.as_str()) {
        Some(k) => Ok(k),
        None => Err(KeyNameError { name: lower }),
    }
}

/// The bindings a configuration names: `Ok` when all six names parse, else
/// the error of the first one (in field order) that does not.
pub open spec fn spec_keybindings_from_config(
    accept: Seq<char>,
    accept_and_enter: Seq<char>,
    dismiss: Seq<char>,
    navigate_up: Seq<char>,
    navigate_down: Seq<char>,
    trigger: Seq<char>,
) -> Result<SpecKeybindings, Seq<char>> {
    combine_bindings(
        spec_parse_key_name(accept),
        spec_parse_key_name(accept_and_enter),
        spec_parse_key_name(dismiss),
        spec_parse_key_name(navigate_up),
        spec_parse_key_name(navigate_down),
        spec_parse_key_name(trigger),
    )
}

/// Six parsed names as bindings: `Ok` when all six are keys, else the first
/// error (in field order).
pub open spec fn combine_bindings(
    a: Result<SpecKey, Seq<char>>,
    b: Result<SpecKey, Seq<char>>,
    c: Result<SpecKey, Seq<char>>,
    d: Result<SpecKey, Seq<char>>,
    e: Result<SpecKey, Seq<char>>,
    f: Result<SpecKey, Seq<char>>,
) -> Result<SpecKeybindings, Seq<char>> {
    match (a, b, c, d, e, f) {
        (Err(x), _, _, _, _, _) => Err(x),
        (Ok(_), Err(x), _, _, _, _) => Err(x),
        (Ok(_), Ok(_), Err(x), _, _, _) => Err(x),
        (Ok(_), Ok(_), Ok(_), Err(x), _, _) => Err(x),
        (Ok(_), Ok(_), Ok(_), Ok(_), Err(x), _) => Err(x),
        (Ok(_), Ok(_), Ok(_), Ok(_), Ok(_), Err(x)) => Err(x),
        (Ok(ka), Ok(kb), Ok(kc), Ok(kd), Ok(ke), Ok(kf)) => Ok(
            SpecKeybindings {
                accept: ka,
                accept_and_enter: kb,
                dismiss: kc,
                navigate_up: kd,
                navigate_down: ke,
                trigger: kf,
            },
        ),
    }
}

/// What [`parse_key_name`] gives for a name whose trimmed form is ASCII:
/// the key of the name with `A`-`Z` lowered, or that lowered name as the error.
pub open spec fn spec_parse_ascii_key_name(name: Seq<char>) -> Result<SpecKey, Seq<char>> {
    match spec_key_from_name(spec_ascii_lowercase(spec_trim(name))) {
        Some(k) => Ok(k),
        None => Err(spec_ascii_lowercase(spec_trim(name))),
    }
}

/// The configuration's six names are ASCII once trimmed.
pub open spec fn ascii_names(config: &KeybindingsConfig) -> bool {
    &&& all_ascii(spec_trim(config.accept@))
    &&& all_ascii(spec_trim(config.accept_and_enter@))
    &&& all_ascii(spec_trim(config.dismiss@))
    &&& all_ascii(spec_trim(config.navigate_up@))
    &&& all_ascii(spec_trim(config.navigate_down@))
    &&& all_ascii(spec_trim(config.trigger@))
}

/// A parse result as bindings (the error by its name).
pub open spec fn bindings_result_view(r: Result<Keybindings, KeyNameError>) -> Result<SpecKeybindings, Seq<char>> {
    match r {
        Ok(k) => Ok(k@),
        Err(e) => Err(e.name@),
    }
}

impl Keybindings {
    /// The bindings named by a configuration.
    pub fn from_config(config: &KeybindingsConfig) -> (r: Result<Self, KeyNameError>)
        ensures
            match r {
                Ok(k) => spec_keybindings_from_config(
                    config.accept@,
                    config.accept_and_enter@,
                    config.dismiss@,
                    config.navigate_up@,
                    config.navigate_down@,
                    config.trigger@,
                ) == Ok::<SpecKeybindings, Seq<char>>(k@),
                Err(e) => spec_keybindings_from_config(
                    config.accept@,
                    config.accept_and_enter@,
                    config.dismiss@,
                    config.navigate_up@,
                    config.navigate_down@,
                    config.trigger@,
                ) == Err::<SpecKeybindings, Seq<char>>(e.name@),
            },
            ascii_names(config) ==> bindings_result_view(r) == combine_bindings(
                spec_parse_ascii_key_name(config.accept@),
                spec_parse_ascii_key_name(config.accept_and_enter@),
                spec_parse_ascii_key_name(config.dismiss@),
                spec_parse_ascii_key_name(config.navigate_up@),
                spec_parse_ascii_key_name(config.navigate_down@),
                spec_parse_ascii_key_name(config.trigger@),
            ),
    {
        let accept = match parse_key_name(config.accept.as_str()) {
            Ok(k) => k,
            Err(e) => return Err(e),
        };
        let accept_and_enter = match parse_key_name(config.accept_and_enter.as_str()) {
            Ok(k) => k,
            Err(e) => return Err(e),
        };
        let dismiss = match parse_key_name(config.dismiss.as_str()) {
            Ok(k) => k,
            Err(e) => return Err(e),
        };
        let navigate_up = match parse_key_name(config.navigate_up.as_str()) {
            Ok(k) => k,
            Err(e) => return Err(e),
        };
        let navigate_down = match parse_key_name(config.navigate_down.as_str()) {
            Ok(k) => k,
            Err(e) => return Err(e),
        };
        let trigger = match parse_key_name(config.trigger.as_str()) {
            Ok(k) => k,
            Err(e) => return Err(e),
        };
        Ok(Keybindings { accept, accept_and_enter, dismiss, navigate_up, navigate_down, trigger })
    }
}

/// The bytes a key stands for on the PTY.
pub open spec fn spec_key_bytes(k: SpecKey) -> Seq<u8> {
    match k {
        SpecKey::Tab => seq![0x09u8],
        SpecKey::Enter => seq![0x0Du8],
        SpecKey::Escape => seq![0x1Bu8],
        SpecKey::ArrowUp => seq![0x1Bu8, 91u8, 65u8],
        SpecKey::ArrowDown => seq![0x1Bu8, 91u8, 66u8],
        SpecKey::ArrowRight => seq![0x1Bu8, 91u8, 67u8],
        SpecKey::ArrowLeft => seq![0x1Bu8, 91u8, 68u8],
        SpecKey::CtrlSpace => seq![0x00u8],
        SpecKey::CtrlSlash => seq![0x1Fu8],
        SpecKey::Backspace => seq![0x7Fu8],
        SpecKey::Printable(c) => seq![(c as u32 % 256) as u8],
        SpecKey::CursorPositionReport(_, _) => Seq::empty(),
        SpecKey::Raw(b) => b,
    }
}

/// Convert a KeyEvent back to raw bytes for forwarding to PTY (a printable
/// character is cut to its low byte; a cursor report gives nothing).
pub fn key_to_bytes(key: &KeyEvent) -> (r: Vec<u8>)
    ensures
        r@ == spec_key_bytes(key@),
{
    let r = match key {
        KeyEvent::Tab => vec![0x09u8],
        KeyEvent::Enter => vec![0x0Du8],
        KeyEvent::Escape => vec![0x1Bu8],
        KeyEvent::ArrowUp => vec![0x1Bu8, 91u8, 65u8],
        KeyEvent::ArrowDown => vec![0x1Bu8, 91u8, 66u8],
        KeyEvent::ArrowRight => vec![0x1Bu8, 91u8, 67u8],
        KeyEvent::ArrowLeft => vec![0x1Bu8, 91u8, 68u8],
        KeyEvent::CtrlSpace => vec![0x00u8],
        KeyEvent::CtrlSlash => vec![0x1Fu8],
        KeyEvent::Backspace => vec![0x7Fu8],
        KeyEvent::Printable(c) => {
            let b = (*c as u32 % 256) as u8;
            vec![b]
        },
        KeyEvent::CursorPositionReport(_, _) => Vec::new(),
        KeyEvent::Raw(bytes) => bytes.clone(),
    };
    assert(r@ =~= spec_key_bytes(key@));
    r
}

/// Whether two keys are the same key.
pub fn key_eq(a: &KeyEvent, b: &KeyEvent) -> (r: bool)
    ensures
        r == (a@ == b@),
{
    match (a, b) {
        (KeyEvent::Tab, KeyEvent::Tab) => true,
        (KeyEvent::Enter, KeyEvent::Enter) => true,
        (KeyEvent::Escape, KeyEvent::Escape) => true,
        (KeyEvent::ArrowUp, KeyEvent::ArrowUp) => true,
        (KeyEvent::ArrowDown, KeyEvent::ArrowDown) => true,
        (KeyEvent::ArrowLeft, KeyEvent::ArrowLeft) => true,
        (KeyEvent::ArrowRight, KeyEvent::ArrowRight) => true,
        (KeyEvent::CtrlSpace, KeyEvent::CtrlSpace) => true,
        (KeyEvent::CtrlSlash, KeyEvent::CtrlSlash) => true,
        (KeyEvent::Backspace, KeyEvent::Backspace) => true,
        (KeyEvent::Printable(x), KeyEvent::Printable(y)) => *x == *y,
        (KeyEvent::CursorPositionReport(r1, c1), KeyEvent::CursorPositionReport(r2, c2)) => {
            *r1 == *r2 && *c1 == *c2
        },
        (KeyEvent::Raw(x), KeyEvent::Raw(y)) => {
            assert(a@ == SpecKey::Raw(x@) && b@ == SpecKey::Raw(y@));
            let n = x.len();
            if n != y.len() {
                assert(x@.len() != y@.len());
                return false;
            }
            let mut i: usize = 0;
            while i < n
                invariant
                    n == x@.len(),
                    n == y@.len(),
                    a@ == SpecKey::Raw(x@),
                    b@ == SpecKey::Raw(y@),
                    i <= n,
                    forall|j: int| 0 <= j < i ==> x@[j] == y@[j],
                decreases n - i,
            {
                if x[i] != y[i] {
                    assert(x@[i as int] != y@[i as int]);
                    assert(x@ != y@);
                    assert(a@ != b@);
                    return false;
                }
                i = i + 1;
            }
            assert(x@ =~= y@);
            true
        },
        _ => false,
    }
}

/// Characters that open the popup by default after they are typed.
pub open spec fn default_trigger_chars() -> Seq<char> {
    seq![' ', '/', '-', '.']
}

/// The default trigger characters: space, slash, dash, dot.
pub fn default_trigger_chars_vec() -> (v: Vec<char>)
    ensures
        v@ == default_trigger_chars(),
{
    let v = vec![' ', '/', '-', '.'];
    assert(v@ =~= default_trigger_chars());
    v
}

/// Check if a printable character should trigger suggestions (using defaults).
pub fn should_trigger_on_char(c: char) -> (r: bool)
    ensures
        r == default_trigger_chars().contains(c),
{
    let r = c == ' ' || c == '/' || c == '-' || c == '.';
    proof {
        let d = default_trigger_chars();
        if r {
            if c == ' ' { assert(d[0] == c); }
            if c == '/' { assert(d[1] == c); }
            if c == '-' { assert(d[2] == c); }
            if c == '.' { assert(d[3] == c); }
        } else {
            assert forall|i: int| 0 <= i < d.len() implies d[i] != c by {}
        }
    }
    r
}


/// Where a query for suggestions comes from: the command-line context, the
/// directory to look in, and where the popup would go.
pub struct SuggestQuery {
    pub ctx: CommandContext,
    pub cwd: String,
    pub cursor_row: u16,
    pub cursor_col: u16,
    pub screen_rows: u16,
    pub screen_cols: u16,
}

/// Model of a [`SuggestQuery`].
pub struct QueryModel {
    pub ctx: SpecContext,
    pub cwd: Seq<char>,
    pub cursor_row: u16,
    pub cursor_col: u16,
    pub screen_rows: u16,
    pub screen_cols: u16,
}

impl View for SuggestQuery {
    type V = QueryModel;

    open spec fn view(&self) -> QueryModel {
        QueryModel {
            ctx: self.ctx@,
            cwd: self.cwd@,
            cursor_row: self.cursor_row,
            cursor_col: self.cursor_col,
            screen_rows: self.screen_rows,
            screen_cols: self.screen_cols,
        }
    }
}

/// Model of an optional query.
pub open spec fn query_view(q: Option<SuggestQuery>) -> Option<QueryModel> {
    match q {
        Some(x) => Some(x@),
        None => None,
    }
}

/// What a key does: the bytes to forward to the shell, and a query to answer
/// (through [`InputHandler::finish_query`]) when the key asks for suggestions.
pub struct KeyOutcome {
    pub forward: Vec<u8>,
    pub query: Option<SuggestQuery>,
}

/// Model of an [`InputHandler`].
pub struct HandlerModel {
    pub engine: EngineModel,
    pub overlay: OverlayState,
    pub suggestions: Seq<SpecSuggestion>,
    pub last_layout: Option<PopupLayout>,
    pub visible: bool,
    pub trigger_requested: bool,
    pub max_visible: usize,
    pub min_width: u16,
    pub max_width: u16,
    pub trigger_chars: Seq<char>,
    pub keybindings: SpecKeybindings,
    pub theme: ThemeModel,
}

/// A drawn popup can be erased: its rows and columns are addressable.
pub open spec fn layout_clearable(l: PopupLayout) -> bool {
    l.start_row as int + l.height as int <= 0xffff && l.start_col < 0xffff
}

/// The handler's invariant: the window starts within the list, every line
/// width can be measured, and the last drawn popup can be erased.
pub open spec fn handler_wf(m: HandlerModel) -> bool {
    &&& m.overlay.scroll_offset <= m.suggestions.len()
    &&& widths_fit(m.suggestions)
    &&& (m.last_layout matches Some(l) ==> layout_clearable(l))
}

/// The popup can be laid out at this cursor on this screen: the width bounds
/// are ordered (as `clamp` demands) and positions stay representable.
pub open spec fn render_fits(m: HandlerModel, cursor_row: u16, cursor_col: u16, screen_rows: u16, screen_cols: u16) -> bool {
    &&& m.min_width <= m.max_width
    &&& m.min_width <= screen_cols
    &&& cursor_row < 0xffff
    &&& cursor_col as int + (if m.max_width < screen_cols { m.max_width } else { screen_cols }) as int <= 0xffff
    &&& (cursor_col < 0xffff || screen_cols < 0xffff)
}

/// Moving the selection down keeps the window end representable.
pub open spec fn move_down_fits(m: HandlerModel) -> bool {
    m.overlay.selected matches Some(n) && n + 1 < m.suggestions.len()
        ==> m.overlay.scroll_offset + m.max_visible <= usize::MAX
}

/// What to do when the shell reports its buffer.
#[derive(Debug, Clone, Copy, PartialEq, Eq)]
pub enum BufferReportAction {
    /// Ask for suggestions now.
    QueryNow,
    /// Restart the typing-pause timer.
    RestartDebounce,
    /// Nothing.
    Nothing,
}

/// The erasing of the last drawn popup, if any.
pub open spec fn last_clear(l: Option<PopupLayout>) -> Seq<u8> {
    match l {
        Some(p) => spec_clear(p),
        None => Seq::empty(),
    }
}

/// The popup hidden: nothing listed, nothing selected, nothing drawn.
pub open spec fn spec_dismiss(m: HandlerModel) -> HandlerModel {
    HandlerModel {
        visible: false,
        suggestions: Seq::empty(),
        overlay: OverlayState { selected: None, scroll_offset: 0 },
        last_layout: None,
        ..m
    }
}

/// Where the popup goes for the handler's list at this cursor.
pub open spec fn popup_layout(m: HandlerModel, cursor_row: u16, cursor_col: u16, screen_rows: u16, screen_cols: u16) -> PopupLayout {
    spec_layout(
        m.suggestions,
        m.overlay.scroll_offset as int,
        cursor_row,
        cursor_col,
        screen_rows,
        screen_cols,
        m.max_visible as int,
        m.min_width,
        m.max_width,
    )
}

/// Drawing the popup: the old one erased, the new one drawn and remembered.
pub open spec fn spec_render_at(m: HandlerModel, cursor_row: u16, cursor_col: u16, screen_rows: u16, screen_cols: u16) -> (HandlerModel, Seq<u8>) {
    let l = popup_layout(m, cursor_row, cursor_col, screen_rows, screen_cols);
    (HandlerModel { last_layout: Some(l), ..m }, last_clear(m.last_layout) + spec_render(m.suggestions, m.overlay, l, m.theme))
}

/// The shell's buffer, empty when none was reported.
pub open spec fn buffer_of(t: TermModel) -> Seq<char> {
    match t.command_buffer {
        Some(b) => b,
        None => Seq::empty(),
    }
}

/// The reported working directory, `.` when none was reported.
pub open spec fn cwd_or_dot(t: TermModel) -> Seq<char> {
    match t.cwd {
        Some(c) => c,
        None => "."@,
    }
}

/// A query for the given buffer and cursor, at the terminal's cursor.
pub open spec fn query_at(t: TermModel, buffer: Seq<char>, cursor: int) -> QueryModel {
    QueryModel {
        ctx: spec_parse_context(buffer, cursor),
        cwd: cwd_or_dot(t),
        cursor_row: t.cursor_row,
        cursor_col: t.cursor_col,
        screen_rows: t.screen_rows,
        screen_cols: t.screen_cols,
    }
}

/// Triggering: with an empty buffer the popup is hidden (if shown) and
/// nothing is asked; otherwise a query for the buffer at its cursor.
pub open spec fn spec_trigger(m: HandlerModel, t: TermModel) -> (HandlerModel, Seq<u8>, Option<QueryModel>) {
    let buffer = buffer_of(t);
    if buffer.len() == 0 {
        if m.visible {
            (spec_dismiss(m), last_clear(m.last_layout), None)
        } else {
            (m, Seq::empty(), None)
        }
    } else {
        (m, Seq::empty(), Some(query_at(t, buffer, t.buffer_cursor as int)))
    }
}

/// The bytes that replace the word being typed by the selected suggestion:
/// one backspace per character of the word, then the suggestion's text
/// (nothing when no listed item is selected).
pub open spec fn spec_accept_bytes(m: HandlerModel, t: TermModel) -> Seq<u8> {
    match m.overlay.selected {
        Some(i) => if i < m.suggestions.len() {
            let word = spec_parse_context(buffer_of(t), t.buffer_cursor as int).current_word;
            Seq::new(word.len(), |j: int| 0x7Fu8) + encode_utf8(m.suggestions[i as int].text)
        } else {
            Seq::empty()
        },
        None => Seq::empty(),
    }
}

/// The buffer after `text` replaces the word before the cursor, and the
/// cursor just after the inserted text (in characters).
pub open spec fn spec_predicted(t: TermModel, text: Seq<char>) -> (Seq<char>, usize) {
    let buffer = buffer_of(t);
    let cur: int = if t.buffer_cursor < buffer.len() { t.buffer_cursor as int } else { buffer.len() as int };
    let wl = spec_parse_context(buffer, t.buffer_cursor as int).current_word.len();
    let start: int = if wl <= cur { cur - wl } else { 0 };
    let c = start + text.len();
    (buffer.take(start) + text + buffer.skip(cur), if c <= usize::MAX { c as usize } else { usize::MAX })
}

/// The effect of one key.
pub struct KeyStep {
    pub handler: HandlerModel,
    pub term: TermModel,
    pub out: Seq<u8>,
    pub forward: Seq<u8>,
    pub query: Option<QueryModel>,
}

/// A key that hides the popup and forwards `forward`.
pub open spec fn step_dismiss(m: HandlerModel, t: TermModel, forward: Seq<u8>) -> KeyStep {
    KeyStep { handler: spec_dismiss(m), term: t, out: last_clear(m.last_layout), forward, query: None }
}

/// A key that redraws the popup (with the new selection) and forwards nothing.
pub open spec fn step_render(m: HandlerModel, t: TermModel) -> KeyStep {
    let (h, out) = spec_render_at(m, t.cursor_row, t.cursor_col, t.screen_rows, t.screen_cols);
    KeyStep { handler: h, term: t, out, forward: Seq::empty(), query: None }
}

/// Accepting with Tab: the selected text replaces the word; a directory
/// (text ending in `/`) keeps the popup and asks for its entries at once,
/// with the buffer predicted; anything else hides the popup.
pub open spec fn spec_accept_chaining(m: HandlerModel, t: TermModel) -> KeyStep {
    match m.overlay.selected {
        Some(i) => if i < m.suggestions.len() {
            let text = m.suggestions[i as int].text;
            let forward = spec_accept_bytes(m, t);
            if text.len() > 0 && text.last() == '/' {
                let (predicted, new_cursor) = spec_predicted(t, text);
                KeyStep {
                    handler: m,
                    term: spec_predict_command_buffer(t, predicted, new_cursor),
                    out: Seq::empty(),
                    forward,
                    query: Some(query_at(t, predicted, new_cursor as int)),
                }
            } else {
                step_dismiss(m, t, forward)
            }
        } else {
            step_dismiss(m, t, Seq::empty())
        },
        None => step_dismiss(m, t, Seq::empty()),
    }
}

/// A key while the popup is shown. The bound actions come first (navigate
/// up, navigate down, accept, accept and run, dismiss); then Left/Right hide
/// the popup and pass through, typing and Backspace pass through and ask for
/// a new query once the shell has the key, and any other key hides the popup
/// and passes through.
pub open spec fn spec_key_visible(m: HandlerModel, t: TermModel, k: SpecKey) -> KeyStep {
    let kb = m.keybindings;
    if k == kb.navigate_up {
        step_render(HandlerModel { overlay: spec_move_up(m.overlay), ..m }, t)
    } else if k == kb.navigate_down {
        step_render(
            HandlerModel { overlay: spec_move_down(m.overlay, m.suggestions.len() as usize, m.max_visible), ..m },
            t,
        )
    } else if k == kb.accept {
        if m.overlay.selected is None {
            step_dismiss(m, t, spec_key_bytes(k))
        } else {
            spec_accept_chaining(m, t)
        }
    } else if k == kb.accept_and_enter {
        if m.overlay.selected is Some {
            step_dismiss(m, t, spec_accept_bytes(m, t).push(0x0Du8))
        } else {
            step_dismiss(m, t, seq![0x0Du8])
        }
    } else if k == kb.dismiss {
        step_dismiss(m, t, Seq::empty())
    } else {
        match k {
            SpecKey::ArrowLeft | SpecKey::ArrowRight => step_dismiss(m, t, spec_key_bytes(k)),
            SpecKey::Printable(_) | SpecKey::Backspace => KeyStep {
                handler: HandlerModel { trigger_requested: true, ..m },
                term: t,
                out: Seq::empty(),
                forward: spec_key_bytes(k),
                query: None,
            },
            _ => step_dismiss(m, t, spec_key_bytes(k)),
        }
    }
}

/// A key while the popup is hidden: the trigger key asks for suggestions at
/// once and is not forwarded; a typed trigger character is forwarded and
/// asks for a query once the shell has it; anything else is forwarded.
pub open spec fn spec_key_hidden(m: HandlerModel, t: TermModel, k: SpecKey) -> KeyStep {
    if k == m.keybindings.trigger {
        let (h, out, q) = spec_trigger(m, t);
        KeyStep { handler: h, term: t, out, forward: Seq::empty(), query: q }
    } else {
        match k {
            SpecKey::Printable(c) => KeyStep {
                handler: HandlerModel { trigger_requested: m.trigger_requested || m.trigger_chars.contains(c), ..m },
                term: t,
                out: Seq::empty(),
                forward: spec_key_bytes(k),
                query: None,
            },
            _ => KeyStep { handler: m, term: t, out: Seq::empty(), forward: spec_key_bytes(k), query: None },
        }
    }
}

/// The effect of a key.
pub open spec fn spec_process_key(m: HandlerModel, t: TermModel, k: SpecKey) -> KeyStep {
    if m.visible {
        spec_key_visible(m, t, k)
    } else {
        spec_key_hidden(m, t, k)
    }
}

/// The key redraws the popup.
pub open spec fn key_renders(m: HandlerModel, k: SpecKey) -> bool {
    m.visible && (k == m.keybindings.navigate_up || k == m.keybindings.navigate_down)
}

/// Answering a query with `results`: a non-empty list whose lines can be
/// measured is shown from the top at the query's cursor; otherwise the popup
/// is hidden if it was shown.
pub open spec fn spec_finish(m: HandlerModel, q: QueryModel, results: Seq<SpecSuggestion>) -> (HandlerModel, Seq<u8>) {
    if results.len() > 0 && widths_fit(results) {
        spec_render_at(
            HandlerModel {
                suggestions: results,
                overlay: OverlayState { selected: None, scroll_offset: 0 },
                visible: true,
                ..m
            },
            q.cursor_row,
            q.cursor_col,
            q.screen_rows,
            q.screen_cols,
        )
    } else if m.visible {
        (spec_dismiss(m), last_clear(m.last_layout))
    } else {
        (m, Seq::empty())
    }
}

/// The popup's state machine. It decides what each key does, what to draw
/// and what to forward; the caller performs the terminal I/O, fetches the
/// outside suggestion sources for a query, and hands their results back.
pub struct InputHandler {
    engine: SuggestionEngine,
    overlay: OverlayState,
    suggestions: Vec<Suggestion>,
    last_layout: Option<PopupLayout>,
    visible: bool,
    trigger_requested: bool,
    max_visible: usize,
    min_width: u16,
    max_width: u16,
    trigger_chars: Vec<char>,
    keybindings: Keybindings,
    theme: PopupTheme,
}

impl View for InputHandler {
    type V = HandlerModel;

    closed spec fn view(&self) -> HandlerModel {
        HandlerModel {
            engine: self.engine@,
            overlay: self.overlay,
            suggestions: suggestions_view(self.suggestions@),
            last_layout: self.last_layout,
            visible: self.visible,
            trigger_requested: self.trigger_requested,
            max_visible: self.max_visible,
            min_width: self.min_width,
            max_width: self.max_width,
            trigger_chars: self.trigger_chars@,
            keybindings: self.keybindings@,
            theme: self.theme@,
        }
    }
}

/// Whether `c` is among `v`.
fn contains_char(v: &Vec<char>, c: char) -> (r: bool)
    ensures
        r == v@.contains(c),
{
    let n = v.len();
    for i in 0..n
        invariant
            n == v@.len(),
            forall|j: int| 0 <= j < i ==> v@[j] != c,
    {
        if v[i] == c {
            return true;
        }
    }
    false
}

/// Every line width of the list can be measured.
fn all_widths_fit(v: &Vec<Suggestion>) -> (r: bool)
    ensures
        r == widths_fit(suggestions_view(v@)),
{
    let ghost sv = suggestions_view(v@);
    let n = v.len();
    for i in 0..n
        invariant
            n == v@.len(),
            sv == suggestions_view(v@),
            forall|j: int| 0 <= j < i ==> #[trigger] display_width(sv[j]) + 2 <= usize::MAX,
    {
        let s = &v[i];
        let t = s.text.as_str().as_bytes().len();
        assert(sv[i as int] == s@);
        match &s.description {
            Some(x) => {
                let d = x.as_str().as_bytes().len();
                if t > usize::MAX - 8 || d > usize::MAX - 8 - t {
                    assert(display_width(sv[i as int]) + 2 > usize::MAX);
                    return false;
                }
                assert(display_width(sv[i as int]) + 2 <= usize::MAX);
            },
            None => {
                if t > usize::MAX - 6 {
                    assert(display_width(sv[i as int]) + 2 > usize::MAX);
                    return false;
                }
                assert(display_width(sv[i as int]) + 2 <= usize::MAX);
            },
        }
    }
    true
}


/// A fresh handler's model: hidden, nothing listed, default sizes, trigger
/// characters and keybindings.
pub open spec fn spec_new_handler(engine: EngineModel) -> HandlerModel {
    HandlerModel {
        engine,
        overlay: OverlayState { selected: None, scroll_offset: 0 },
        suggestions: Seq::empty(),
        last_layout: None,
        visible: false,
        trigger_requested: false,
        max_visible: DEFAULT_MAX_VISIBLE,
        min_width: DEFAULT_MIN_POPUP_WIDTH,
        max_width: DEFAULT_MAX_POPUP_WIDTH,
        trigger_chars: default_trigger_chars(),
        keybindings: default_keybindings(),
        theme: default_theme(),
    }
}

impl InputHandler {
    /// The invariant every handler keeps.
    pub open spec fn wf(&self) -> bool {
        handler_wf(self@)
    }

    /// A hidden popup over the given engine, with default sizes, trigger
    /// characters and keybindings.
    pub fn new(engine: SuggestionEngine) -> (h: Self)
        ensures
            h@ == spec_new_handler(engine@),
            h.wf(),
    {
        let h = InputHandler {
            engine,
            overlay: OverlayState::new(),
            suggestions: Vec::new(),
            last_layout: None,
            visible: false,
            trigger_requested: false,
            max_visible: DEFAULT_MAX_VISIBLE,
            min_width: DEFAULT_MIN_POPUP_WIDTH,
            max_width: DEFAULT_MAX_POPUP_WIDTH,
            trigger_chars: default_trigger_chars_vec(),
            keybindings: Keybindings::default(),
            theme: PopupTheme::default(),
        };
        assert(h@.suggestions =~= Seq::<SpecSuggestion>::empty());
        h
    }

    /// The same handler with other popup size limits.
    pub fn with_popup_config(self, max_visible: usize, min_width: u16, max_width: u16) -> (h: Self)
        requires
            self.wf(),
        ensures
            h.wf(),
            h@ == (HandlerModel { max_visible, min_width, max_width, ..self@ }),
    {
        InputHandler { max_visible, min_width, max_width, ..self }
    }

    /// The same handler with other trigger characters.
    pub fn with_trigger_chars(self, chars: &[char]) -> (h: Self)
        requires
            self.wf(),
        ensures
            h.wf(),
            h@ == (HandlerModel { trigger_chars: chars@, ..self@ }),
    {
        let mut v: Vec<char> = Vec::new();
        let n = chars.len();
        for i in 0..n
            invariant
                n == chars@.len(),
                v@ == chars@.take(i as int),
        {
            v.push(chars[i]);
            assert(chars@.take(i + 1) =~= chars@.take(i as int).push(chars@[i as int]));
        }
        assert(chars@.take(n as int) =~= chars@);
        InputHandler { trigger_chars: v, ..self }
    }

    /// The same handler with other keybindings.
    pub fn with_keybindings(self, keybindings: Keybindings) -> (h: Self)
        requires
            self.wf(),
        ensures
            h.wf(),
            h@ == (HandlerModel { keybindings: keybindings@, ..self@ }),
    {
        InputHandler { keybindings, ..self }
    }

    /// The same handler with another popup theme.
    pub fn with_theme(self, theme: PopupTheme) -> (h: Self)
        requires
            self.wf(),
        ensures
            h.wf(),
            h@ == (HandlerModel { theme: theme@, ..self@ }),
    {
        InputHandler { theme, ..self }
    }

    /// The same handler with its engine reconfigured (see
    /// [`SuggestionEngine::with_suggest_config`]).
    #[allow(clippy::too_many_arguments)]
    pub fn with_suggest_config(
        self,
        max_results: usize,
        max_history_entries: usize,
        history_bytes: Option<&[u8]>,
        commands: bool,
        history: bool,
        filesystem: bool,
        specs: bool,
        git: bool,
    ) -> (h: Self)
        requires
            self.wf(),
        ensures
            h.wf(),
            h@ == (HandlerModel {
                engine: EngineModel {
                    specs: self@.engine.specs,
                    history: match history_bytes {
                        Some(b) => spec_parse_and_dedup(spec_utf8_lossy(b@), max_history_entries as nat),
                        None => Seq::empty(),
                    },
                    max_results,
                    commands,
                    history_on: history,
                    filesystem,
                    specs_on: specs,
                    git,
                },
                ..self@
            }),
    {
        let InputHandler {
            engine,
            overlay,
            suggestions,
            last_layout,
            visible,
            trigger_requested,
            max_visible,
            min_width,
            max_width,
            trigger_chars,
            keybindings,
            theme,
        } = self;
        let engine = engine.with_suggest_config(
            max_results,
            max_history_entries,
            history_bytes,
            commands,
            history,
            filesystem,
            specs,
            git,
        );
        InputHandler {
            engine,
            overlay,
            suggestions,
            last_layout,
            visible,
            trigger_requested,
            max_visible,
            min_width,
            max_width,
            trigger_chars,
            keybindings,
            theme,
        }
    }

    /// The engine that answers queries (the caller asks it which outside
    /// sources a query needs).
    pub fn engine(&self) -> (e: &SuggestionEngine)
        ensures
            e@ == self@.engine,
    {
        &self.engine
    }

    /// Whether the popup is shown.
    pub fn is_visible(&self) -> (r: bool)
        ensures
            r == self@.visible,
    {
        self.visible
    }

    /// Whether a query was asked for, to run once the shell has the last key.
    pub fn has_pending_trigger(&self) -> (r: bool)
        ensures
            r == self@.trigger_requested,
    {
        self.trigger_requested
    }

    /// Forget the pending query request.
    pub fn clear_trigger_request(&mut self)
        requires
            old(self).wf(),
        ensures
            final(self).wf(),
            final(self)@ == (HandlerModel { trigger_requested: false, ..old(self)@ }),
    {
        self.trigger_requested = false;
    }

    /// The shell reported its buffer (OSC 7770): a pending request (a typed
    /// trigger character) is taken and answered now; otherwise, with a
    /// debounce delay, the caller restarts its typing-pause timer.
    pub fn on_buffer_report(&mut self, debounce: bool) -> (r: BufferReportAction)
        requires
            old(self).wf(),
        ensures
            final(self).wf(),
            final(self)@ == (HandlerModel { trigger_requested: false, ..old(self)@ }),
            r == (if old(self)@.trigger_requested {
                BufferReportAction::QueryNow
            } else if debounce {
                BufferReportAction::RestartDebounce
            } else {
                BufferReportAction::Nothing
            }),
    {
        if self.trigger_requested {
            self.trigger_requested = false;
            BufferReportAction::QueryNow
        } else if debounce {
            BufferReportAction::RestartDebounce
        } else {
            BufferReportAction::Nothing
        }
    }

    /// The listed suggestions.
    pub fn suggestions(&self) -> (r: &Vec<Suggestion>)
        ensures
            suggestions_view(r@) == self@.suggestions,
    {
        &self.suggestions
    }

    /// The selection state.
    pub fn overlay(&self) -> (r: OverlayState)
        ensures
            r == self@.overlay,
    {
        self.overlay
    }

    /// Where the popup was last drawn, if it is drawn.
    pub fn last_layout(&self) -> (r: Option<PopupLayout>)
        ensures
            r == self@.last_layout,
    {
        self.last_layout
    }

    /// Whether the popup can be drawn at this cursor on this screen (see
    /// [`render_fits`]).
    pub fn can_render(&self, cursor_row: u16, cursor_col: u16, screen_rows: u16, screen_cols: u16) -> (r: bool)
        ensures
            r == render_fits(self@, cursor_row, cursor_col, screen_rows, screen_cols),
    {
        let upper = if self.max_width < screen_cols { self.max_width } else { screen_cols };
        self.min_width <= self.max_width && self.min_width <= screen_cols && cursor_row < 0xffff
            && (cursor_col as u32) + (upper as u32) <= 0xffff && (cursor_col < 0xffff || screen_cols < 0xffff)
    }

    /// Whether moving the selection down keeps the window end representable.
    pub fn can_move_down(&self) -> (r: bool)
        ensures
            r == move_down_fits(self@),
    {
        match self.overlay.selected {
            Some(n) => !(n < self.suggestions.len() && self.suggestions.len() - n > 1)
                || self.overlay.scroll_offset <= usize::MAX - self.max_visible,
            None => true,
        }
    }

    /// Hides the popup, erasing it if it is drawn.
    pub fn dismiss(&mut self, out: &mut Vec<u8>)
        requires
            old(self).wf(),
        ensures
            final(self).wf(),
            final(self)@ == spec_dismiss(old(self)@),
            final(out)@ == old(out)@ + last_clear(old(self)@.last_layout),
    {
        match &self.last_layout {
            Some(l) => clear_popup(out, l),
            None => {
                assert(out@ =~= old(out)@ + last_clear(old(self)@.last_layout));
            },
        }
        self.visible = false;
        self.suggestions.clear();
        self.overlay.reset();
        self.last_layout = None;
        assert(self@.suggestions =~= Seq::<SpecSuggestion>::empty());
    }

    /// Draws the popup at the given cursor, erasing the previous one.
    fn render_at(&mut self, out: &mut Vec<u8>, cursor_row: u16, cursor_col: u16, screen_rows: u16, screen_cols: u16)
        requires
            old(self).wf(),
            render_fits(old(self)@, cursor_row, cursor_col, screen_rows, screen_cols),
        ensures
            final(self).wf(),
            (final(self)@, final(out)@.skip(old(out)@.len() as int))
                == spec_render_at(old(self)@, cursor_row, cursor_col, screen_rows, screen_cols),
            final(out)@ == old(out)@ + spec_render_at(old(self)@, cursor_row, cursor_col, screen_rows, screen_cols).1,
    {
        match &self.last_layout {
            Some(l) => clear_popup(out, l),
            None => {},
        }
        let ghost mid = out@;
        let layout = render_popup_themed(
            out,
            self.suggestions.as_slice(),
            &self.overlay,
            cursor_row,
            cursor_col,
            screen_rows,
            screen_cols,
            self.max_visible,
            self.min_width,
            self.max_width,
            &self.theme,
        );
        self.last_layout = Some(layout);
        proof {
            let sr = spec_render_at(old(self)@, cursor_row, cursor_col, screen_rows, screen_cols);
            assert(layout == popup_layout(old(self)@, cursor_row, cursor_col, screen_rows, screen_cols));
            assert(out@ =~= old(out)@ + sr.1);
            assert(out@.skip(old(out)@.len() as int) =~= sr.1);
            assert(self@ == sr.0);
        }
    }

    /// Redraws the popup after a resize, if it is shown.
    pub fn handle_resize(&mut self, term: &TerminalState, out: &mut Vec<u8>)
        requires
            old(self).wf(),
            old(self)@.visible ==> render_fits(old(self)@, term@.cursor_row, term@.cursor_col, term@.screen_rows, term@.screen_cols),
        ensures
            final(self).wf(),
            old(self)@.visible ==> {
                let (h, o) = spec_render_at(old(self)@, term@.cursor_row, term@.cursor_col, term@.screen_rows, term@.screen_cols);
                final(self)@ == h && final(out)@ == old(out)@ + o
            },
            !old(self)@.visible ==> final(self)@ == old(self)@ && final(out)@ == old(out)@,
    {
        if self.visible {
            let (cr, cc) = term.cursor_position();
            let (sr, sc) = term.screen_dimensions();
            self.render_at(out, cr, cc, sr, sc);
        }
    }

    /// Asks for suggestions for the shell's current buffer: with an empty
    /// buffer the popup is hidden (if shown) and no query is made; otherwise
    /// the query to answer through [`InputHandler::finish_query`].
    pub fn trigger(&mut self, term: &TerminalState, out: &mut Vec<u8>) -> (q: Option<SuggestQuery>)
        requires
            old(self).wf(),
        ensures
            final(self).wf(),
            (final(self)@, final(out)@.skip(old(out)@.len() as int), query_view(q)) == spec_trigger(old(self)@, term@),
            final(out)@ == old(out)@ + spec_trigger(old(self)@, term@).1,
    {
        let buffer: &str = match term.command_buffer() {
            Some(b) => b,
            None => "",
        };
        proof {
            if term@.command_buffer is None {
                reveal_strlit("");
            }
        }
        assert(buffer@ == buffer_of(term@));
        if chars_of(buffer).len() == 0 {
            if self.visible {
                self.dismiss(out);
            }
            assert(out@.skip(old(out)@.len() as int) =~= spec_trigger(old(self)@, term@).1);
            return None;
        }
        let q = self.query_for(term, buffer, term.buffer_cursor());
        assert(out@.skip(old(out)@.len() as int) =~= Seq::<u8>::empty());
        Some(q)
    }

    /// A query for `buffer` at `cursor`, at the terminal's cursor.
    fn query_for(&self, term: &TerminalState, buffer: &str, cursor: usize) -> (q: SuggestQuery)
        ensures
            q@ == query_at(term@, buffer@, cursor as int),
    {
        let ctx = parse_command_context(buffer, cursor);
        let cwd = match term.cwd() {
            Some(c) => c.clone(),
            None => {
                proof {
                    reveal_strlit(".");
                }
                ".".to_string()
            },
        };
        let (cursor_row, cursor_col) = term.cursor_position();
        let (screen_rows, screen_cols) = term.screen_dimensions();
        SuggestQuery { ctx, cwd, cursor_row, cursor_col, screen_rows, screen_cols }
    }

    /// Answers a query with what the outside sources gave: the engine's
    /// suggestions (see [`SuggestionEngine::suggest_sync`]) are shown when
    /// there are any, else the popup is hidden (see [`spec_finish`]).
    pub fn finish_query(&mut self, query: &SuggestQuery, fetched: &Fetched, out: &mut Vec<u8>)
        requires
            old(self).wf(),
            render_fits(old(self)@, query.cursor_row, query.cursor_col, query.screen_rows, query.screen_cols),
        ensures
            final(self).wf(),
            final(self)@ == spec_finish(
                old(self)@,
                query@,
                spec_rank(
                    query@.ctx.current_word,
                    spec_candidates(
                        old(self)@.engine,
                        query@.ctx,
                        suggestions_view(fetched.commands@),
                        suggestions_view(fetched.filesystem@),
                        git_view(fetched.git@),
                    ),
                    old(self)@.engine.max_results as int,
                ),
            ).0,
            final(out)@ == old(out)@ + spec_finish(
                old(self)@,
                query@,
                spec_rank(
                    query@.ctx.current_word,
                    spec_candidates(
                        old(self)@.engine,
                        query@.ctx,
                        suggestions_view(fetched.commands@),
                        suggestions_view(fetched.filesystem@),
                        git_view(fetched.git@),
                    ),
                    old(self)@.engine.max_results as int,
                ),
            ).1,
    {
        let results = self.engine.suggest_sync(&query.ctx, fetched);
        if results.len() > 0 && all_widths_fit(&results) {
            self.suggestions = results;
            self.overlay.reset();
            self.visible = true;
            self.render_at(out, query.cursor_row, query.cursor_col, query.screen_rows, query.screen_cols);
        } else if self.visible {
            self.dismiss(out);
        } else {
            assert(out@ =~= old(out)@ + Seq::<u8>::empty());
        }
    }
}


/// The shell's buffer, empty when none was reported.
fn buffer_str(term: &TerminalState) -> (b: &str)
    ensures
        b@ == buffer_of(term@),
{
    match term.command_buffer() {
        Some(b) => b,
        None => {
            proof {
                reveal_strlit("");
            }
            ""
        },
    }
}

/// The buffer after `text` replaces the word before the cursor (see
/// [`spec_predicted`]).
fn predicted_buffer(term: &TerminalState, text: &String) -> (r: (String, usize))
    ensures
        (r.0@, r.1) == spec_predicted(term@, text@),
{
    let buffer = buffer_str(term);
    let bchars = chars_of(buffer);
    let cursor = term.buffer_cursor();
    let cur = if cursor < bchars.len() { cursor } else { bchars.len() };
    let ctx = parse_command_context(buffer, cursor);
    let wl = chars_of(ctx.current_word.as_str()).len();
    let start = if wl <= cur { cur - wl } else { 0 };
    let tchars = chars_of(text.as_str());
    let mut out: Vec<char> = Vec::new();
    push_chars(&mut out, &bchars, 0, start);
    push_chars(&mut out, &tchars, 0, tchars.len());
    push_chars(&mut out, &bchars, cur, bchars.len());
    let new_cursor = if tchars.len() <= usize::MAX - start { start + tchars.len() } else { usize::MAX };
    proof {
        assert(out@ =~= buffer@.take(start as int) + text@ + buffer@.skip(cur as int));
    }
    (string_from_chars(out.as_slice()), new_cursor)
}

impl InputHandler {
    /// The bytes that replace the word being typed by the selected
    /// suggestion (see [`spec_accept_bytes`]).
    fn accept_bytes(&self, term: &TerminalState) -> (r: Vec<u8>)
        ensures
            r@ == spec_accept_bytes(self@, term@),
    {
        let idx = match self.overlay.selected {
            Some(i) => i,
            None => return Vec::new(),
        };
        if idx >= self.suggestions.len() {
            return Vec::new();
        }
        let buffer = buffer_str(term);
        let ctx = parse_command_context(buffer, term.buffer_cursor());
        let n = chars_of(ctx.current_word.as_str()).len();
        let mut bytes: Vec<u8> = Vec::new();
        for i in 0..n
            invariant
                bytes@ == Seq::new(i as nat, |j: int| 0x7Fu8),
        {
            bytes.push(0x7F);
            assert(bytes@ =~= Seq::new((i + 1) as nat, |j: int| 0x7Fu8));
        }
        let ghost dels = bytes@;
        append_bytes(&mut bytes, self.suggestions[idx].text.as_str().as_bytes());
        proof {
            assert(self@.suggestions[idx as int] == self.suggestions@[idx as int]@);
            assert(bytes@ =~= spec_accept_bytes(self@, term@));
        }
        bytes
    }

    /// Process a single key event: what to forward to the shell, what to
    /// draw (appended to `out`), and whether to ask for suggestions (see
    /// [`spec_process_key`]). A key that redraws the popup needs a screen it
    /// fits on, and moving down needs a representable window end.
    pub fn process_key(&mut self, key: &KeyEvent, term: &mut TerminalState, out: &mut Vec<u8>) -> (r: KeyOutcome)
        requires
            old(self).wf(),
            key_renders(old(self)@, key@) ==> render_fits(
                old(self)@,
                old(term)@.cursor_row,
                old(term)@.cursor_col,
                old(term)@.screen_rows,
                old(term)@.screen_cols,
            ),
            old(self)@.visible && key@ == old(self)@.keybindings.navigate_down ==> move_down_fits(old(self)@),
        ensures
            final(self).wf(),
            final(self)@ == spec_process_key(old(self)@, old(term)@, key@).handler,
            final(term)@ == spec_process_key(old(self)@, old(term)@, key@).term,
            final(out)@ == old(out)@ + spec_process_key(old(self)@, old(term)@, key@).out,
            r.forward@ == spec_process_key(old(self)@, old(term)@, key@).forward,
            query_view(r.query) == spec_process_key(old(self)@, old(term)@, key@).query,
    {
        if self.visible {
            self.process_key_visible(key, term, out)
        } else {
            self.process_key_hidden(key, term, out)
        }
    }

    fn process_key_hidden(&mut self, key: &KeyEvent, term: &mut TerminalState, out: &mut Vec<u8>) -> (r: KeyOutcome)
        requires
            old(self).wf(),
            !old(self)@.visible,
        ensures
            final(self).wf(),
            final(self)@ == spec_key_hidden(old(self)@, old(term)@, key@).handler,
            final(term)@ == spec_key_hidden(old(self)@, old(term)@, key@).term,
            final(out)@ == old(out)@ + spec_key_hidden(old(self)@, old(term)@, key@).out,
            r.forward@ == spec_key_hidden(old(self)@, old(term)@, key@).forward,
            query_view(r.query) == spec_key_hidden(old(self)@, old(term)@, key@).query,
    {
        if key_eq(key, &self.keybindings.trigger) {
            let query = self.trigger(term, out);
            let forward: Vec<u8> = Vec::new();
            assert(forward@ =~= Seq::<u8>::empty());
            return KeyOutcome { forward, query };
        }
        let forward = key_to_bytes(key);
        match key {
            KeyEvent::Printable(c) => {
                if contains_char(&self.trigger_chars, *c) {
                    self.trigger_requested = true;
                }
            },
            _ => {},
        }
        assert(out@ =~= old(out)@ + Seq::<u8>::empty());
        KeyOutcome { forward, query: None }
    }

    fn process_key_visible(&mut self, key: &KeyEvent, term: &mut TerminalState, out: &mut Vec<u8>) -> (r: KeyOutcome)
        requires
            old(self).wf(),
            old(self)@.visible,
            key_renders(old(self)@, key@) ==> render_fits(
                old(self)@,
                old(term)@.cursor_row,
                old(term)@.cursor_col,
                old(term)@.screen_rows,
                old(term)@.screen_cols,
            ),
            key@ == old(self)@.keybindings.navigate_down ==> move_down_fits(old(self)@),
        ensures
            final(self).wf(),
            final(self)@ == spec_key_visible(old(self)@, old(term)@, key@).handler,
            final(term)@ == spec_key_visible(old(self)@, old(term)@, key@).term,
            final(out)@ == old(out)@ + spec_key_visible(old(self)@, old(term)@, key@).out,
            r.forward@ == spec_key_visible(old(self)@, old(term)@, key@).forward,
            query_view(r.query) == spec_key_visible(old(self)@, old(term)@, key@).query,
    {
        let (cr, cc) = term.cursor_position();
        let (sr, sc) = term.screen_dimensions();
        if key_eq(key, &self.keybindings.navigate_up) {
            self.overlay.move_up();
            self.render_at(out, cr, cc, sr, sc);
            let forward: Vec<u8> = Vec::new();
            assert(forward@ =~= Seq::<u8>::empty());
            return KeyOutcome { forward, query: None };
        }
        if key_eq(key, &self.keybindings.navigate_down) {
            let n = self.suggestions.len();
            let mv = self.max_visible;
            self.overlay.move_down(n, mv);
            self.render_at(out, cr, cc, sr, sc);
            let forward: Vec<u8> = Vec::new();
            assert(forward@ =~= Seq::<u8>::empty());
            return KeyOutcome { forward, query: None };
        }
        if key_eq(key, &self.keybindings.accept) {
            if self.overlay.selected.is_none() {
                self.dismiss(out);
                return KeyOutcome { forward: key_to_bytes(key), query: None };
            }
            return self.accept_with_chaining(term, out);
        }
        if key_eq(key, &self.keybindings.accept_and_enter) {
            if self.overlay.selected.is_some() {
                let mut forward = self.accept_bytes(term);
                self.dismiss(out);
                forward.push(0x0D);
                return KeyOutcome { forward, query: None };
            } else {
                self.dismiss(out);
                let forward = vec![0x0Du8];
                assert(forward@ =~= seq![0x0Du8]);
                return KeyOutcome { forward, query: None };
            }
        }
        if key_eq(key, &self.keybindings.dismiss) {
            self.dismiss(out);
            let forward: Vec<u8> = Vec::new();
            assert(forward@ =~= Seq::<u8>::empty());
            return KeyOutcome { forward, query: None };
        }
        match key {
            KeyEvent::ArrowLeft | KeyEvent::ArrowRight => {
                self.dismiss(out);
                KeyOutcome { forward: key_to_bytes(key), query: None }
            },
            KeyEvent::Printable(_) | KeyEvent::Backspace => {
                let forward = key_to_bytes(key);
                self.trigger_requested = true;
                assert(out@ =~= old(out)@ + Seq::<u8>::empty());
                KeyOutcome { forward, query: None }
            },
            _ => {
                self.dismiss(out);
                KeyOutcome { forward: key_to_bytes(key), query: None }
            },
        }
    }

    /// Accepting with Tab (see [`spec_accept_chaining`]).
    fn accept_with_chaining(&mut self, term: &mut TerminalState, out: &mut Vec<u8>) -> (r: KeyOutcome)
        requires
            old(self).wf(),
            old(self)@.overlay.selected is Some,
        ensures
            final(self).wf(),
            final(self)@ == spec_accept_chaining(old(self)@, old(term)@).handler,
            final(term)@ == spec_accept_chaining(old(self)@, old(term)@).term,
            final(out)@ == old(out)@ + spec_accept_chaining(old(self)@, old(term)@).out,
            r.forward@ == spec_accept_chaining(old(self)@, old(term)@).forward,
            query_view(r.query) == spec_accept_chaining(old(self)@, old(term)@).query,
    {
        let idx = match self.overlay.selected {
            Some(i) => i,
            None => 0,
        };
        if idx >= self.suggestions.len() {
            self.dismiss(out);
            let forward: Vec<u8> = Vec::new();
            assert(forward@ =~= Seq::<u8>::empty());
            return KeyOutcome { forward, query: None };
        }
        let forward = self.accept_bytes(term);
        let text_chars = chars_of(self.suggestions[idx].text.as_str());
        assert(text_chars@ == old(self)@.suggestions[idx as int].text);
        let is_dir = text_chars.len() > 0 && text_chars[text_chars.len() - 1] == '/';
        if is_dir {
            let (predicted, new_cursor) = predicted_buffer(term, &self.suggestions[idx].text);
            let query = self.query_for(term, predicted.as_str(), new_cursor);
            term.predict_command_buffer(predicted, new_cursor);
            assert(out@ =~= old(out)@ + Seq::<u8>::empty());
            KeyOutcome { forward, query: Some(query) }
        } else {
            self.dismiss(out);
            KeyOutcome { forward, query: None }
        }
    }
}


/// While the popup is hidden, a key other than the trigger key goes to the
/// shell exactly as typed, nothing is drawn and the terminal is untouched.
pub proof fn law_hidden_keys_pass_through(m: HandlerModel, t: TermModel, k: SpecKey)
    requires
        !m.visible,
        k != m.keybindings.trigger,
    ensures
        spec_process_key(m, t, k).forward == spec_key_bytes(k),
        spec_process_key(m, t, k).out == Seq::<u8>::empty(),
        spec_process_key(m, t, k).term == t,
        spec_process_key(m, t, k).query is None,
        !spec_process_key(m, t, k).handler.visible,
{
}

/// With the default bindings, Escape on a shown popup hides it, erases it
/// and sends nothing to the shell.
pub proof fn law_escape_dismisses(m: HandlerModel, t: TermModel)
    requires
        m.visible,
        m.keybindings == default_keybindings(),
    ensures
        !spec_process_key(m, t, SpecKey::Escape).handler.visible,
        spec_process_key(m, t, SpecKey::Escape).handler.suggestions.len() == 0,
        spec_process_key(m, t, SpecKey::Escape).handler.last_layout is None,
        spec_process_key(m, t, SpecKey::Escape).forward == Seq::<u8>::empty(),
        spec_process_key(m, t, SpecKey::Escape).out == last_clear(m.last_layout),
{
}

/// With the default bindings, Enter on a shown popup with a listed item
/// selected types that item in place of the word, runs the line, and hides
/// the popup.
pub proof fn law_enter_accepts_and_runs(m: HandlerModel, t: TermModel, i: usize)
    requires
        m.visible,
        m.keybindings == default_keybindings(),
        m.overlay.selected == Some(i),
        i < m.suggestions.len(),
    ensures
        spec_process_key(m, t, SpecKey::Enter).forward == Seq::new(
            spec_parse_context(buffer_of(t), t.buffer_cursor as int).current_word.len(),
            |j: int| 0x7Fu8,
        ) + encode_utf8(m.suggestions[i as int].text) + seq![0x0Du8],
        !spec_process_key(m, t, SpecKey::Enter).handler.visible,
{
    assert(spec_accept_bytes(m, t).push(0x0Du8) =~= spec_accept_bytes(m, t) + seq![0x0Du8]);
}

/// With the default bindings, Tab on a shown popup with a listed item
/// selected types that item in place of the word; a directory (text ending
/// in `/`) keeps the popup and asks at once for its entries, with the buffer
/// predicted, while anything else hides the popup.
pub proof fn law_tab_accepts(m: HandlerModel, t: TermModel, i: usize)
    requires
        m.visible,
        m.keybindings == default_keybindings(),
        m.overlay.selected == Some(i),
        i < m.suggestions.len(),
    ensures
        spec_process_key(m, t, SpecKey::Tab).forward == Seq::new(
            spec_parse_context(buffer_of(t), t.buffer_cursor as int).current_word.len(),
            |j: int| 0x7Fu8,
        ) + encode_utf8(m.suggestions[i as int].text),
        ({
            let text = m.suggestions[i as int].text;
            let (predicted, cursor) = spec_predicted(t, text);
            if text.len() > 0 && text.last() == '/' {
                &&& spec_process_key(m, t, SpecKey::Tab).handler.visible
                &&& spec_process_key(m, t, SpecKey::Tab).term.command_buffer == Some(predicted)
                &&& spec_process_key(m, t, SpecKey::Tab).query == Some(query_at(t, predicted, cursor as int))
            } else {
                !spec_process_key(m, t, SpecKey::Tab).handler.visible
            }
        }),
{
}

/// With the default bindings and no item selected, Tab and Enter on a shown
/// popup insert nothing: the popup is hidden and erased and the key goes to
/// the shell as typed.
pub proof fn law_unselected_accept_passes_through(m: HandlerModel, t: TermModel)
    requires
        m.visible,
        m.keybindings == default_keybindings(),
        m.overlay.selected is None,
    ensures
        spec_process_key(m, t, SpecKey::Tab).forward == seq![0x09u8],
        spec_process_key(m, t, SpecKey::Enter).forward == seq![0x0Du8],
        !spec_process_key(m, t, SpecKey::Tab).handler.visible,
        !spec_process_key(m, t, SpecKey::Enter).handler.visible,
        spec_process_key(m, t, SpecKey::Tab).out == last_clear(m.last_layout),
        spec_process_key(m, t, SpecKey::Enter).out == last_clear(m.last_layout),
{
}

/// With the default bindings, Ctrl+/ on a hidden popup asks at once for
/// suggestions for a non-empty buffer, and sends nothing to the shell.
pub proof fn law_ctrl_slash_triggers(m: HandlerModel, t: TermModel)
    requires
        !m.visible,
        m.keybindings == default_keybindings(),
        buffer_of(t).len() > 0,
    ensures
        spec_process_key(m, t, SpecKey::CtrlSlash).query == Some(
            query_at(t, buffer_of(t), t.buffer_cursor as int),
        ),
        spec_process_key(m, t, SpecKey::CtrlSlash).forward == Seq::<u8>::empty(),
{
}

/// Typing a character goes to the shell as typed; with the popup hidden it
/// asks for suggestions (at the next buffer report) exactly when it is a
/// trigger character or a request was already pending, and with the popup
/// shown it always asks, so the list follows the word.
pub proof fn law_typing_requests_query(m: HandlerModel, t: TermModel, c: char)
    requires
        SpecKey::Printable(c) != m.keybindings.trigger,
        m.visible ==> SpecKey::Printable(c) != m.keybindings.navigate_up
            && SpecKey::Printable(c) != m.keybindings.navigate_down
            && SpecKey::Printable(c) != m.keybindings.accept
            && SpecKey::Printable(c) != m.keybindings.accept_and_enter
            && SpecKey::Printable(c) != m.keybindings.dismiss,
    ensures
        spec_process_key(m, t, SpecKey::Printable(c)).forward == spec_key_bytes(SpecKey::Printable(c)),
        spec_process_key(m, t, SpecKey::Printable(c)).query is None,
        spec_process_key(m, t, SpecKey::Printable(c)).handler.trigger_requested == (m.visible
            || m.trigger_requested || m.trigger_chars.contains(c)),
{
}

/// Moving the selection never sends anything to the shell.
pub proof fn law_navigation_forwards_nothing(m: HandlerModel, t: TermModel, k: SpecKey)
    requires
        m.visible,
        k == m.keybindings.navigate_up || k == m.keybindings.navigate_down,
    ensures
        spec_process_key(m, t, k).forward == Seq::<u8>::empty(),
        spec_process_key(m, t, k).handler.visible,
{
}

} // verus!

verus! {

/// Keys that decode back from their own bytes: the named keys and printable
/// ASCII characters.
pub open spec fn round_trips(k: SpecKey) -> bool {
    match k {
        SpecKey::Tab | SpecKey::Enter | SpecKey::Escape | SpecKey::ArrowUp | SpecKey::ArrowDown
        | SpecKey::ArrowLeft | SpecKey::ArrowRight | SpecKey::CtrlSpace | SpecKey::CtrlSlash
        | SpecKey::Backspace => true,
        SpecKey::Printable(c) => 0x20 <= (c as u32) <= 0x7E,
        _ => false,
    }
}

/// Forwarding a key and decoding the forwarded bytes gives back that key.
pub proof fn law_key_bytes_round_trip(k: SpecKey)
    requires
        round_trips(k),
    ensures
        spec_parse_keys(spec_key_bytes(k)) == seq![k],
{
    let b = spec_key_bytes(k);
    if let SpecKey::Printable(c) = k {
        assert((c as u32 % 256) as u8 == c as u32);
        assert(((c as u32 % 256) as u8) as char == c);
    }
    assert(keys_from(b, b.len() as int) == Seq::<SpecKey>::empty());
    assert(spec_parse_keys(b) =~= seq![k]);
}

/// The bytes of keys forwarded one after another.
pub open spec fn keys_bytes(ks: Seq<SpecKey>) -> Seq<u8>
    decreases ks.len(),
{
    if ks.len() == 0 {
        Seq::empty()
    } else {
        spec_key_bytes(ks[0]) + keys_bytes(ks.drop_first())
    }
}

/// The key decoded at byte `i` is forwarded as it was typed: it is neither a
/// cursor position report (which is not forwarded) nor an arrow sent as
/// `ESC O x` (which is forwarded as `ESC [ x`).
pub open spec fn decodes_verbatim(buf: Seq<u8>, i: int) -> bool {
    &&& !(key_at(buf, i).0 is CursorPositionReport)
    &&& !(buf[i] == 0x1B && i + 2 < buf.len() && buf[i + 1] == 79 && arrow_of(buf[i + 2]) is Some)
}

/// Every key decoded from byte `i` on is forwarded as it was typed.
pub open spec fn all_verbatim_from(buf: Seq<u8>, i: int) -> bool
    decreases buf.len() - i,
{
    if i < 0 || i >= buf.len() {
        true
    } else if key_at(buf, i).1 <= 0 {
        false
    } else {
        decodes_verbatim(buf, i) && all_verbatim_from(buf, i + key_at(buf, i).1)
    }
}

/// A key decoded verbatim takes at least one byte, stays in the buffer, and
/// forwards exactly the bytes it was decoded from.
proof fn lemma_key_at_verbatim(buf: Seq<u8>, i: int)
    requires
        0 <= i < buf.len(),
        decodes_verbatim(buf, i),
    ensures
        0 < key_at(buf, i).1 <= buf.len() - i,
        spec_key_bytes(key_at(buf, i).0) == buf.subrange(i, i + key_at(buf, i).1),
{
    let len = buf.len() as int;
    let b = buf[i];
    let (k, n) = key_at(buf, i);
    if b == 0x1B && len - i > 2 && buf[i + 1] == 91 {
        lemma_csi_final_bounds(buf, i + 2);
        assert(spec_key_bytes(k) =~= buf.subrange(i, i + n));
    } else if 0x20 <= b <= 0x7E {
        assert(((b as char) as u32 % 256) as u8 == b);
        assert(spec_key_bytes(k) =~= buf.subrange(i, i + n));
    } else {
        assert(spec_key_bytes(k) =~= buf.subrange(i, i + n));
    }
}

/// Forwarding the keys decoded from byte `i` on gives back those bytes.
proof fn lemma_keys_bytes_from(buf: Seq<u8>, i: int)
    requires
        0 <= i <= buf.len(),
        all_verbatim_from(buf, i),
    ensures
        keys_bytes(keys_from(buf, i)) == buf.skip(i),
    decreases buf.len() - i,
{
    if i == buf.len() {
        assert(buf.skip(i) =~= Seq::<u8>::empty());
    } else {
        let (k, n) = key_at(buf, i);
        lemma_key_at_verbatim(buf, i);
        lemma_keys_bytes_from(buf, i + n);
        let ks = keys_from(buf, i);
        assert(ks == seq![k] + keys_from(buf, i + n));
        assert(ks[0] == k);
        assert(ks.drop_first() =~= keys_from(buf, i + n));
        assert(buf.skip(i) =~= buf.subrange(i, i + n) + buf.skip(i + n));
    }
}

/// Forwarding the decoded keys gives back every typed byte, once and in
/// order, when no key is a cursor position report or an `ESC O` arrow.
pub proof fn law_forwarding_keeps_bytes(buf: Seq<u8>)
    requires
        all_verbatim_from(buf, 0),
    ensures
        keys_bytes(spec_parse_keys(buf)) == buf,
{
    lemma_keys_bytes_from(buf, 0);
    assert(buf.skip(0) =~= buf);
}

} // verus!
