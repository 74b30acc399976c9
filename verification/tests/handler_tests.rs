use ghost_complete::config::KeybindingsConfig;
use ghost_complete::engine::{Fetched, SpecStore, SuggestionEngine};
use ghost_complete::handler::{
    key_to_bytes, parse_key_name, BufferReportAction, should_trigger_on_char, InputHandler, Keybindings,
};
use ghost_complete::history::HistoryProvider;
use ghost_complete::input::KeyEvent;
use ghost_complete::suggestion::{Suggestion, SuggestionKind, SuggestionSource};
use ghost_complete::terminal::TerminalState;

fn make_handler() -> InputHandler {
    let engine = SuggestionEngine::new(SpecStore::new(), HistoryProvider::from_entries(vec![]));
    InputHandler::new(engine)
}

fn suggestion(text: &str, kind: SuggestionKind, source: SuggestionSource) -> Suggestion {
    Suggestion { text: text.to_string(), description: None, kind, source, score: 0 }
}

/// A handler showing `items` (offered by the filesystem) for the buffer
/// `buffer`, with the cursor at `cursor`.
fn shown_handler(buffer: &str, cursor: usize, items: Vec<Suggestion>) -> (InputHandler, TerminalState) {
    let mut handler = make_handler();
    let mut term = TerminalState::new(24, 80);
    term.set_command_buffer(buffer.to_string(), cursor);
    term.set_cursor(5, 0);
    let mut out = Vec::new();
    let query = handler.trigger(&term, &mut out).expect("a query for a non-empty buffer");
    let fetched = Fetched { commands: items.clone(), filesystem: items, git: vec![] };
    handler.finish_query(&query, &fetched, &mut out);
    assert!(handler.is_visible());
    (handler, term)
}

#[test]
fn test_should_trigger_on_space() {
    assert!(should_trigger_on_char(' '));
}

#[test]
fn test_should_trigger_on_slash() {
    assert!(should_trigger_on_char('/'));
}

#[test]
fn test_should_trigger_on_dash() {
    assert!(should_trigger_on_char('-'));
}

#[test]
fn test_should_trigger_on_dot() {
    assert!(should_trigger_on_char('.'));
}

#[test]
fn test_should_not_trigger_on_alpha() {
    assert!(!should_trigger_on_char('a'));
    assert!(!should_trigger_on_char('Z'));
}

#[test]
fn test_key_to_bytes_tab() {
    assert_eq!(key_to_bytes(&KeyEvent::Tab), vec![0x09]);
}

#[test]
fn test_key_to_bytes_arrow_up() {
    assert_eq!(key_to_bytes(&KeyEvent::ArrowUp), vec![0x1B, b'[', b'A']);
}

#[test]
fn test_key_to_bytes_printable() {
    assert_eq!(key_to_bytes(&KeyEvent::Printable('x')), vec![b'x']);
}

#[test]
fn test_key_to_bytes_raw() {
    let raw = vec![0x1B, b'[', b'1', b';', b'5', b'C'];
    assert_eq!(key_to_bytes(&KeyEvent::Raw(raw.clone())), raw);
}

#[test]
fn test_key_to_bytes_roundtrip() {
    let keys = vec![
        KeyEvent::Tab,
        KeyEvent::Enter,
        KeyEvent::Escape,
        KeyEvent::ArrowUp,
        KeyEvent::ArrowDown,
        KeyEvent::ArrowLeft,
        KeyEvent::ArrowRight,
        KeyEvent::CtrlSpace,
        KeyEvent::CtrlSlash,
        KeyEvent::Backspace,
        KeyEvent::Printable('a'),
        KeyEvent::Raw(vec![0xFF]),
    ];
    for key in keys {
        let bytes = key_to_bytes(&key);
        assert!(!bytes.is_empty(), "key_to_bytes({:?}) was empty", key);
    }
}

#[test]
fn test_dismiss_clears_state() {
    let (mut handler, _term) = shown_handler(
        "t",
        1,
        vec![suggestion("test", SuggestionKind::Command, SuggestionSource::Commands)],
    );
    assert!(!handler.suggestions().is_empty());
    assert!(handler.last_layout().is_some());

    let mut stdout_buf = Vec::new();
    handler.dismiss(&mut stdout_buf);

    assert!(!handler.is_visible());
    assert!(handler.suggestions().is_empty());
    assert!(handler.last_layout().is_none());
    assert!(!stdout_buf.is_empty());
}

#[test]
fn test_trigger_requested_on_space() {
    let mut handler = make_handler();
    let mut term = TerminalState::new(24, 80);
    let mut buf = Vec::new();
    handler.process_key(&KeyEvent::Printable(' '), &mut term, &mut buf);
    assert!(handler.has_pending_trigger());
}

#[test]
fn test_trigger_not_requested_on_alpha() {
    let mut handler = make_handler();
    let mut term = TerminalState::new(24, 80);
    let mut buf = Vec::new();
    handler.process_key(&KeyEvent::Printable('a'), &mut term, &mut buf);
    assert!(!handler.has_pending_trigger());
}

#[test]
fn test_ctrl_space_triggers_immediately() {
    let kb = Keybindings { trigger: KeyEvent::CtrlSpace, ..Keybindings::default() };
    let mut handler = make_handler().with_keybindings(kb);
    let mut term = TerminalState::new(24, 80);
    let mut buf = Vec::new();
    handler.process_key(&KeyEvent::CtrlSpace, &mut term, &mut buf);
    // CtrlSpace triggers immediately — does NOT set trigger_requested
    assert!(!handler.has_pending_trigger());
}

#[test]
fn test_ctrl_slash_triggers_immediately() {
    let mut handler = make_handler();
    let mut term = TerminalState::new(24, 80);
    let mut buf = Vec::new();
    handler.process_key(&KeyEvent::CtrlSlash, &mut term, &mut buf);
    // CtrlSlash is the default trigger — fires immediately
    assert!(!handler.has_pending_trigger());
}

#[test]
fn test_handler_starts_not_visible() {
    let handler = make_handler();
    assert!(!handler.is_visible());
    assert!(!handler.has_pending_trigger());
}

#[test]
fn test_tab_accept_directory_predicts_buffer() {
    let (mut handler, mut term) = shown_handler(
        "cd ",
        3,
        vec![suggestion("Desktop/", SuggestionKind::Directory, SuggestionSource::Filesystem)],
    );
    let mut buf = Vec::new();
    // Select the first item.
    handler.process_key(&KeyEvent::ArrowDown, &mut term, &mut buf);
    assert_eq!(handler.overlay().selected, Some(0));

    let outcome = handler.process_key(&KeyEvent::Tab, &mut term, &mut buf);

    // Should NOT use deferred trigger — triggers immediately
    assert!(!handler.has_pending_trigger(), "directory Tab should trigger immediately, not defer");
    assert!(outcome.query.is_some());
    // Parser buffer should be updated to predicted state
    assert_eq!(term.command_buffer(), Some("cd Desktop/"));
    assert_eq!(term.buffer_cursor(), 11);
}

#[test]
fn test_tab_accept_file_dismisses() {
    let (mut handler, mut term) = shown_handler(
        "cat ",
        4,
        vec![suggestion("README.md", SuggestionKind::FilePath, SuggestionSource::Filesystem)],
    );
    let mut buf = Vec::new();
    handler.process_key(&KeyEvent::ArrowDown, &mut term, &mut buf);
    handler.process_key(&KeyEvent::Tab, &mut term, &mut buf);
    assert!(!handler.is_visible(), "popup should dismiss after accepting a file");
}

#[test]
fn test_custom_trigger_chars() {
    let mut handler = make_handler().with_trigger_chars(&['@', '#']);
    let mut term = TerminalState::new(24, 80);
    let mut buf = Vec::new();

    // '@' should trigger with custom config
    handler.process_key(&KeyEvent::Printable('@'), &mut term, &mut buf);
    assert!(handler.has_pending_trigger());
    handler.clear_trigger_request();

    // Space should NOT trigger with custom config (not in set)
    handler.process_key(&KeyEvent::Printable(' '), &mut term, &mut buf);
    assert!(!handler.has_pending_trigger());
}

#[test]
fn test_enter_no_selection_forwards_enter() {
    let (mut handler, mut term) = shown_handler(
        "t",
        1,
        vec![suggestion("test", SuggestionKind::Command, SuggestionSource::Commands)],
    );
    assert_eq!(handler.overlay().selected, None);
    let mut buf = Vec::new();
    let result = handler.process_key(&KeyEvent::Enter, &mut term, &mut buf);

    assert_eq!(result.forward, vec![0x0D], "should forward Enter when nothing selected");
    assert!(!handler.is_visible(), "popup should be dismissed");
}

#[test]
fn test_tab_no_selection_forwards_tab() {
    let (mut handler, mut term) = shown_handler(
        "t",
        1,
        vec![suggestion("test", SuggestionKind::Command, SuggestionSource::Commands)],
    );
    let mut buf = Vec::new();
    let result = handler.process_key(&KeyEvent::Tab, &mut term, &mut buf);

    assert_eq!(result.forward, vec![0x09], "should forward Tab when nothing selected");
    assert!(!handler.is_visible(), "popup should be dismissed");
}

#[test]
fn test_parse_key_name_all_supported() {
    assert_eq!(parse_key_name("tab").unwrap(), KeyEvent::Tab);
    assert_eq!(parse_key_name("enter").unwrap(), KeyEvent::Enter);
    assert_eq!(parse_key_name("escape").unwrap(), KeyEvent::Escape);
    assert_eq!(parse_key_name("backspace").unwrap(), KeyEvent::Backspace);
    assert_eq!(parse_key_name("ctrl+space").unwrap(), KeyEvent::CtrlSpace);
    assert_eq!(parse_key_name("ctrl+/").unwrap(), KeyEvent::CtrlSlash);
    assert_eq!(parse_key_name("arrow_up").unwrap(), KeyEvent::ArrowUp);
    assert_eq!(parse_key_name("arrow_down").unwrap(), KeyEvent::ArrowDown);
    assert_eq!(parse_key_name("arrow_left").unwrap(), KeyEvent::ArrowLeft);
    assert_eq!(parse_key_name("arrow_right").unwrap(), KeyEvent::ArrowRight);
}

#[test]
fn test_parse_key_name_case_insensitive() {
    assert_eq!(parse_key_name("Tab").unwrap(), KeyEvent::Tab);
    assert_eq!(parse_key_name("TAB").unwrap(), KeyEvent::Tab);
    assert_eq!(parse_key_name("CTRL+SPACE").unwrap(), KeyEvent::CtrlSpace);
    assert_eq!(parse_key_name("CTRL+/").unwrap(), KeyEvent::CtrlSlash);
    assert_eq!(parse_key_name("Arrow_Up").unwrap(), KeyEvent::ArrowUp);
    assert_eq!(parse_key_name("ESCAPE").unwrap(), KeyEvent::Escape);
}

#[test]
fn test_parse_key_name_trims_whitespace() {
    assert_eq!(parse_key_name("  tab  ").unwrap(), KeyEvent::Tab);
    assert_eq!(parse_key_name(" ctrl+space ").unwrap(), KeyEvent::CtrlSpace);
}

#[test]
fn test_parse_key_name_unknown_errors() {
    assert!(parse_key_name("f1").is_err());
    assert!(parse_key_name("ctrl+c").is_err());
    assert!(parse_key_name("").is_err());
    assert!(parse_key_name("banana").is_err());
}

#[test]
fn test_keybindings_from_default_config() {
    let config = KeybindingsConfig::default();
    let kb = Keybindings::from_config(&config).unwrap();
    assert_eq!(kb, Keybindings::default());
}

#[test]
fn test_keybindings_from_custom_config() {
    let config = KeybindingsConfig {
        accept: "enter".to_string(),
        accept_and_enter: "tab".to_string(),
        dismiss: "backspace".to_string(),
        navigate_up: "ctrl+space".to_string(),
        navigate_down: "arrow_right".to_string(),
        trigger: "tab".to_string(),
    };
    let kb = Keybindings::from_config(&config).unwrap();
    assert_eq!(kb.accept, KeyEvent::Enter);
    assert_eq!(kb.accept_and_enter, KeyEvent::Tab);
    assert_eq!(kb.dismiss, KeyEvent::Backspace);
    assert_eq!(kb.navigate_up, KeyEvent::CtrlSpace);
    assert_eq!(kb.navigate_down, KeyEvent::ArrowRight);
    assert_eq!(kb.trigger, KeyEvent::Tab);
}

#[test]
fn test_keybindings_from_config_invalid_key() {
    let config = KeybindingsConfig { accept: "nonexistent".to_string(), ..KeybindingsConfig::default() };
    assert!(Keybindings::from_config(&config).is_err());
}

#[test]
fn test_custom_keybinding_trigger() {
    let kb = Keybindings {
        trigger: KeyEvent::Tab, // Tab triggers instead of Ctrl+Space
        ..Keybindings::default()
    };
    let mut handler = make_handler().with_keybindings(kb);
    let mut term = TerminalState::new(24, 80);
    let mut buf = Vec::new();

    // Tab should now act as trigger when popup is hidden
    handler.process_key(&KeyEvent::Tab, &mut term, &mut buf);
    assert!(!handler.has_pending_trigger());

    // CtrlSpace should pass through as raw bytes since it's no longer trigger
    let result = handler.process_key(&KeyEvent::CtrlSpace, &mut term, &mut buf);
    assert_eq!(result.forward, vec![0x00]);
}

#[test]
fn escape_dismisses_and_forwards_nothing() {
    let (mut handler, mut term) = shown_handler(
        "t",
        1,
        vec![suggestion("test", SuggestionKind::Command, SuggestionSource::Commands)],
    );
    let mut buf = Vec::new();
    let outcome = handler.process_key(&KeyEvent::Escape, &mut term, &mut buf);
    assert!(outcome.forward.is_empty());
    assert!(outcome.query.is_none());
    assert!(!handler.is_visible());
    assert!(!buf.is_empty());
}

#[test]
fn ctrl_slash_asks_for_buffer_suggestions() {
    let mut handler = make_handler();
    let mut term = TerminalState::new(24, 80);
    term.set_command_buffer("git ch".to_string(), 6);
    let mut buf = Vec::new();
    let outcome = handler.process_key(&KeyEvent::CtrlSlash, &mut term, &mut buf);
    assert!(outcome.forward.is_empty());
    let query = outcome.query.expect("a query");
    assert_eq!(query.ctx.command.as_deref(), Some("git"));
    assert_eq!(query.ctx.current_word, "ch");
    assert_eq!(query.cwd, ".");
}

#[test]
fn enter_with_selection_types_and_runs() {
    let (mut handler, mut term) = shown_handler(
        "gi",
        2,
        vec![suggestion("git", SuggestionKind::Command, SuggestionSource::Commands)],
    );
    let mut buf = Vec::new();
    handler.process_key(&KeyEvent::ArrowDown, &mut term, &mut buf);
    let outcome = handler.process_key(&KeyEvent::Enter, &mut term, &mut buf);
    assert_eq!(outcome.forward, vec![0x7F, 0x7F, b'g', b'i', b't', 0x0D]);
    assert!(!handler.is_visible());
}

#[test]
fn hidden_keys_pass_through() {
    let mut handler = make_handler();
    let mut term = TerminalState::new(24, 80);
    let mut buf = Vec::new();
    for key in [KeyEvent::Tab, KeyEvent::ArrowUp, KeyEvent::Printable('q'), KeyEvent::Raw(vec![1, 2])] {
        let outcome = handler.process_key(&key, &mut term, &mut buf);
        assert_eq!(outcome.forward, key_to_bytes(&key));
        assert!(outcome.query.is_none());
    }
    assert!(buf.is_empty());
}

#[test]
fn empty_buffer_trigger_hides_popup() {
    let (mut handler, _term) = shown_handler(
        "t",
        1,
        vec![suggestion("test", SuggestionKind::Command, SuggestionSource::Commands)],
    );
    let empty = TerminalState::new(24, 80);
    let mut buf = Vec::new();
    assert!(handler.trigger(&empty, &mut buf).is_none());
    assert!(!handler.is_visible());
}

#[test]
fn parse_key_name_space_and_letters() {
    assert_eq!(parse_key_name("space").unwrap(), KeyEvent::Printable(' '));
    assert_eq!(parse_key_name("a").unwrap(), KeyEvent::Printable('a'));
    assert_eq!(parse_key_name("Z").unwrap(), KeyEvent::Printable('z'));
    assert!(parse_key_name("1").is_err());
}

#[test]
fn buffer_report_answers_pending_trigger_or_debounces() {
    let mut handler = make_handler();
    let mut term = TerminalState::new(24, 80);
    let mut buf = Vec::new();
    handler.process_key(&KeyEvent::Printable(' '), &mut term, &mut buf);
    assert!(handler.has_pending_trigger());
    assert_eq!(handler.on_buffer_report(true), BufferReportAction::QueryNow);
    assert!(!handler.has_pending_trigger());
    assert_eq!(handler.on_buffer_report(true), BufferReportAction::RestartDebounce);
    assert_eq!(handler.on_buffer_report(false), BufferReportAction::Nothing);
}
