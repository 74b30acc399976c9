use ghost_complete::terminal::TerminalState;
use ghost_complete::vt::{parse_osc7_path, percent_decode};

/// Feeds the events of the `vte` parser to the terminal state.
struct Feed<'a>(&'a mut TerminalState);

impl vte::Perform for Feed<'_> {
    fn print(&mut self, c: char) {
        self.0.print(c);
    }

    fn execute(&mut self, byte: u8) {
        self.0.execute(byte);
    }

    fn csi_dispatch(&mut self, params: &vte::Params, intermediates: &[u8], _ignore: bool, action: char) {
        let params: Vec<Vec<u16>> = params.iter().map(|p| p.to_vec()).collect();
        self.0.csi_dispatch(&params, intermediates, action);
    }

    fn esc_dispatch(&mut self, intermediates: &[u8], _ignore: bool, byte: u8) {
        self.0.esc_dispatch(intermediates, byte);
    }

    fn osc_dispatch(&mut self, params: &[&[u8]], _bell_terminated: bool) {
        let params: Vec<Vec<u8>> = params.iter().map(|p| p.to_vec()).collect();
        self.0.osc_dispatch(&params);
    }
}

/// A VT parser driving a terminal state.
struct TerminalParser {
    parser: vte::Parser,
    state: TerminalState,
}

impl TerminalParser {
    fn new(rows: u16, cols: u16) -> Self {
        TerminalParser { parser: vte::Parser::new(), state: TerminalState::new(rows, cols) }
    }

    fn process_bytes(&mut self, bytes: &[u8]) {
        let mut feed = Feed(&mut self.state);
        self.parser.advance(&mut feed, bytes);
    }

    fn state(&self) -> &TerminalState {
        &self.state
    }

    fn state_mut(&mut self) -> &mut TerminalState {
        &mut self.state
    }
}

fn make_parser() -> TerminalParser {
    TerminalParser::new(24, 80)
}

// -- Basic cursor tracking --

#[test]
fn test_print_advances_cursor() {
    let mut p = make_parser();
    p.process_bytes(b"abc");
    assert_eq!(p.state().cursor_position(), (0, 3));
}

#[test]
fn test_line_wrap() {
    let mut p = TerminalParser::new(24, 5);
    p.process_bytes(b"abcde");
    // After 5 chars in a 5-col terminal, should wrap to next line
    assert_eq!(p.state().cursor_position(), (1, 0));
}

#[test]
fn test_cr_resets_col() {
    let mut p = make_parser();
    p.process_bytes(b"hello\r");
    assert_eq!(p.state().cursor_position(), (0, 0));
}

#[test]
fn test_lf_advances_row() {
    let mut p = make_parser();
    p.process_bytes(b"hello\n");
    assert_eq!(p.state().cursor_position(), (1, 5));
}

#[test]
fn performer_test_backspace() {
    let mut p = make_parser();
    p.process_bytes(b"abc\x08");
    assert_eq!(p.state().cursor_position(), (0, 2));
}

#[test]
fn test_backspace_saturates() {
    let mut p = make_parser();
    p.process_bytes(b"\x08\x08\x08");
    assert_eq!(p.state().cursor_position(), (0, 0));
}

#[test]
fn test_tab_stop() {
    let mut p = make_parser();
    p.process_bytes(b"ab\t");
    // col 2, next tab stop at 8
    assert_eq!(p.state().cursor_position(), (0, 8));
}

#[test]
fn test_tab_from_zero() {
    let mut p = make_parser();
    p.process_bytes(b"\t");
    assert_eq!(p.state().cursor_position(), (0, 8));
}

// -- CSI cursor movement --

#[test]
fn test_csi_cup() {
    let mut p = make_parser();
    // ESC[5;10H — cursor to row 5, col 10 (1-indexed)
    p.process_bytes(b"\x1b[5;10H");
    assert_eq!(p.state().cursor_position(), (4, 9));
}

#[test]
fn test_csi_cup_defaults() {
    let mut p = make_parser();
    p.process_bytes(b"hello"); // move cursor
    p.process_bytes(b"\x1b[H"); // CUP with no params → (1,1) → (0,0)
    assert_eq!(p.state().cursor_position(), (0, 0));
}

#[test]
fn test_csi_cursor_up() {
    let mut p = make_parser();
    p.process_bytes(b"\x1b[10;1H"); // go to row 10
    p.process_bytes(b"\x1b[3A"); // up 3
    assert_eq!(p.state().cursor_position(), (6, 0));
}

#[test]
fn test_csi_cursor_down() {
    let mut p = make_parser();
    p.process_bytes(b"\x1b[2B"); // down 2
    assert_eq!(p.state().cursor_position(), (2, 0));
}

#[test]
fn test_csi_cursor_forward() {
    let mut p = make_parser();
    p.process_bytes(b"\x1b[5C"); // forward 5
    assert_eq!(p.state().cursor_position(), (0, 5));
}

#[test]
fn test_csi_cursor_back() {
    let mut p = make_parser();
    p.process_bytes(b"\x1b[20G"); // col 20 (1-indexed)
    p.process_bytes(b"\x1b[3D"); // back 3
    assert_eq!(p.state().cursor_position(), (0, 16));
}

#[test]
fn test_csi_cha() {
    let mut p = make_parser();
    p.process_bytes(b"\x1b[15G"); // CHA to col 15 (1-indexed)
    assert_eq!(p.state().cursor_position(), (0, 14));
}

#[test]
fn test_csi_vpa() {
    let mut p = make_parser();
    p.process_bytes(b"\x1b[10d"); // VPA to row 10 (1-indexed)
    assert_eq!(p.state().cursor_position(), (9, 0));
}

#[test]
fn test_csi_cnl() {
    let mut p = make_parser();
    p.process_bytes(b"hello"); // col 5
    p.process_bytes(b"\x1b[2E"); // CNL: down 2, col 0
    assert_eq!(p.state().cursor_position(), (2, 0));
}

#[test]
fn test_csi_cpl() {
    let mut p = make_parser();
    p.process_bytes(b"\x1b[10;15H"); // row 10, col 15
    p.process_bytes(b"\x1b[3F"); // CPL: up 3, col 0
    assert_eq!(p.state().cursor_position(), (6, 0));
}

#[test]
fn test_csi_ed_clear_screen() {
    let mut p = make_parser();
    p.process_bytes(b"\x1b[10;15H"); // move cursor
    p.process_bytes(b"\x1b[2J"); // ED mode 2: clear screen
    assert_eq!(p.state().cursor_position(), (0, 0));
}

// -- Cursor save/restore --

#[test]
fn test_decsc_decrc() {
    let mut p = make_parser();
    p.process_bytes(b"\x1b[5;10H"); // move to (4, 9)
    p.process_bytes(b"\x1b7"); // DECSC: save
    p.process_bytes(b"\x1b[1;1H"); // move to (0, 0)
    assert_eq!(p.state().cursor_position(), (0, 0));
    p.process_bytes(b"\x1b8"); // DECRC: restore
    assert_eq!(p.state().cursor_position(), (4, 9));
}

#[test]
fn test_reverse_index() {
    let mut p = make_parser();
    p.process_bytes(b"\x1b[5;1H"); // row 5
    p.process_bytes(b"\x1bM"); // RI: up 1
    assert_eq!(p.state().cursor_position(), (3, 0));
}

// -- OSC sequences --

#[test]
fn test_osc133_prompt_a() {
    let mut p = make_parser();
    p.process_bytes(b"\x1b[3;1H"); // row 3
    p.process_bytes(b"\x1b]133;A\x07"); // OSC 133;A (BEL terminated)
    assert_eq!(p.state().prompt_row(), Some(2));
    assert!(p.state().in_prompt());
}

#[test]
fn test_osc133_prompt_c() {
    let mut p = make_parser();
    p.process_bytes(b"\x1b]133;A\x07"); // start prompt
    assert!(p.state().in_prompt());
    p.process_bytes(b"\x1b]133;C\x07"); // command executing
    assert!(!p.state().in_prompt());
}

// -- OSC 7770 buffer reporting --

#[test]
fn test_osc7770_buffer() {
    let mut p = make_parser();
    p.process_bytes(b"\x1b]7770;5;hello\x07");
    assert_eq!(p.state().command_buffer(), Some("hello"));
    assert_eq!(p.state().buffer_cursor(), 5);
}

#[test]
fn test_osc7770_empty() {
    let mut p = make_parser();
    p.process_bytes(b"\x1b]7770;0;\x07");
    assert_eq!(p.state().command_buffer(), Some(""));
    assert_eq!(p.state().buffer_cursor(), 0);
}

#[test]
fn test_osc7770_with_spaces() {
    let mut p = make_parser();
    p.process_bytes(b"\x1b]7770;4;echo hello world\x07");
    assert_eq!(p.state().command_buffer(), Some("echo hello world"));
    assert_eq!(p.state().buffer_cursor(), 4);
}

#[test]
fn test_buffer_cleared_on_command_exec() {
    let mut p = make_parser();
    p.process_bytes(b"\x1b]7770;3;git\x07");
    assert_eq!(p.state().command_buffer(), Some("git"));
    p.process_bytes(b"\x1b]133;C\x07");
    assert_eq!(p.state().command_buffer(), None);
    assert_eq!(p.state().buffer_cursor(), 0);
}

// -- OSC 7 CWD --

#[test]
fn test_osc7_cwd() {
    let mut p = make_parser();
    p.process_bytes(b"\x1b]7;file://localhost/Users/test\x07");
    assert_eq!(p.state().cwd().map(|s| s.as_str()), Some("/Users/test"));
}

#[test]
fn test_osc7_cwd_with_spaces() {
    let mut p = make_parser();
    p.process_bytes(b"\x1b]7;file://localhost/Users/test%20dir/sub\x07");
    assert_eq!(p.state().cwd().map(|s| s.as_str()), Some("/Users/test dir/sub"));
}

// -- Screen resize --

#[test]
fn test_update_dimensions() {
    let mut p = make_parser();
    p.process_bytes(b"\x1b[24;80H"); // bottom-right corner (0-indexed: 23, 79)
    assert_eq!(p.state().cursor_position(), (23, 79));

    // Shrink screen — cursor should be clamped
    p.state_mut().update_dimensions(10, 40);
    assert_eq!(p.state().cursor_position(), (9, 39));
    assert_eq!(p.state().screen_dimensions(), (10, 40));
}

// -- Helper unit tests --

#[test]
fn test_parse_osc7_path() {
    assert_eq!(
        parse_osc7_path(b"file://hostname/some/path"),
        Some("/some/path".to_string())
    );
}

#[test]
fn test_parse_osc7_path_percent_encoding() {
    assert_eq!(
        parse_osc7_path(b"file://host/path%20with%20spaces"),
        Some("/path with spaces".to_string())
    );
}

#[test]
fn test_parse_osc7_path_invalid() {
    assert_eq!(parse_osc7_path(b"not-a-file-uri"), None);
}

#[test]
fn test_osc7770_sets_buffer_dirty() {
    let mut p = make_parser();
    assert!(!p.state_mut().take_buffer_dirty());
    p.process_bytes(b"\x1b]7770;3;git\x07");
    assert!(p.state_mut().take_buffer_dirty());
}

#[test]
fn test_take_buffer_dirty_clears_flag() {
    let mut p = make_parser();
    p.process_bytes(b"\x1b]7770;3;git\x07");
    assert!(p.state_mut().take_buffer_dirty());
    assert!(!p.state_mut().take_buffer_dirty());
}

// -- OSC 7 cwd_dirty flag --

#[test]
fn test_osc7_sets_cwd_dirty() {
    let mut p = make_parser();
    assert!(!p.state_mut().take_cwd_dirty());
    p.process_bytes(b"\x1b]7;file://localhost/Users/test\x07");
    assert!(p.state_mut().take_cwd_dirty());
}

#[test]
fn test_take_cwd_dirty_clears_flag() {
    let mut p = make_parser();
    p.process_bytes(b"\x1b]7;file://localhost/Users/test\x07");
    assert!(p.state_mut().take_cwd_dirty());
    assert!(!p.state_mut().take_cwd_dirty());
}

#[test]
fn test_osc7_same_path_not_dirty() {
    let mut p = make_parser();
    p.process_bytes(b"\x1b]7;file://localhost/Users/test\x07");
    assert!(p.state_mut().take_cwd_dirty());
    // Same path again — should NOT set dirty
    p.process_bytes(b"\x1b]7;file://localhost/Users/test\x07");
    assert!(!p.state_mut().take_cwd_dirty());
}

#[test]
fn test_percent_decode() {
    assert_eq!(percent_decode("/hello%20world"), "/hello world");
    assert_eq!(percent_decode("/no/encoding"), "/no/encoding");
    assert_eq!(percent_decode("%2F"), "/");
}

#[test]
fn line_feed_stops_at_bottom_row() {
    let mut p = make_parser();
    p.state_mut().set_cursor(23, 0);
    p.process_bytes(b"\n");
    assert_eq!(p.state().cursor_position(), (23, 0));
}

#[test]
fn wrapping_past_bottom_stays_on_screen() {
    let mut p = TerminalParser::new(2, 4);
    p.process_bytes(b"abcdefghijkl");
    let (row, _) = p.state().cursor_position();
    assert_eq!(row, 1);
}

#[test]
fn scroll_sequences_leave_cursor() {
    let mut p = make_parser();
    p.state_mut().set_cursor(10, 0);
    p.process_bytes(b"\x1b[3S");
    assert_eq!(p.state().cursor_position(), (10, 0));
    p.process_bytes(b"\x1b[2T");
    assert_eq!(p.state().cursor_position(), (10, 0));
}

#[test]
fn csi_save_restore_cursor() {
    let mut p = make_parser();
    p.process_bytes(b"\x1b[5;10H\x1b[s\x1b[1;1H");
    assert_eq!(p.state().cursor_position(), (0, 0));
    p.process_bytes(b"\x1b[u");
    assert_eq!(p.state().cursor_position(), (4, 9));
}

#[test]
fn percent_decode_undoes_encoding() {
    assert_eq!(percent_decode("/Users/me/My%20Docs/100%25%2Fdone"), "/Users/me/My Docs/100%/done");
    assert_eq!(percent_decode("%7e%7E"), "~~");
}

#[test]
fn osc7770_buffer_keeps_semicolons() {
    let mut p = make_parser();
    p.process_bytes(b"\x1b]7770;6;make; ./run\x07");
    assert_eq!(p.state().command_buffer(), Some("make; ./run"));
    assert_eq!(p.state().buffer_cursor(), 6);
}

#[test]
fn prompt_start_requests_cursor_sync() {
    let mut p = make_parser();
    assert!(!p.state_mut().take_cursor_sync_requested());
    p.process_bytes(b"\x1b]133;A\x07");
    assert!(p.state_mut().take_cursor_sync_requested());
    assert!(!p.state_mut().take_cursor_sync_requested());
}

#[test]
fn osc7_path_utf8_checked() {
    assert!(parse_osc7_path("file://host/Users/zo\u{17c}/\u{1F600}".as_bytes()).is_some());
    assert_eq!(parse_osc7_path(b"file://host/a\xff"), None);
    assert_eq!(parse_osc7_path(b"file://host/a\xc0\xaf"), None);
    assert_eq!(parse_osc7_path(b"file://host/a\xed\xa0\x80"), None);
    assert_eq!(parse_osc7_path(b"file://host/a\xe2\x82"), None);
}
