use ghost_complete::input::{parse_keys, KeyEvent};

#[test]
fn test_printable_chars() {
    let events = parse_keys(b"abc");
    assert_eq!(
        events,
        vec![
            KeyEvent::Printable('a'),
            KeyEvent::Printable('b'),
            KeyEvent::Printable('c'),
        ]
    );
}

#[test]
fn test_tab() {
    let events = parse_keys(b"\x09");
    assert_eq!(events, vec![KeyEvent::Tab]);
}

#[test]
fn test_enter() {
    let events = parse_keys(b"\x0D");
    assert_eq!(events, vec![KeyEvent::Enter]);
}

#[test]
fn input_test_backspace() {
    let events = parse_keys(b"\x7F");
    assert_eq!(events, vec![KeyEvent::Backspace]);
}

#[test]
fn test_ctrl_space() {
    let events = parse_keys(b"\x00");
    assert_eq!(events, vec![KeyEvent::CtrlSpace]);
}

#[test]
fn test_arrow_keys_csi() {
    assert_eq!(parse_keys(b"\x1B[A"), vec![KeyEvent::ArrowUp]);
    assert_eq!(parse_keys(b"\x1B[B"), vec![KeyEvent::ArrowDown]);
    assert_eq!(parse_keys(b"\x1B[C"), vec![KeyEvent::ArrowRight]);
    assert_eq!(parse_keys(b"\x1B[D"), vec![KeyEvent::ArrowLeft]);
}

#[test]
fn test_arrow_keys_ss3() {
    assert_eq!(parse_keys(b"\x1BOA"), vec![KeyEvent::ArrowUp]);
    assert_eq!(parse_keys(b"\x1BOB"), vec![KeyEvent::ArrowDown]);
}

#[test]
fn test_standalone_escape() {
    let events = parse_keys(b"\x1B");
    assert_eq!(events, vec![KeyEvent::Escape]);
}

#[test]
fn test_unknown_csi_passthrough() {
    // e.g. ESC [ 1 ; 5 C (Ctrl+Right in some terminals)
    let raw = b"\x1B[1;5C";
    let events = parse_keys(raw);
    assert_eq!(events.len(), 1);
    match &events[0] {
        KeyEvent::Raw(bytes) => assert_eq!(bytes, raw),
        other => panic!("expected Raw, got {:?}", other),
    }
}

#[test]
fn test_mixed_input() {
    // "a" then ArrowUp then "b"
    let events = parse_keys(b"a\x1B[Ab");
    assert_eq!(
        events,
        vec![
            KeyEvent::Printable('a'),
            KeyEvent::ArrowUp,
            KeyEvent::Printable('b'),
        ]
    );
}

#[test]
fn input_test_empty_input() {
    let events = parse_keys(b"");
    assert!(events.is_empty());
}

#[test]
fn test_cpr_response_parsed() {
    // CSI 15;1 R — cursor at row 15, col 1
    let events = parse_keys(b"\x1b[15;1R");
    assert_eq!(events, vec![KeyEvent::CursorPositionReport(15, 1)]);
}

#[test]
fn test_cpr_response_large_values() {
    let events = parse_keys(b"\x1b[100;200R");
    assert_eq!(events, vec![KeyEvent::CursorPositionReport(100, 200)]);
}

#[test]
fn test_cpr_mixed_with_typing() {
    // User types 'a', then CPR arrives, then user types 'b'
    let events = parse_keys(b"a\x1b[5;10Rb");
    assert_eq!(
        events,
        vec![
            KeyEvent::Printable('a'),
            KeyEvent::CursorPositionReport(5, 10),
            KeyEvent::Printable('b'),
        ]
    );
}

#[test]
fn test_alt_key_passthrough() {
    // Alt+a = ESC a — should be Raw
    let events = parse_keys(b"\x1Ba");
    assert_eq!(events.len(), 1);
    match &events[0] {
        KeyEvent::Raw(bytes) => assert_eq!(bytes, b"\x1Ba"),
        other => panic!("expected Raw, got {:?}", other),
    }
}

#[test]
fn cpr_out_of_range_is_raw() {
    let events = parse_keys(b"\x1b[70000;1R");
    assert_eq!(events, vec![KeyEvent::Raw(b"\x1b[70000;1R".to_vec())]);
}

#[test]
fn incomplete_csi_passes_through() {
    assert_eq!(parse_keys(b"\x1b[12"), vec![KeyEvent::Raw(b"\x1b[12".to_vec())]);
    assert_eq!(parse_keys(b"\x1b["), vec![KeyEvent::Raw(b"\x1b[".to_vec())]);
}

#[test]
fn control_byte_is_raw() {
    assert_eq!(parse_keys(b"\x01"), vec![KeyEvent::Raw(vec![0x01])]);
}

#[test]
fn unit_separator_is_ctrl_slash() {
    assert_eq!(parse_keys(b"\x1f"), vec![KeyEvent::CtrlSlash]);
}

#[test]
fn forwarding_decoded_keys_gives_back_bytes() {
    let buf: &[u8] = b"ls -la\t\x1b[A\x1b[1;5C\x7f\x1f\x00\r\x01\x1bx\x1b";
    let bytes: Vec<u8> = parse_keys(buf).iter().flat_map(|k| ghost_complete::handler::key_to_bytes(k)).collect();
    assert_eq!(bytes, buf.to_vec());
}
