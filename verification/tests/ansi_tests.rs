use ghost_complete::ansi::{begin_sync, end_sync, move_to, reset, restore_cursor, reverse_video, save_cursor};

#[test]
fn test_begin_sync() {
    let mut buf = Vec::new();
    begin_sync(&mut buf);
    assert_eq!(buf, b"\x1b[?2026h");
}

#[test]
fn test_end_sync() {
    let mut buf = Vec::new();
    end_sync(&mut buf);
    assert_eq!(buf, b"\x1b[?2026l");
}

#[test]
fn test_move_to_one_indexed() {
    let mut buf = Vec::new();
    move_to(&mut buf, 0, 0);
    assert_eq!(String::from_utf8_lossy(&buf), "\x1b[1;1H");
}

#[test]
fn test_move_to_arbitrary() {
    let mut buf = Vec::new();
    move_to(&mut buf, 5, 10);
    assert_eq!(String::from_utf8_lossy(&buf), "\x1b[6;11H");
}

#[test]
fn test_save_restore_cursor() {
    let mut buf = Vec::new();
    save_cursor(&mut buf);
    assert_eq!(buf, b"\x1b7");

    let mut buf2 = Vec::new();
    restore_cursor(&mut buf2);
    assert_eq!(buf2, b"\x1b8");
}

#[test]
fn test_reverse_video() {
    let mut buf = Vec::new();
    reverse_video(&mut buf);
    assert_eq!(buf, b"\x1b[7m");
}

#[test]
fn ansi_test_reset() {
    let mut buf = Vec::new();
    reset(&mut buf);
    assert_eq!(buf, b"\x1b[0m");
}
