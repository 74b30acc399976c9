//! ANSI escape sequences used to draw the popup.

use vstd::prelude::*;

verus! {

/// Appends `bytes` to `buf`.
pub fn append_bytes(buf: &mut Vec<u8>, bytes: &[u8])
    ensures
        final(buf)@ == old(buf)@ + bytes@,
{
    let n = bytes.len();
    for i in 0..n
        invariant
            n == bytes@.len(),
            buf@ == old(buf)@ + bytes@.take(i as int),
    {
        buf.push(bytes[i]);
        assert(bytes@.take(i + 1) =~= bytes@.take(i as int).push(bytes@[i as int]));
        assert(old(buf)@ + bytes@.take(i + 1) =~= (old(buf)@ + bytes@.take(i as int)).push(bytes@[i as int]));
    }
    assert(bytes@.take(n as int) =~= bytes@);
}

/// The ASCII decimal digits of `n`.
pub open spec fn decimal(n: nat) -> Seq<u8>
    decreases n,
{
    if n < 10 {
        seq![(48 + n) as u8]
    } else {
        decimal(n / 10).push((48 + n % 10) as u8)
    }
}

/// Appends the decimal digits of `n`.
pub fn push_decimal(buf: &mut Vec<u8>, n: u32)
    ensures
        final(buf)@ == old(buf)@ + decimal(n as nat),
    decreases n,
{
    if n >= 10 {
        push_decimal(buf, n / 10);
    }
    buf.push((48 + n % 10) as u8);
    assert(final(buf)@ =~= old(buf)@ + decimal(n as nat)) by {
        if n >= 10 {
            assert(decimal(n as nat) == decimal((n / 10) as nat).push((48 + n % 10) as u8));
        }
    }
}

/// `ESC [ ? 2026 h`: begin synchronized output.
pub open spec fn seq_begin_sync() -> Seq<u8> {
    seq![27u8, 91, 63, 50, 48, 50, 54, 104]
}

/// `ESC [ ? 2026 l`: end synchronized output.
pub open spec fn seq_end_sync() -> Seq<u8> {
    seq![27u8, 91, 63, 50, 48, 50, 54, 108]
}

/// `ESC 7`: save cursor (DECSC).
pub open spec fn seq_save_cursor() -> Seq<u8> {
    seq![27u8, 55]
}

/// `ESC 8`: restore cursor (DECRC).
pub open spec fn seq_restore_cursor() -> Seq<u8> {
    seq![27u8, 56]
}

/// `ESC [ 7 m`: reverse video.
pub open spec fn seq_reverse_video() -> Seq<u8> {
    seq![27u8, 91, 55, 109]
}

/// `ESC [ 2 m`: dim.
pub open spec fn seq_dim() -> Seq<u8> {
    seq![27u8, 91, 50, 109]
}

/// `ESC [ 1 m`: bold.
pub open spec fn seq_bold() -> Seq<u8> {
    seq![27u8, 91, 49, 109]
}

/// `ESC [ 0 m`: reset attributes.
pub open spec fn seq_reset() -> Seq<u8> {
    seq![27u8, 91, 48, 109]
}

/// `ESC [ row+1 ; col+1 H`: cursor to the 0-indexed `(row, col)`.
pub open spec fn seq_move_to(row: u16, col: u16) -> Seq<u8> {
    seq![27u8, 91] + decimal((row + 1) as nat) + seq![59u8] + decimal((col + 1) as nat) + seq![72u8]
}

/// Begin synchronized output (DECSET 2026).
/// Terminal buffers all output until end_sync, then draws atomically.
pub fn begin_sync(buf: &mut Vec<u8>)
    ensures
        final(buf)@ == old(buf)@ + seq_begin_sync(),
{
    let b: [u8; 8] = [27, 91, 63, 50, 48, 50, 54, 104];
    assert(b@ =~= seq_begin_sync());
    append_bytes(buf, &b);
}

/// End synchronized output.
pub fn end_sync(buf: &mut Vec<u8>)
    ensures
        final(buf)@ == old(buf)@ + seq_end_sync(),
{
    let b: [u8; 8] = [27, 91, 63, 50, 48, 50, 54, 108];
    assert(b@ =~= seq_end_sync());
    append_bytes(buf, &b);
}

/// Save cursor position (DECSC).
pub fn save_cursor(buf: &mut Vec<u8>)
    ensures
        final(buf)@ == old(buf)@ + seq_save_cursor(),
{
    let b: [u8; 2] = [27, 55];
    assert(b@ =~= seq_save_cursor());
    append_bytes(buf, &b);
}

/// Restore cursor position (DECRC).
pub fn restore_cursor(buf: &mut Vec<u8>)
    ensures
        final(buf)@ == old(buf)@ + seq_restore_cursor(),
{
    let b: [u8; 2] = [27, 56];
    assert(b@ =~= seq_restore_cursor());
    append_bytes(buf, &b);
}

/// Move cursor to absolute position. Row/col are 0-indexed internally,
/// converted to 1-indexed for ANSI CUP sequence (so neither may be `u16::MAX`).
pub fn move_to(buf: &mut Vec<u8>, row: u16, col: u16)
    requires
        row < 0xffff,
        col < 0xffff,
    ensures
        final(buf)@ == old(buf)@ + seq_move_to(row, col),
{
    buf.push(27);
    buf.push(91);
    push_decimal(buf, (row + 1) as u32);
    buf.push(59);
    push_decimal(buf, (col + 1) as u32);
    buf.push(72);
    assert(final(buf)@ =~= old(buf)@ + seq_move_to(row, col));
}

/// Set reverse video (for selected item highlight).
pub fn reverse_video(buf: &mut Vec<u8>)
    ensures
        final(buf)@ == old(buf)@ + seq_reverse_video(),
{
    let b: [u8; 4] = [27, 91, 55, 109];
    assert(b@ =~= seq_reverse_video());
    append_bytes(buf, &b);
}

/// Set dim text (for descriptions).
pub fn dim(buf: &mut Vec<u8>)
    ensures
        final(buf)@ == old(buf)@ + seq_dim(),
{
    let b: [u8; 4] = [27, 91, 50, 109];
    assert(b@ =~= seq_dim());
    append_bytes(buf, &b);
}

/// Set bold text.
pub fn bold(buf: &mut Vec<u8>)
    ensures
        final(buf)@ == old(buf)@ + seq_bold(),
{
    let b: [u8; 4] = [27, 91, 49, 109];
    assert(b@ =~= seq_bold());
    append_bytes(buf, &b);
}

/// Reset all text attributes.
pub fn reset(buf: &mut Vec<u8>)
    ensures
        final(buf)@ == old(buf)@ + seq_reset(),
{
    let b: [u8; 4] = [27, 91, 48, 109];
    assert(b@ =~= seq_reset());
    append_bytes(buf, &b);
}

} // verus!
