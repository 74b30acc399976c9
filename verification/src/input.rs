//! Key event decoding for raw terminal stdin bytes.
//!
//! Known sequences (arrows, Tab, Enter, Escape, Ctrl+Space, Ctrl+/, cursor position
//! reports) become key events; everything else passes through as raw bytes.

use vstd::prelude::*;

use crate::text::{copy_range, parse_unsigned, spec_parse_unsigned};

verus! {

/// One decoded key press (or terminal report) from stdin.
#[derive(Debug, Clone, PartialEq, Eq)]
pub enum KeyEvent {
    Tab,
    Enter,
    Escape,
    ArrowUp,
    ArrowDown,
    ArrowLeft,
    ArrowRight,
    CtrlSpace,
    CtrlSlash,
    Backspace,
    Printable(char),
    /// Cursor Position Report response (CSI row;col R) — 1-indexed.
    CursorPositionReport(u16, u16),
    /// Unknown bytes — forward verbatim to PTY.
    Raw(Vec<u8>),
}

/// Mathematical model of a [`KeyEvent`]: raw bytes as a sequence.
pub enum SpecKey {
    Tab,
    Enter,
    Escape,
    ArrowUp,
    ArrowDown,
    ArrowLeft,
    ArrowRight,
    CtrlSpace,
    CtrlSlash,
    Backspace,
    Printable(char),
    CursorPositionReport(u16, u16),
    Raw(Seq<u8>),
}

impl View for KeyEvent {
    type V = SpecKey;

    open spec fn view(&self) -> SpecKey {
        match self {
            KeyEvent::Tab => SpecKey::Tab,
            KeyEvent::Enter => SpecKey::Enter,
            KeyEvent::Escape => SpecKey::Escape,
            KeyEvent::ArrowUp => SpecKey::ArrowUp,
            KeyEvent::ArrowDown => SpecKey::ArrowDown,
            KeyEvent::ArrowLeft => SpecKey::ArrowLeft,
            KeyEvent::ArrowRight => SpecKey::ArrowRight,
            KeyEvent::CtrlSpace => SpecKey::CtrlSpace,
            KeyEvent::CtrlSlash => SpecKey::CtrlSlash,
            KeyEvent::Backspace => SpecKey::Backspace,
            KeyEvent::Printable(c) => SpecKey::Printable(*c),
            KeyEvent::CursorPositionReport(r, c) => SpecKey::CursorPositionReport(*r, *c),
            KeyEvent::Raw(b) => SpecKey::Raw(b@),
        }
    }
}

/// The models of a sequence of key events.
pub open spec fn keys_view(ks: Seq<KeyEvent>) -> Seq<SpecKey> {
    ks.map_values(|k: KeyEvent| k@)
}

/// The arrow key named by the final byte of `ESC [ x` / `ESC O x`, if any.
pub open spec fn arrow_of(b: u8) -> Option<SpecKey> {
    if b == 65 {
        Some(SpecKey::ArrowUp)
    } else if b == 66 {
        Some(SpecKey::ArrowDown)
    } else if b == 67 {
        Some(SpecKey::ArrowRight)
    } else if b == 68 {
        Some(SpecKey::ArrowLeft)
    } else {
        None
    }
}

/// Index of the first byte at or after `j` that is `0x40` or above (a CSI
/// final byte), or the buffer length when there is none.
pub open spec fn csi_final_index(buf: Seq<u8>, j: int) -> int
    decreases buf.len() - j,
{
    if j >= buf.len() || buf[j] >= 0x40 {
        j
    } else {
        csi_final_index(buf, j + 1)
    }
}

/// A cursor position report's parameters `row;col`: both parts must parse
/// as `u16` (split at the first `;`).
pub open spec fn spec_parse_cpr(params: Seq<u8>) -> Option<(u16, u16)> {
    if exists|k: int| 0 <= k < params.len() && params[k] == 59 {
        let k = choose|k: int|
            0 <= k < params.len() && params[k] == 59 && forall|m: int| 0 <= m < k ==> params[m] != 59;
        match (
            spec_parse_unsigned(params.take(k), 65535),
            spec_parse_unsigned(params.skip(k + 1), 65535),
        ) {
            (Some(r), Some(c)) => Some((r as u16, c as u16)),
            _ => None,
        }
    } else {
        None
    }
}

/// The event that starts at byte `i` of `buf`, and how many bytes it takes.
pub open spec fn key_at(buf: Seq<u8>, i: int) -> (SpecKey, int) {
    let len = buf.len() as int;
    let b = buf[i];
    if b == 0x00 {
        (SpecKey::CtrlSpace, 1)
    } else if b == 0x1F {
        (SpecKey::CtrlSlash, 1)
    } else if b == 0x09 {
        (SpecKey::Tab, 1)
    } else if b == 0x0D {
        (SpecKey::Enter, 1)
    } else if b == 0x7F {
        (SpecKey::Backspace, 1)
    } else if b == 0x1B {
        if len - i > 2 && buf[i + 1] == 91 {
            match arrow_of(buf[i + 2]) {
                Some(k) => (k, 3),
                None => {
                    let j = csi_final_index(buf, i + 2);
                    if j < len {
                        if buf[j] == 82 && spec_parse_cpr(buf.subrange(i + 2, j)) is Some {
                            let (r, c) = spec_parse_cpr(buf.subrange(i + 2, j)).unwrap();
                            (SpecKey::CursorPositionReport(r, c), j + 1 - i)
                        } else {
                            (SpecKey::Raw(buf.subrange(i, j + 1)), j + 1 - i)
                        }
                    } else {
                        (SpecKey::Raw(buf.subrange(i, len)), len - i)
                    }
                },
            }
        } else if len - i > 2 && buf[i + 1] == 79 {
            match arrow_of(buf[i + 2]) {
                Some(k) => (k, 3),
                None => (SpecKey::Raw(buf.subrange(i, i + 3)), 3),
            }
        } else if i + 1 == len {
            (SpecKey::Escape, 1)
        } else if buf[i + 1] != 91 && buf[i + 1] != 79 {
            (SpecKey::Raw(buf.subrange(i, i + 2)), 2)
        } else {
            (SpecKey::Raw(buf.subrange(i, len)), len - i)
        }
    } else if 0x20 <= b <= 0x7E {
        (SpecKey::Printable(b as char), 1)
    } else {
        (SpecKey::Raw(seq![b]), 1)
    }
}

/// All events decoded from byte `i` of `buf` onwards.
pub open spec fn keys_from(buf: Seq<u8>, i: int) -> Seq<SpecKey>
    decreases buf.len() - i,
{
    if i < 0 || i >= buf.len() {
        Seq::empty()
    } else {
        let (k, n) = key_at(buf, i);
        if n <= 0 {
            Seq::empty()
        } else {
            seq![k] + keys_from(buf, i + n)
        }
    }
}

/// All events decoded from a buffer of raw stdin bytes.
pub open spec fn spec_parse_keys(buf: Seq<u8>) -> Seq<SpecKey> {
    keys_from(buf, 0)
}

/// Parse a CPR parameter slice like b"15;1" into (row, col).
/// Returns None if the format doesn't match.
fn parse_cpr(buf: &[u8], lo: usize, hi: usize) -> (r: Option<(u16, u16)>)
    requires
        lo <= hi <= buf@.len(),
    ensures
        r == spec_parse_cpr(buf@.subrange(lo as int, hi as int)),
{
    let ghost p = buf@.subrange(lo as int, hi as int);
    let mut k = lo;
    while k < hi && buf[k] != 59
        invariant
            lo <= k <= hi <= buf@.len(),
            p == buf@.subrange(lo as int, hi as int),
            forall|m: int| 0 <= m < k - lo ==> p[m] != 59,
        decreases hi - k,
    {
        k = k + 1;
    }
    if k == hi {
        return None;
    }
    proof {
        let kk = (k - lo) as int;
        assert(p[kk] == 59);
        let c = choose|c: int| 0 <= c < p.len() && p[c] == 59 && forall|m: int| 0 <= m < c ==> p[m] != 59;
        assert(c == kk) by {
            if c < kk {
                assert(p[c] != 59);
            } else if c > kk {
                assert(p[kk] != 59);
            }
        }
        assert(p.take(kk) =~= buf@.subrange(lo as int, k as int));
        assert(p.skip(kk + 1) =~= buf@.subrange(k + 1, hi as int));
    }
    let row = parse_unsigned(buf, lo, k, 65535);
    let col = parse_unsigned(buf, k + 1, hi, 65535);
    match (row, col) {
        (Some(r), Some(c)) => Some((r as u16, c as u16)),
        _ => None,
    }
}


/// Index of the first CSI final byte (`>= 0x40`) at or after `j`.
fn find_csi_final(buf: &[u8], j: usize) -> (r: usize)
    requires
        j <= buf@.len(),
    ensures
        r as int == csi_final_index(buf@, j as int),
    decreases buf@.len() - j,
{
    if j >= buf.len() || buf[j] >= 0x40 {
        j
    } else {
        find_csi_final(buf, j + 1)
    }
}

/// The arrow key for a final byte.
fn arrow_key(b: u8) -> (r: Option<KeyEvent>)
    ensures
        match arrow_of(b) {
            Some(k) => r is Some && r.unwrap()@ == k,
            None => r is None,
        },
{
    if b == 65 {
        Some(KeyEvent::ArrowUp)
    } else if b == 66 {
        Some(KeyEvent::ArrowDown)
    } else if b == 67 {
        Some(KeyEvent::ArrowRight)
    } else if b == 68 {
        Some(KeyEvent::ArrowLeft)
    } else {
        None
    }
}

/// Decodes the event at byte `i`.
fn decode_at(buf: &[u8], i: usize) -> (r: (KeyEvent, usize))
    requires
        i < buf@.len(),
    ensures
        r.0@ == key_at(buf@, i as int).0,
        r.1 as int == key_at(buf@, i as int).1,
        1 <= r.1 <= buf@.len() - i,
{
    let len = buf.len();
    let b = buf[i];
    if b == 0x00 {
        (KeyEvent::CtrlSpace, 1)
    } else if b == 0x1F {
        (KeyEvent::CtrlSlash, 1)
    } else if b == 0x09 {
        (KeyEvent::Tab, 1)
    } else if b == 0x0D {
        (KeyEvent::Enter, 1)
    } else if b == 0x7F {
        (KeyEvent::Backspace, 1)
    } else if b == 0x1B {
        if len - i > 2 && buf[i + 1] == 91 {
            match arrow_key(buf[i + 2]) {
                Some(k) => (k, 3),
                None => {
                    let j = find_csi_final(buf, i + 2);
                    proof {
                        lemma_csi_final_bounds(buf@, (i + 2) as int);
                    }
                    if j < len {
                        if buf[j] == 82 {
                            if let Some((r, c)) = parse_cpr(buf, i + 2, j) {
                                return (KeyEvent::CursorPositionReport(r, c), j + 1 - i);
                            }
                        }
                        (KeyEvent::Raw(copy_range(buf, i, j + 1)), j + 1 - i)
                    } else {
                        (KeyEvent::Raw(copy_range(buf, i, len)), len - i)
                    }
                },
            }
        } else if len - i > 2 && buf[i + 1] == 79 {
            match arrow_key(buf[i + 2]) {
                Some(k) => (k, 3),
                None => (KeyEvent::Raw(copy_range(buf, i, i + 3)), 3),
            }
        } else if i + 1 == len {
            (KeyEvent::Escape, 1)
        } else if buf[i + 1] != 91 && buf[i + 1] != 79 {
            (KeyEvent::Raw(copy_range(buf, i, i + 2)), 2)
        } else {
            (KeyEvent::Raw(copy_range(buf, i, len)), len - i)
        }
    } else if 0x20 <= b && b <= 0x7E {
        (KeyEvent::Printable(b as char), 1)
    } else {
        let mut v: Vec<u8> = Vec::new();
        v.push(b);
        assert(v@ =~= seq![b]);
        (KeyEvent::Raw(v), 1)
    }
}

/// The final-byte search stays within the buffer.
pub proof fn lemma_csi_final_bounds(buf: Seq<u8>, j: int)
    requires
        0 <= j <= buf.len(),
    ensures
        j <= csi_final_index(buf, j) <= buf.len(),
    decreases buf.len() - j,
{
    if j < buf.len() && buf[j] < 0x40 {
        lemma_csi_final_bounds(buf, j + 1);
    }
}

/// Parse a buffer of raw stdin bytes into key events.
///
/// One read() call can contain multiple keystrokes (e.g. fast typing or
/// paste). This returns them all in order.
pub fn parse_keys(buf: &[u8]) -> (events: Vec<KeyEvent>)
    ensures
        keys_view(events@) == spec_parse_keys(buf@),
{
    let mut events: Vec<KeyEvent> = Vec::new();
    let mut i: usize = 0;
    let len = buf.len();
    while i < len
        invariant
            len == buf@.len(),
            i <= len,
            keys_view(events@) + keys_from(buf@, i as int) == spec_parse_keys(buf@),
        decreases len - i,
    {
        let (k, n) = decode_at(buf, i);
        let ghost prev = events@;
        events.push(k);
        proof {
            assert(keys_view(events@) =~= keys_view(prev).push(k@));
            assert(keys_from(buf@, i as int) == seq![k@] + keys_from(buf@, i + n));
            assert(keys_view(prev) + keys_from(buf@, i as int)
                =~= keys_view(prev).push(k@) + keys_from(buf@, i + n));
        }
        i = i + n;
    }
    proof {
        assert(keys_view(events@) + keys_from(buf@, i as int) =~= keys_view(events@));
    }
    events
}

/// The search for a CSI final byte does not look before where it starts.
proof fn lemma_csi_final_shift(p: Seq<u8>, r: Seq<u8>, j: int)
    requires
        0 <= j <= r.len(),
    ensures
        csi_final_index(p + r, p.len() + j) == p.len() + csi_final_index(r, j),
    decreases r.len() - j,
{
    if j < r.len() {
        assert((p + r)[p.len() + j] == r[j]);
        lemma_csi_final_shift(p, r, j + 1);
    }
}

/// Decoding one key does not look before where it starts.
proof fn lemma_key_at_shift(p: Seq<u8>, r: Seq<u8>, j: int)
    requires
        0 <= j < r.len(),
    ensures
        key_at(p + r, p.len() + j) == key_at(r, j),
{
    let s = p + r;
    let i = p.len() + j;
    assert forall|k: int| j <= k < r.len() implies s[p.len() + k] == r[k] by {}
    assert(s[i] == r[j]);
    if r.len() - j > 2 {
        assert(s[i + 1] == r[j + 1]);
        assert(s[i + 2] == r[j + 2]);
    }
    if r.len() - j > 1 {
        assert(s[i + 1] == r[j + 1]);
    }
    if r.len() - j >= 2 {
        lemma_csi_final_shift(p, r, j + 2);
        lemma_csi_final_bounds(r, j + 2);
        let f = csi_final_index(r, j + 2);
        assert(s.subrange(i + 2, p.len() + f) =~= r.subrange(j + 2, f));
        if f < r.len() {
            assert(s[p.len() + f] == r[f]);
            assert(s.subrange(i, p.len() + f + 1) =~= r.subrange(j, f + 1));
        }
        assert(s.subrange(i, s.len() as int) =~= r.subrange(j, r.len() as int));
    }
    if r.len() - j > 2 {
        assert(s.subrange(i, i + 3) =~= r.subrange(j, j + 3));
    }
    if r.len() - j > 1 {
        assert(s.subrange(i, i + 2) =~= r.subrange(j, j + 2));
    }
}

/// Decoding the keys from a point on does not look before it.
proof fn lemma_keys_from_shift(p: Seq<u8>, r: Seq<u8>, j: int)
    requires
        0 <= j <= r.len(),
    ensures
        keys_from(p + r, p.len() + j) == keys_from(r, j),
    decreases r.len() - j,
{
    if j < r.len() {
        lemma_key_at_shift(p, r, j);
        let n = key_at(r, j).1;
        if n > 0 {
            if j + n <= r.len() {
                lemma_keys_from_shift(p, r, j + n);
            } else {
                assert(keys_from(r, j + n) == Seq::<SpecKey>::empty());
                assert(keys_from(p + r, p.len() + j + n) == Seq::<SpecKey>::empty());
            }
        }
    }
}

/// The arrow an arrow sequence's final byte names: `A` up, `B` down, `C`
/// right, `D` left.
pub open spec fn arrow_named(x: u8) -> SpecKey {
    if x == 65 {
        SpecKey::ArrowUp
    } else if x == 66 {
        SpecKey::ArrowDown
    } else if x == 67 {
        SpecKey::ArrowRight
    } else {
        SpecKey::ArrowLeft
    }
}

/// An arrow key is one event in both its forms, `ESC [ x` (normal cursor
/// mode) and `ESC O x` (application cursor mode), for each of `A` up, `B`
/// down, `C` right and `D` left, whatever bytes follow it.
pub proof fn law_arrows_in_both_modes(mode: u8, x: u8, rest: Seq<u8>)
    requires
        mode == 91 || mode == 79,
        65 <= x <= 68,
    ensures
        spec_parse_keys(seq![0x1Bu8, mode, x] + rest) == seq![arrow_named(x)] + spec_parse_keys(rest),
{
    let p = seq![0x1Bu8, mode, x];
    let buf = p + rest;
    assert(buf[0] == 0x1B && buf[1] == mode && buf[2] == x);
    assert(key_at(buf, 0) == (arrow_named(x), 3int));
    if rest.len() > 0 {
        lemma_keys_from_shift(p, rest, 0);
    } else {
        assert(keys_from(buf, 3) == Seq::<SpecKey>::empty());
        assert(spec_parse_keys(rest) == Seq::<SpecKey>::empty());
    }
    assert(spec_parse_keys(buf) == seq![arrow_named(x)] + keys_from(buf, 3));
}

} // verus!
