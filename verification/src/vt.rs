//! The decisions taken for each parsed VT sequence: control characters, CSI
//! cursor movement, ESC save/restore, and the OSC reports of prompts (133),
//! the command buffer (7770) and the working directory (7).

use vstd::prelude::*;
use vstd::utf8::{
    decode_utf8, encode_scalar, encode_utf8, length_of_first_scalar, pop_first_scalar, valid_first_scalar, valid_utf8,
};

use crate::terminal::{
    sat_sub, spec_advance_col, spec_backspace, spec_carriage_return, spec_clear_command_buffer,
    spec_line_feed, spec_move_back, spec_move_down, spec_move_forward, spec_move_up,
    spec_restore_cursor, spec_reverse_index, spec_save_cursor, spec_set_col,
    spec_set_command_buffer, spec_set_cursor, spec_set_cwd, spec_set_row, spec_tab,
    TermModel, TerminalState,
};
use crate::text::{parse_unsigned, push_char, spec_parse_unsigned, spec_utf8_lossy, utf8_lossy};

verus! {

/// Whether `bytes[i..]` starts with the UTF-8 encoding of one scalar, and
/// how many bytes it takes.
fn first_scalar_len(bytes: &[u8], i: usize) -> (r: Option<usize>)
    requires
        i < bytes@.len(),
    ensures
        match r {
            Some(n) => valid_first_scalar(bytes@.skip(i as int)) && n == length_of_first_scalar(bytes@.skip(i as int)),
            None => !valid_first_scalar(bytes@.skip(i as int)),
        },
{
    let ghost s = bytes@.skip(i as int);
    let n = bytes.len();
    let b0 = bytes[i];
    assert(s[0] == b0);
    if b0 <= 0x7f {
        let cp: u32 = (b0 & 0x7F) as u32;
        assert(cp <= 0x7f) by (bit_vector)
            requires
                cp == (b0 & 0x7F) as u32,
        ;
        return Some(1);
    }
    if 0xc0 <= b0 && b0 <= 0xdf {
        if n - i < 2 {
            return None;
        }
        let b1 = bytes[i + 1];
        assert(s[1] == b1);
        if !(0x80 <= b1 && b1 <= 0xbf) {
            return None;
        }
        let cp: u32 = (((b0 & 0x1F) as u32) << 6) | ((b1 & 0x3F) as u32);
        if cp < 0x80 || (0xD800 <= cp && cp <= 0xDFFF) {
            return None;
        }
        return Some(2);
    }
    if 0xe0 <= b0 && b0 <= 0xef {
        if n - i < 3 {
            return None;
        }
        let b1 = bytes[i + 1];
        let b2 = bytes[i + 2];
        assert(s[1] == b1 && s[2] == b2);
        if !(0x80 <= b1 && b1 <= 0xbf) || !(0x80 <= b2 && b2 <= 0xbf) {
            return None;
        }
        let cp: u32 = (((b0 & 0x0F) as u32) << 12) | (((b1 & 0x3F) as u32) << 6) | ((b2 & 0x3F) as u32);
        if cp < 0x800 || (0xD800 <= cp && cp <= 0xDFFF) {
            return None;
        }
        return Some(3);
    }
    if 0xf0 <= b0 && b0 <= 0xf7 {
        if n - i < 4 {
            return None;
        }
        let b1 = bytes[i + 1];
        let b2 = bytes[i + 2];
        let b3 = bytes[i + 3];
        assert(s[1] == b1 && s[2] == b2 && s[3] == b3);
        if !(0x80 <= b1 && b1 <= 0xbf) || !(0x80 <= b2 && b2 <= 0xbf) || !(0x80 <= b3 && b3 <= 0xbf) {
            return None;
        }
        let cp: u32 = (((b0 & 0x07) as u32) << 18) | (((b1 & 0x3F) as u32) << 12) | (((b2 & 0x3F) as u32) << 6)
            | ((b3 & 0x3F) as u32);
        if cp < 0x10000 || cp > 0x10ffff || (0xD800 <= cp && cp <= 0xDFFF) {
            return None;
        }
        return Some(4);
    }
    None
}

/// Whether the bytes are valid UTF-8 (as `std::str::from_utf8` decides).
fn is_valid_utf8(bytes: &[u8]) -> (r: bool)
    ensures
        r == valid_utf8(bytes@),
{
    let n = bytes.len();
    let mut i: usize = 0;
    assert(bytes@.skip(0) =~= bytes@);
    while i < n
        invariant
            i <= n,
            n == bytes@.len(),
            valid_utf8(bytes@) == valid_utf8(bytes@.skip(i as int)),
        decreases n - i,
    {
        match first_scalar_len(bytes, i) {
            Some(k) => {
                proof {
                    let s = bytes@.skip(i as int);
                    assert(pop_first_scalar(s) =~= bytes@.skip(i + k));
                }
                i = i + k;
            },
            None => {
                return false;
            },
        }
    }
    assert(bytes@.skip(i as int).len() == 0);
    true
}

/// The value of a hexadecimal digit.
pub open spec fn spec_hex_val(b: u8) -> Option<u8> {
    if 48 <= b <= 57 {
        Some((b - 48) as u8)
    } else if 97 <= b <= 102 {
        Some((b - 97 + 10) as u8)
    } else if 65 <= b <= 70 {
        Some((b - 65 + 10) as u8)
    } else {
        None
    }
}

fn hex_val(b: u8) -> (r: Option<u8>)
    ensures
        r == spec_hex_val(b),
{
    if b >= 48 && b <= 57 {
        Some(b - 48)
    } else if b >= 97 && b <= 102 {
        Some(b - 97 + 10)
    } else if b >= 65 && b <= 70 {
        Some(b - 65 + 10)
    } else {
        None
    }
}

/// Minimal percent-decoding from byte `i` on: `%XY` with two hex digits is
/// the character with that code; a `%` without two hex digits stays a `%`
/// and the (up to) two bytes after it are dropped; any other byte is the
/// character with that code.
pub open spec fn percent_decode_from(s: Seq<u8>, i: int) -> Seq<char>
    decreases s.len() - i,
{
    if i < 0 || i >= s.len() {
        Seq::empty()
    } else if s[i] == 37 {
        if i + 2 < s.len() && spec_hex_val(s[i + 1]) is Some && spec_hex_val(s[i + 2]) is Some {
            let v = (spec_hex_val(s[i + 1]).unwrap() * 16 + spec_hex_val(s[i + 2]).unwrap()) as u8;
            seq![v as char] + percent_decode_from(s, i + 3)
        } else if i + 3 >= s.len() {
            seq!['%']
        } else {
            seq!['%'] + percent_decode_from(s, i + 3)
        }
    } else {
        seq![s[i] as char] + percent_decode_from(s, i + 1)
    }
}

/// Percent-decodes `input[lo..]`.
fn percent_decode_bytes(input: &[u8], lo: usize) -> (r: String)
    requires
        lo <= input@.len(),
    ensures
        r@ == percent_decode_from(input@, lo as int),
{
    let mut result = String::new();
    let n = input.len();
    let mut i = lo;
    while i < n
        invariant
            lo <= i <= n,
            n == input@.len(),
            result@ + percent_decode_from(input@, i as int) == percent_decode_from(input@, lo as int),
        decreases n - i,
    {
        let b = input[i];
        let ghost prev = result@;
        if b == 37 {
            if n - i > 2 {
                if let (Some(h), Some(l)) = (hex_val(input[i + 1]), hex_val(input[i + 2])) {
                    let v: u8 = h * 16 + l;
                    push_char(&mut result, v as char);
                    proof {
                        assert(prev + percent_decode_from(input@, i as int)
                            =~= result@ + percent_decode_from(input@, i + 3));
                    }
                    i = i + 3;
                    continue;
                }
            }
            push_char(&mut result, '%');
            if n - i > 3 {
                proof {
                    assert(prev + percent_decode_from(input@, i as int)
                        =~= result@ + percent_decode_from(input@, i + 3));
                }
                i = i + 3;
            } else {
                proof {
                    assert(prev + percent_decode_from(input@, i as int)
                        =~= result@ + percent_decode_from(input@, n as int));
                }
                i = n;
            }
        } else {
            push_char(&mut result, b as char);
            proof {
                assert(prev + percent_decode_from(input@, i as int)
                    =~= result@ + percent_decode_from(input@, i + 1));
            }
            i = i + 1;
        }
    }
    proof {
        assert(result@ + percent_decode_from(input@, i as int) =~= result@);
    }
    result
}

/// Minimal percent-decoding of a string's bytes (see [`percent_decode_from`]).
pub fn percent_decode(input: &str) -> (r: String)
    ensures
        r@ == percent_decode_from(vstd::utf8::encode_utf8(input@), 0),
{
    percent_decode_bytes(input.as_bytes(), 0)
}

/// The bytes of `file://`.
pub open spec fn file_scheme() -> Seq<u8> {
    seq![102u8, 105, 108, 101, 58, 47, 47]
}

/// Index of the first `/` at or after `k`, if any.
pub open spec fn first_slash_from(s: Seq<u8>, k: int) -> Option<int>
    decreases s.len() - k,
{
    if k < 0 || k >= s.len() {
        None
    } else if s[k] == 47 {
        Some(k)
    } else {
        first_slash_from(s, k + 1)
    }
}

/// The path of a `file://{host}/{path}` URI (from the first `/` after the
/// host, percent-decoded), or None when the bytes are not UTF-8, do not start
/// with `file://`, or have no path.
pub open spec fn spec_parse_osc7_path(uri: Seq<u8>) -> Option<Seq<char>> {
    if !valid_utf8(uri) || uri.len() < 7 || uri.take(7) != file_scheme() {
        None
    } else {
        match first_slash_from(uri, 7) {
            Some(k) => Some(percent_decode_from(uri, k)),
            None => None,
        }
    }
}

/// Parse a `file://{host}/{path}` URI from OSC 7 into a path.
pub fn parse_osc7_path(uri: &[u8]) -> (r: Option<String>)
    ensures
        opt_view(r) == spec_parse_osc7_path(uri@),
{
    if !is_valid_utf8(uri) {
        return None;
    }
    let n = uri.len();
    if n < 7 || uri[0] != 102 || uri[1] != 105 || uri[2] != 108 || uri[3] != 101 || uri[4] != 58
        || uri[5] != 47 || uri[6] != 47 {
        proof {
            if n >= 7 {
                assert(uri@.take(7)[0] == uri@[0]);
                assert(uri@.take(7)[1] == uri@[1]);
                assert(uri@.take(7)[2] == uri@[2]);
                assert(uri@.take(7)[3] == uri@[3]);
                assert(uri@.take(7)[4] == uri@[4]);
                assert(uri@.take(7)[5] == uri@[5]);
                assert(uri@.take(7)[6] == uri@[6]);
                assert(uri@.take(7) != file_scheme());
            }
        }
        return None;
    }
    assert(uri@.take(7) =~= file_scheme());
    let mut k: usize = 7;
    while k < n && uri[k] != 47
        invariant
            7 <= k <= n,
            n == uri@.len(),
            first_slash_from(uri@, 7) == first_slash_from(uri@, k as int),
        decreases n - k,
    {
        k = k + 1;
    }
    if k == n {
        return None;
    }
    Some(percent_decode_bytes(uri, k))
}

/// The characters of an optional string.
pub open spec fn opt_view(o: Option<String>) -> Option<Seq<char>> {
    match o {
        Some(s) => Some(s@),
        None => None,
    }
}

/// The first value of CSI parameter `index`, with 0 or absence meaning `default`.
pub open spec fn spec_csi_param(params: Seq<Seq<u16>>, index: int, default: u16) -> u16 {
    if 0 <= index < params.len() && params[index].len() > 0 {
        if params[index][0] == 0 { default } else { params[index][0] }
    } else {
        default
    }
}

fn csi_param(params: &Vec<Vec<u16>>, index: usize, default: u16) -> (r: u16)
    ensures
        r == spec_csi_param(params_view(params@), index as int, default),
{
    if index < params.len() && params[index].len() > 0 {
        let v = params[index][0];
        if v == 0 { default } else { v }
    } else {
        default
    }
}

/// CSI parameter groups (each a parameter with its sub-parameters).
pub open spec fn params_view(p: Seq<Vec<u16>>) -> Seq<Seq<u16>> {
    p.map_values(|v: Vec<u16>| v@)
}

/// OSC parameters as byte sequences.
pub open spec fn osc_view(p: Seq<Vec<u8>>) -> Seq<Seq<u8>> {
    p.map_values(|v: Vec<u8>| v@)
}

/// A control character: LF, CR, BS and HT move the cursor.
pub open spec fn spec_execute(m: TermModel, byte: u8) -> TermModel {
    if byte == 0x0A {
        spec_line_feed(m)
    } else if byte == 0x0D {
        spec_carriage_return(m)
    } else if byte == 0x08 {
        spec_backspace(m)
    } else if byte == 0x09 {
        spec_tab(m)
    } else {
        m
    }
}

/// A CSI sequence (sequences with intermediates are ignored). Scrolling
/// (`S`, `T`) moves the content, not the cursor, so it changes nothing here;
/// `s` and `u` save and restore the cursor.
pub open spec fn spec_csi_dispatch(
    m: TermModel,
    params: Seq<Seq<u16>>,
    intermediates: Seq<u8>,
    action: char,
) -> TermModel {
    let p0 = spec_csi_param(params, 0, 1);
    if intermediates.len() != 0 {
        m
    } else if action == 'H' || action == 'f' {
        spec_set_cursor(m, sat_sub(p0, 1), sat_sub(spec_csi_param(params, 1, 1), 1))
    } else if action == 'A' {
        spec_move_up(m, p0)
    } else if action == 'B' {
        spec_move_down(m, p0)
    } else if action == 'C' {
        spec_move_forward(m, p0)
    } else if action == 'D' {
        spec_move_back(m, p0)
    } else if action == 'E' {
        spec_carriage_return(spec_move_down(m, p0))
    } else if action == 'F' {
        spec_carriage_return(spec_move_up(m, p0))
    } else if action == 'G' {
        spec_set_col(m, sat_sub(p0, 1))
    } else if action == 'd' {
        spec_set_row(m, sat_sub(p0, 1))
    } else if action == 'J' {
        let mode = spec_csi_param(params, 0, 0);
        if mode == 2 || mode == 3 { spec_set_cursor(m, 0, 0) } else { m }
    } else if action == 's' {
        spec_save_cursor(m)
    } else if action == 'u' {
        spec_restore_cursor(m)
    } else {
        m
    }
}

/// An ESC sequence: `ESC 7` saves, `ESC 8` restores, `ESC M` reverse-indexes.
pub open spec fn spec_esc_dispatch(m: TermModel, intermediates: Seq<u8>, byte: u8) -> TermModel {
    if intermediates.len() != 0 {
        m
    } else if byte == 55 {
        spec_save_cursor(m)
    } else if byte == 56 {
        spec_restore_cursor(m)
    } else if byte == 77 {
        spec_reverse_index(m)
    } else {
        m
    }
}

/// The cursor reported by OSC 7770 (0 when it is not a number).
pub open spec fn osc_cursor(b: Seq<u8>) -> usize {
    match spec_parse_unsigned(b, usize::MAX as nat) {
        Some(v) => v as usize,
        None => 0,
    }
}

/// The fields `params[k..n]` joined back with `;` (the parser splits an OSC
/// payload at every `;`, including those inside the reported buffer).
pub open spec fn join_fields(params: Seq<Seq<u8>>, k: int, n: int) -> Seq<u8>
    decreases n - k,
{
    if n <= k + 1 {
        if k < params.len() { params[k] } else { Seq::empty() }
    } else {
        join_fields(params, k, n - 1) + seq![59u8] + params[n - 1]
    }
}

/// An OSC sequence: 133;A marks a prompt (and asks for the real cursor
/// position to be synced), 133;C a command start (which
/// clears the buffer), 7770;cursor;buffer reports the command buffer (the
/// whole rest of the payload, `;`s included), and 7;uri the working
/// directory.
pub open spec fn spec_osc_dispatch(m: TermModel, params: Seq<Seq<u8>>) -> TermModel {
    if params.len() == 0 {
        m
    } else if params[0] == seq![49u8, 51, 51] {
        if params.len() < 2 {
            m
        } else if params[1] == seq![65u8] {
            TermModel { prompt_row: Some(m.cursor_row), in_prompt: true, cursor_sync_requested: true, ..m }
        } else if params[1] == seq![67u8] {
            spec_clear_command_buffer(TermModel { in_prompt: false, ..m })
        } else {
            m
        }
    } else if params[0] == seq![55u8, 55, 55, 48] {
        if params.len() < 3 {
            m
        } else {
            spec_set_command_buffer(
                m,
                spec_utf8_lossy(join_fields(params, 2, params.len() as int)),
                osc_cursor(params[1]),
            )
        }
    } else if params[0] == seq![55u8] {
        if params.len() < 2 {
            m
        } else {
            match spec_parse_osc7_path(params[1]) {
                Some(p) => spec_set_cwd(m, p),
                None => m,
            }
        }
    } else {
        m
    }
}

/// The parameters from `k` on, joined back with `;`.
fn join_params(params: &Vec<Vec<u8>>, k: usize) -> (r: Vec<u8>)
    requires
        k < params@.len(),
    ensures
        r@ == join_fields(osc_view(params@), k as int, params@.len() as int),
{
    let ghost pv = osc_view(params@);
    let n = params.len();
    let mut r: Vec<u8> = Vec::new();
    let first = &params[k];
    let m = first.len();
    for j in 0..m
        invariant
            m == first@.len(),
            r@ == first@.take(j as int),
    {
        r.push(first[j]);
        assert(first@.take(j + 1) =~= first@.take(j as int).push(first@[j as int]));
    }
    assert(first@.take(m as int) =~= first@);
    assert(pv[k as int] == first@);
    let mut i = k + 1;
    while i < n
        invariant
            k < i <= n,
            n == params@.len(),
            pv == osc_view(params@),
            r@ == join_fields(pv, k as int, i as int),
        decreases n - i,
    {
        let ghost before = r@;
        r.push(59u8);
        let p = &params[i];
        let pl = p.len();
        for j in 0..pl
            invariant
                pl == p@.len(),
                r@ == before + seq![59u8] + p@.take(j as int),
        {
            r.push(p[j]);
            assert(p@.take(j + 1) =~= p@.take(j as int).push(p@[j as int]));
            assert(before + seq![59u8] + p@.take(j + 1) =~= (before + seq![59u8] + p@.take(j as int)).push(p@[j as int]));
        }
        assert(p@.take(pl as int) =~= p@);
        assert(pv[i as int] == p@);
        i = i + 1;
    }
    r
}

/// Whether `v` holds exactly the given bytes.
fn bytes_are(v: &Vec<u8>, lit: &[u8]) -> (r: bool)
    ensures
        r == (v@ == lit@),
{
    if v.len() != lit.len() {
        return false;
    }
    let n = v.len();
    for i in 0..n
        invariant
            n == v@.len(),
            n == lit@.len(),
            forall|j: int| 0 <= j < i ==> v@[j] == lit@[j],
    {
        if v[i] != lit[i] {
            return false;
        }
    }
    assert(v@ =~= lit@);
    true
}

impl TerminalState {
    /// A printed character takes one cell.
    pub fn print(&mut self, _c: char)
        ensures
            final(self)@ == spec_advance_col(old(self)@, 1),
    {
        self.advance_col(1);
    }

    /// A control character. A tab needs the column to leave room for the next
    /// tab stop in a `u16`.
    pub fn execute(&mut self, byte: u8)
        requires
            byte == 0x09 ==> old(self)@.cursor_col <= 0xffff - 8,
        ensures
            final(self)@ == spec_execute(old(self)@, byte),
    {
        if byte == 0x0A {
            self.line_feed();
        } else if byte == 0x0D {
            self.carriage_return();
        } else if byte == 0x08 {
            self.backspace();
        } else if byte == 0x09 {
            self.tab();
        }
    }

    /// A CSI sequence with its parameter groups, intermediates and final character.
    pub fn csi_dispatch(&mut self, params: &Vec<Vec<u16>>, intermediates: &[u8], action: char)
        ensures
            final(self)@ == spec_csi_dispatch(old(self)@, params_view(params@), intermediates@, action),
    {
        if intermediates.len() != 0 {
            return;
        }
        let p0 = csi_param(params, 0, 1);
        if action == 'H' || action == 'f' {
            let row = p0.saturating_sub(1);
            let col = csi_param(params, 1, 1).saturating_sub(1);
            self.set_cursor(row, col);
        } else if action == 'A' {
            self.move_up(p0);
        } else if action == 'B' {
            self.move_down(p0);
        } else if action == 'C' {
            self.move_forward(p0);
        } else if action == 'D' {
            self.move_back(p0);
        } else if action == 'E' {
            self.move_down(p0);
            self.carriage_return();
        } else if action == 'F' {
            self.move_up(p0);
            self.carriage_return();
        } else if action == 'G' {
            self.set_col(p0.saturating_sub(1));
        } else if action == 'd' {
            self.set_row(p0.saturating_sub(1));
        } else if action == 'J' {
            let mode = csi_param(params, 0, 0);
            if mode == 2 || mode == 3 {
                self.set_cursor(0, 0);
            }
        } else if action == 's' {
            self.save_cursor();
        } else if action == 'u' {
            self.restore_cursor();
        }
    }

    /// An ESC sequence.
    pub fn esc_dispatch(&mut self, intermediates: &[u8], byte: u8)
        ensures
            final(self)@ == spec_esc_dispatch(old(self)@, intermediates@, byte),
    {
        if intermediates.len() == 0 {
            if byte == 55 {
                self.save_cursor();
            } else if byte == 56 {
                self.restore_cursor();
            } else if byte == 77 {
                self.reverse_index();
            }
        }
    }

    /// An OSC sequence, split at `;` into its parameters.
    pub fn osc_dispatch(&mut self, params: &Vec<Vec<u8>>)
        ensures
            final(self)@ == spec_osc_dispatch(old(self)@, osc_view(params@)),
    {
        let ghost pv = osc_view(params@);
        let n = params.len();
        if n == 0 {
            return;
        }
        assert(pv[0] == params@[0]@);
        let k133: [u8; 3] = [49, 51, 51];
        let k7770: [u8; 4] = [55, 55, 55, 48];
        let k7: [u8; 1] = [55];
        let ka: [u8; 1] = [65];
        let kc: [u8; 1] = [67];
        assert(k133@ =~= seq![49u8, 51, 51]);
        assert(k7770@ =~= seq![55u8, 55, 55, 48]);
        assert(k7@ =~= seq![55u8]);
        assert(ka@ =~= seq![65u8]);
        assert(kc@ =~= seq![67u8]);
        if bytes_are(&params[0], &k133) {
            if n < 2 {
                return;
            }
            assert(pv[1] == params@[1]@);
            if bytes_are(&params[1], &ka) {
                let row = self.cursor_row();
                self.set_prompt_row(row);
                self.set_in_prompt(true);
                self.request_cursor_sync();
            } else if bytes_are(&params[1], &kc) {
                self.set_in_prompt(false);
                self.clear_command_buffer();
            }
        } else if bytes_are(&params[0], &k7770) {
            if n < 3 {
                return;
            }
            assert(pv[1] == params@[1]@);
            assert(pv[2] == params@[2]@);
            let p1 = &params[1];
            let cursor = match parse_unsigned(p1.as_slice(), 0, p1.len(), usize::MAX as u64) {
                Some(v) => v as usize,
                None => 0,
            };
            proof {
                assert(p1@.subrange(0, p1@.len() as int) =~= p1@);
            }
            let joined = join_params(params, 2);
            let buffer = utf8_lossy(joined.as_slice());
            self.set_command_buffer(buffer, cursor);
        } else if bytes_are(&params[0], &k7) {
            if n < 2 {
                return;
            }
            assert(pv[1] == params@[1]@);
            if let Some(path) = parse_osc7_path(params[1].as_slice()) {
                self.set_cwd(path);
            }
        }
    }
}

} // verus!

verus! {

/// When a command starts executing (OSC 133;C) the prompt is over and the
/// command buffer is forgotten.
pub proof fn law_command_start_forgets_buffer(m: TermModel)
    ensures
        spec_osc_dispatch(m, seq![seq![49u8, 51, 51], seq![67u8]]).command_buffer is None,
        !spec_osc_dispatch(m, seq![seq![49u8, 51, 51], seq![67u8]]).in_prompt,
{
}

/// A buffer report (OSC 7770) stores the buffer and raises the update flag.
pub proof fn law_buffer_report_stored(m: TermModel, cursor: Seq<u8>, buffer: Seq<u8>)
    ensures
        spec_osc_dispatch(m, seq![seq![55u8, 55, 55, 48], cursor, buffer]).command_buffer
            == Some(spec_utf8_lossy(buffer)),
        spec_osc_dispatch(m, seq![seq![55u8, 55, 55, 48], cursor, buffer]).buffer_dirty,
{
}

/// A buffer holding `;` arrives split into fields; the stored buffer is all
/// of them joined back, with the cursor from the field before them.
pub proof fn law_buffer_report_keeps_semicolons(m: TermModel, cursor: Seq<u8>, a: Seq<u8>, b: Seq<u8>)
    ensures
        spec_osc_dispatch(m, seq![seq![55u8, 55, 55, 48], cursor, a, b]).command_buffer
            == Some(spec_utf8_lossy(a + seq![59u8] + b)),
        spec_osc_dispatch(m, seq![seq![55u8, 55, 55, 48], cursor, a, b]).buffer_cursor == osc_cursor(cursor),
{
    let p = seq![seq![55u8, 55, 55, 48], cursor, a, b];
    assert(join_fields(p, 2, 3) == a);
    assert(join_fields(p, 2, 4) == a + seq![59u8] + b);
}

/// Reporting (OSC 7) the working directory the terminal already has changes
/// nothing.
pub proof fn law_osc7_same_path_unchanged(m: TermModel, uri: Seq<u8>)
    requires
        spec_parse_osc7_path(uri) is Some,
        m.cwd == spec_parse_osc7_path(uri),
    ensures
        spec_osc_dispatch(m, seq![seq![55u8], uri]) == m,
{
}

/// The uppercase hexadecimal digit of a value below 16.
pub open spec fn hex_digit(v: u8) -> u8 {
    if v < 10 { (48 + v) as u8 } else { (55 + v) as u8 }
}

/// Percent-encoding of bytes: where `enc` says so, a byte becomes `%XY` (its
/// two uppercase hex digits); any other byte is kept.
pub open spec fn percent_encode(s: Seq<u8>, enc: Seq<bool>) -> Seq<u8>
    decreases s.len(),
{
    if s.len() == 0 {
        Seq::empty()
    } else {
        (if enc[0] { seq![37u8, hex_digit(s[0] / 16), hex_digit(s[0] % 16)] } else { seq![s[0]] })
            + percent_encode(s.drop_first(), enc.drop_first())
    }
}

/// Decoding does not look back: after any prefix, it goes on as on the rest.
proof fn lemma_percent_decode_shift(p: Seq<u8>, r: Seq<u8>, j: int)
    requires
        0 <= j <= r.len(),
    ensures
        percent_decode_from(p + r, p.len() + j) == percent_decode_from(r, j),
    decreases r.len() - j,
{
    let s = p + r;
    let i = p.len() + j;
    if j < r.len() {
        assert(s[i] == r[j]);
        assert(j + 1 < r.len() ==> s[i + 1] == r[j + 1]);
        assert(j + 2 < r.len() ==> s[i + 2] == r[j + 2]);
        if r[j] == 37 {
            if j + 3 <= r.len() {
                lemma_percent_decode_shift(p, r, j + 3);
            }
        } else {
            lemma_percent_decode_shift(p, r, j + 1);
        }
    }
}

/// Percent-decoding undoes percent-encoding: whichever bytes were encoded
/// (every `%` among them), decoding gives back each byte as the character of
/// that code.
pub proof fn law_percent_decode_round_trip(s: Seq<u8>, enc: Seq<bool>)
    requires
        enc.len() == s.len(),
        forall|i: int| 0 <= i < s.len() && s[i] == 37 ==> #[trigger] enc[i],
    ensures
        percent_decode_from(percent_encode(s, enc), 0) == s.map_values(|b: u8| b as char),
    decreases s.len(),
{
    if s.len() == 0 {
        assert(s.map_values(|b: u8| b as char) =~= Seq::<char>::empty());
    } else {
        let t = s.drop_first();
        let e = enc.drop_first();
        assert forall|i: int| 0 <= i < t.len() && t[i] == 37 implies #[trigger] e[i] by {
            assert(t[i] == s[i + 1] && e[i] == enc[i + 1]);
        }
        law_percent_decode_round_trip(t, e);
        let rest = percent_encode(t, e);
        let b = s[0];
        let unit: Seq<u8> = if enc[0] { seq![37u8, hex_digit(b / 16), hex_digit(b % 16)] } else { seq![b] };
        let all = unit + rest;
        assert(percent_encode(s, enc) == all);
        lemma_percent_decode_shift(unit, rest, 0);
        if enc[0] {
            assert(all[0] == 37 && all[1] == hex_digit(b / 16) && all[2] == hex_digit(b % 16));
            assert(spec_hex_val(hex_digit(b / 16)) == Some((b / 16) as u8));
            assert(spec_hex_val(hex_digit(b % 16)) == Some((b % 16) as u8));
            assert(((b / 16) as u8 * 16 + (b % 16) as u8) as u8 == b);
        } else {
            assert(all[0] == b);
        }
        assert(s.map_values(|b: u8| b as char) =~= seq![b as char] + t.map_values(|b: u8| b as char));
    }
}

/// ASCII text encodes to UTF-8 one byte per character, each its code.
proof fn lemma_encode_ascii(s: Seq<char>)
    requires
        forall|i: int| 0 <= i < s.len() ==> (#[trigger] s[i] as u32) < 128,
    ensures
        encode_utf8(s) == s.map_values(|c: char| (c as u32) as u8),
    decreases s.len(),
{
    if s.len() == 0 {
        assert(encode_utf8(s) =~= s.map_values(|c: char| (c as u32) as u8));
    } else {
        let t = s.drop_first();
        assert forall|i: int| 0 <= i < t.len() implies (#[trigger] t[i] as u32) < 128 by {
            assert(t[i] == s[i + 1]);
        }
        lemma_encode_ascii(t);
        let v: u32 = s[0] as u32;
        assert(v < 128);
        assert((v & 0x7F) == v) by (bit_vector)
            requires
                v < 128,
        ;
        assert(encode_scalar(v) =~= seq![v as u8]);
        assert(s.map_values(|c: char| (c as u32) as u8) =~= seq![(s[0] as u32) as u8] + t.map_values(|c: char| (c as u32) as u8));
    }
}

/// Percent-encoding ASCII bytes gives ASCII bytes.
proof fn lemma_percent_encode_ascii(b: Seq<u8>, enc: Seq<bool>)
    requires
        enc.len() == b.len(),
        forall|i: int| 0 <= i < b.len() ==> #[trigger] b[i] < 128,
    ensures
        forall|i: int| 0 <= i < percent_encode(b, enc).len() ==> #[trigger] percent_encode(b, enc)[i] < 128,
    decreases b.len(),
{
    if b.len() > 0 {
        let t = b.drop_first();
        assert forall|i: int| 0 <= i < t.len() implies #[trigger] t[i] < 128 by {
            assert(t[i] == b[i + 1]);
        }
        lemma_percent_encode_ascii(t, enc.drop_first());
        let rest = percent_encode(t, enc.drop_first());
        let unit: Seq<u8> = if enc[0] { seq![37u8, hex_digit(b[0] / 16), hex_digit(b[0] % 16)] } else { seq![b[0]] };
        assert(percent_encode(b, enc) == unit + rest);
        assert forall|i: int| 0 <= i < (unit + rest).len() implies #[trigger] (unit + rest)[i] < 128 by {
            if i >= unit.len() {
                assert((unit + rest)[i] == rest[i - unit.len()]);
            }
        }
    }
}

/// ASCII text (given by its character codes) written percent-encoded, some
/// characters as `%XY` and every `%` among them, decodes back to the text:
/// `percent_decode` of the written string gives the string.
pub proof fn law_percent_decode_ascii_text(codes: Seq<u8>, enc: Seq<bool>)
    requires
        enc.len() == codes.len(),
        forall|i: int| 0 <= i < codes.len() ==> #[trigger] codes[i] < 128,
        forall|i: int| 0 <= i < codes.len() && codes[i] == 37 ==> #[trigger] enc[i],
    ensures
        ({
            let written = percent_encode(codes, enc).map_values(|b: u8| b as char);
            percent_decode_from(encode_utf8(written), 0) == codes.map_values(|b: u8| b as char)
        }),
{
    let coded = percent_encode(codes, enc);
    lemma_percent_encode_ascii(codes, enc);
    let written = coded.map_values(|b: u8| b as char);
    assert forall|i: int| 0 <= i < written.len() implies (#[trigger] written[i] as u32) < 128 by {
        assert(coded[i] < 128);
    }
    lemma_encode_ascii(written);
    let back = written.map_values(|c: char| (c as u32) as u8);
    assert forall|i: int| 0 <= i < coded.len() implies #[trigger] back[i] == coded[i] by {
        assert(written[i] == coded[i] as char);
    }
    assert(back =~= coded);
    law_percent_decode_round_trip(codes, enc);
}

} // verus!
