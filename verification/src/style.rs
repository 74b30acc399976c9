//! Theme style strings: space-separated SGR tokens turned into the escape
//! sequences that start them.

use vstd::prelude::*;

use crate::ansi::{
    append_bytes, bold, decimal, dim, push_decimal, reverse_video, seq_bold, seq_dim,
    seq_reverse_video,
};
use crate::text::{chars_of, first_ws_from, is_whitespace, spec_is_whitespace, str_eq, string_from_chars};

verus! {

/// The whitespace-separated words of `s` from `from` on (`str::split_whitespace`).
pub open spec fn words_from(s: Seq<char>, from: int) -> Seq<Seq<char>>
    decreases s.len() - from,
{
    if from < 0 || from >= s.len() {
        Seq::empty()
    } else if spec_is_whitespace(s[from]) {
        words_from(s, from + 1)
    } else {
        let e = first_ws_from(s, from + 1);
        if e <= from || e > s.len() {
            Seq::empty()
        } else {
            seq![s.subrange(from, e)] + words_from(s, e)
        }
    }
}

/// The value of a string of ASCII digits.
pub open spec fn digits_value(d: Seq<char>) -> nat
    decreases d.len(),
{
    if d.len() == 0 {
        0
    } else {
        digits_value(d.drop_last()) * 10 + (d.last() as nat - '0' as nat) as nat
    }
}

/// A 256-color index: one or more ASCII digits with a value of at most 255.
pub open spec fn color_index(d: Seq<char>) -> Option<nat> {
    if d.len() > 0 && (forall|i: int| 0 <= i < d.len() ==> '0' <= #[trigger] d[i] <= '9') && digits_value(d) <= 255 {
        Some(digits_value(d))
    } else {
        None
    }
}

/// The underline style.
pub open spec fn seq_underline() -> Seq<u8> {
    seq![27u8, 91, 52, 109]
}

/// A 256-color foreground (`layer` 51, `3`) or background (`layer` 52, `4`).
pub open spec fn seq_color(layer: u8, n: nat) -> Seq<u8> {
    seq![27u8, 91, layer, 56, 59, 53, 59] + decimal(n) + seq![109u8]
}

/// The escape sequence a style token stands for: `bold`, `dim`, `underline`,
/// `reverse`, `fg:N` and `bg:N` (N a 256-color index).
pub open spec fn style_token(t: Seq<char>) -> Option<Seq<u8>> {
    if t == "bold"@ {
        Some(seq_bold())
    } else if t == "dim"@ {
        Some(seq_dim())
    } else if t == "underline"@ {
        Some(seq_underline())
    } else if t == "reverse"@ {
        Some(seq_reverse_video())
    } else if t.len() >= 3 && t.take(3) == "fg:"@ && color_index(t.skip(3)) is Some {
        Some(seq_color(51, color_index(t.skip(3)).unwrap()))
    } else if t.len() >= 3 && t.take(3) == "bg:"@ && color_index(t.skip(3)) is Some {
        Some(seq_color(52, color_index(t.skip(3)).unwrap()))
    } else {
        None
    }
}

/// The sequences of the tokens, in order, or the first token that is not
/// a style.
pub open spec fn style_tokens(tokens: Seq<Seq<char>>) -> Result<Seq<u8>, Seq<char>>
    decreases tokens.len(),
{
    if tokens.len() == 0 {
        Ok(Seq::empty())
    } else {
        match style_tokens(tokens.drop_last()) {
            Err(e) => Err(e),
            Ok(b) => match style_token(tokens.last()) {
                Some(t) => Ok(b + t),
                None => Err(tokens.last()),
            },
        }
    }
}

/// A style string's escape sequences (see [`style_tokens`]).
pub open spec fn spec_parse_style(s: Seq<char>) -> Result<Seq<u8>, Seq<char>> {
    style_tokens(words_from(s, 0))
}

/// A token that is not a style.
#[derive(Debug, Clone, PartialEq, Eq)]
pub struct StyleError {
    pub token: String,
}

/// The characters of `v[lo..hi]`.
fn chars_range(v: &Vec<char>, lo: usize, hi: usize) -> (r: Vec<char>)
    requires
        lo <= hi <= v@.len(),
    ensures
        r@ == v@.subrange(lo as int, hi as int),
{
    let mut r: Vec<char> = Vec::new();
    crate::text::push_chars(&mut r, v, lo, hi);
    assert(r@ =~= v@.subrange(lo as int, hi as int));
    r
}

/// The color index of `d[3..]`, if it is one.
fn parse_color_index(d: &Vec<char>) -> (r: Option<u32>)
    requires
        d@.len() >= 3,
    ensures
        match r {
            Some(n) => color_index(d@.skip(3)) == Some(n as nat),
            None => color_index(d@.skip(3)) is None,
        },
{
    let ghost t = d@.skip(3);
    let n = d.len();
    if n == 3 {
        return None;
    }
    let mut v: u32 = 0;
    let mut i: usize = 3;
    while i < n
        invariant
            3 <= i <= n,
            n == d@.len(),
            t == d@.skip(3),
            v as nat == digits_value(t.take(i - 3)),
            v <= 255,
            forall|k: int| 0 <= k < i - 3 ==> '0' <= #[trigger] t[k] <= '9',
        decreases n - i,
    {
        let c = d[i];
        assert(t[i - 3] == c);
        if c < '0' || c > '9' {
            return None;
        }
        let digit = (c as u32) - ('0' as u32);
        assert(t.take(i - 3 + 1).drop_last() =~= t.take(i - 3));
        if v * 10 + digit > 255 {
            proof {
                lemma_digits_value_prefix(t, i - 3 + 1);
            }
            return None;
        }
        v = v * 10 + digit;
        i = i + 1;
    }
    assert(t.take(n - 3) =~= t);
    Some(v)
}

/// The value of a digit string is at least that of any prefix.
proof fn lemma_digits_value_prefix(t: Seq<char>, k: int)
    requires
        0 <= k <= t.len(),
    ensures
        digits_value(t.take(k)) <= digits_value(t),
    decreases t.len() - k,
{
    if k < t.len() {
        lemma_digits_value_prefix(t, k + 1);
        assert(t.take(k + 1).drop_last() =~= t.take(k));
        assert(t.take(t.len() as int) =~= t);
    } else {
        assert(t.take(k) =~= t);
    }
}

/// Whether `v` starts with the three characters `a`, `b`, `c`.
fn starts_with3(v: &Vec<char>, a: char, b: char, c: char) -> (r: bool)
    requires
        v@.len() >= 3,
    ensures
        r == (v@.take(3) == seq![a, b, c]),
{
    let r = v[0] == a && v[1] == b && v[2] == c;
    proof {
        if r {
            assert(v@.take(3) =~= seq![a, b, c]);
        } else if v[0] != a {
            assert(v@.take(3)[0] != seq![a, b, c][0]);
        } else if v[1] != b {
            assert(v@.take(3)[1] != seq![a, b, c][1]);
        } else {
            assert(v@.take(3)[2] != seq![a, b, c][2]);
        }
    }
    r
}

/// Appends the escape sequence of a style token, or tells that it is none.
fn push_style_token(buf: &mut Vec<u8>, token: &Vec<char>) -> (ok: bool)
    ensures
        match style_token(token@) {
            Some(b) => ok && final(buf)@ == old(buf)@ + b,
            None => !ok && final(buf)@ == old(buf)@,
        },
{
    let s = string_from_chars(token.as_slice());
    proof {
        reveal_strlit("fg:");
        reveal_strlit("bg:");
    }
    if str_eq(s.as_str(), "bold") {
        bold(buf);
        return true;
    }
    if str_eq(s.as_str(), "dim") {
        dim(buf);
        return true;
    }
    if str_eq(s.as_str(), "underline") {
        let u = vec![27u8, 91, 52, 109];
        append_bytes(buf, u.as_slice());
        assert(u@ =~= seq_underline());
        return true;
    }
    if str_eq(s.as_str(), "reverse") {
        reverse_video(buf);
        return true;
    }
    if token.len() >= 3 {
        let fg = starts_with3(token, 'f', 'g', ':');
        let bg = starts_with3(token, 'b', 'g', ':');
        assert(seq!['f', 'g', ':'] =~= "fg:"@);
        assert(seq!['b', 'g', ':'] =~= "bg:"@);
        if fg || bg {
            match parse_color_index(token) {
                Some(n) => {
                    let layer: u8 = if fg { 51 } else { 52 };
                    let head = vec![27u8, 91, layer, 56, 59, 53, 59];
                    append_bytes(buf, head.as_slice());
                    push_decimal(buf, n);
                    buf.push(109);
                    assert(buf@ =~= old(buf)@ + seq_color(layer, n as nat));
                    return true;
                },
                None => {
                    return false;
                },
            }
        }
    }
    false
}

/// Parse a style string into the escape sequences that start it; the first
/// token that is not a style is the error (see [`spec_parse_style`]).
pub fn parse_style(style: &str) -> (r: Result<Vec<u8>, StyleError>)
    ensures
        match r {
            Ok(b) => spec_parse_style(style@) == Ok::<Seq<u8>, Seq<char>>(b@),
            Err(e) => spec_parse_style(style@) == Err::<Seq<u8>, Seq<char>>(e.token@),
        },
{
    let cs = chars_of(style);
    let n = cs.len();
    let mut out: Vec<u8> = Vec::new();
    let mut i: usize = 0;
    let ghost mut done: Seq<Seq<char>> = Seq::empty();
    assert(words_from(cs@, 0) == done + words_from(cs@, 0));
    while i < n
        invariant
            i <= n,
            n == cs@.len(),
            cs@ == style@,
            words_from(cs@, 0) == done + words_from(cs@, i as int),
            style_tokens(done) == Ok::<Seq<u8>, Seq<char>>(out@),
        decreases n - i,
    {
        if is_whitespace(cs[i]) {
            i = i + 1;
            continue;
        }
        let mut e = i + 1;
        while e < n && !is_whitespace(cs[e])
            invariant
                i < e <= n,
                n == cs@.len(),
                first_ws_from(cs@, i + 1) == first_ws_from(cs@, e as int),
            decreases n - e,
        {
            e = e + 1;
        }
        let token = chars_range(&cs, i, e);
        proof {
            assert(words_from(cs@, i as int) == seq![token@] + words_from(cs@, e as int));
            assert(done + words_from(cs@, i as int) =~= done.push(token@) + words_from(cs@, e as int));
            assert(done.push(token@).drop_last() =~= done);
        }
        let ghost before = out@;
        if !push_style_token(&mut out, &token) {
            proof {
                lemma_style_tokens_error_sticks(done.push(token@), words_from(cs@, e as int));
                assert(done.push(token@) + words_from(cs@, e as int) == words_from(cs@, 0));
            }
            return Err(StyleError { token: string_from_chars(token.as_slice()) });
        }
        proof {
            done = done.push(token@);
        }
        i = e;
    }
    assert(words_from(cs@, n as int) =~= Seq::<Seq<char>>::empty());
    assert(done + Seq::<Seq<char>>::empty() =~= done);
    Ok(out)
}

/// Once a token fails, later tokens do not change the error.
proof fn lemma_style_tokens_error_sticks(a: Seq<Seq<char>>, b: Seq<Seq<char>>)
    requires
        style_tokens(a) is Err,
    ensures
        style_tokens(a + b) == style_tokens(a),
    decreases b.len(),
{
    if b.len() > 0 {
        lemma_style_tokens_error_sticks(a, b.drop_last());
        assert((a + b).drop_last() =~= a + b.drop_last());
    } else {
        assert(a + b =~= a);
    }
}

} // verus!
