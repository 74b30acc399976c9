//! Character and string helpers shared by the parsers and renderers.

use vstd::prelude::*;

verus! {

/// ASCII whitespace as `char::is_ascii_whitespace` defines it:
/// space, tab, line feed, form feed and carriage return.
pub open spec fn spec_is_ascii_ws(c: char) -> bool {
    c == ' ' || c == '\t' || c == '\n' || c == '\x0C' || c == '\r'
}

/// Executable ASCII-whitespace test.
pub fn is_ascii_ws(c: char) -> (r: bool)
    ensures
        r == spec_is_ascii_ws(c),
{
    c == ' ' || c == '\t' || c == '\n' || c == '\x0C' || c == '\r'
}

/// The characters of a string slice, in order.
pub fn chars_of(s: &str) -> (v: Vec<char>)
    ensures
        v@ == s@,
{
    let mut v: Vec<char> = Vec::new();
    for c in it: s.chars()
        invariant
            v@ == it.seq().take(it.index() as int),
            it.seq() == s@,
    {
        v.push(c);
    }
    v
}

/// Appends `src[lo..hi]` to `dst`.
pub fn push_chars(dst: &mut Vec<char>, src: &Vec<char>, lo: usize, hi: usize)
    requires
        lo <= hi <= src@.len(),
    ensures
        final(dst)@ == old(dst)@ + src@.subrange(lo as int, hi as int),
{
    let mut i = lo;
    while i < hi
        invariant
            lo <= i <= hi <= src@.len(),
            dst@ == old(dst)@ + src@.subrange(lo as int, i as int),
        decreases hi - i,
    {
        dst.push(src[i]);
        assert(src@.subrange(lo as int, i + 1) =~= src@.subrange(lo as int, i as int).push(src@[i as int]));
        i = i + 1;
    }
}

/// Appends the characters of `s` to `dst`.
pub fn push_str_chars(dst: &mut Vec<char>, s: &str)
    ensures
        final(dst)@ == old(dst)@ + s@,
{
    let cs = chars_of(s);
    push_chars(dst, &cs, 0, cs.len());
    assert(cs@.subrange(0, cs@.len() as int) =~= cs@);
}

} // verus!

verus! {

/// `String::push`: appends one character at the end of the string.
/// Trusted to leave the existing characters as they were and add `c` after them.
#[verifier::external_body]
pub(crate) fn push_char(s: &mut String, c: char)
    ensures
        final(s)@ == old(s)@.push(c),
{
    s.push(c);
}

/// A new string holding exactly the given characters.
pub fn string_from_chars(cs: &[char]) -> (s: String)
    ensures
        s@ == cs@,
{
    let mut s = String::new();
    let n = cs.len();
    for i in 0..n
        invariant
            n == cs@.len(),
            s@ == cs@.take(i as int),
    {
        push_char(&mut s, cs[i]);
        assert(cs@.take(i + 1) =~= cs@.take(i as int).push(cs@[i as int]));
    }
    assert(cs@.take(n as int) =~= cs@);
    s
}

} // verus!

verus! {

/// The bytes `v[lo..hi]` as a new vector.
pub fn copy_range(v: &[u8], lo: usize, hi: usize) -> (r: Vec<u8>)
    requires
        lo <= hi <= v@.len(),
    ensures
        r@ == v@.subrange(lo as int, hi as int),
{
    let mut r: Vec<u8> = Vec::new();
    let mut i = lo;
    while i < hi
        invariant
            lo <= i <= hi <= v@.len(),
            r@ == v@.subrange(lo as int, i as int),
        decreases hi - i,
    {
        r.push(v[i]);
        assert(v@.subrange(lo as int, i + 1) =~= v@.subrange(lo as int, i as int).push(v@[i as int]));
        i = i + 1;
    }
    r
}

/// Value of a string of ASCII decimal digits (most significant first).
pub open spec fn decimal_value(d: Seq<u8>) -> nat
    decreases d.len(),
{
    if d.len() == 0 {
        0
    } else {
        decimal_value(d.drop_last()) * 10 + (d.last() - 48) as nat
    }
}

/// Every byte is an ASCII digit.
pub open spec fn all_digits(d: Seq<u8>) -> bool {
    forall|i: int| 0 <= i < d.len() ==> 48 <= #[trigger] d[i] <= 57
}

/// How the standard library parses an unsigned integer no larger than `max`
/// from ASCII text: an optional single leading `+`, then one or more decimal
/// digits; anything else, or a value above `max`, is an error.
pub open spec fn spec_parse_unsigned(s: Seq<u8>, max: nat) -> Option<nat> {
    let digits = if s.len() > 0 && s[0] == 43 { s.drop_first() } else { s };
    if s.len() == 0 || digits.len() == 0 || !all_digits(digits) || decimal_value(digits) > max {
        None
    } else {
        Some(decimal_value(digits))
    }
}

/// Appending digits never makes a decimal value smaller.
pub proof fn lemma_decimal_value_prefix(d: Seq<u8>, k: int)
    requires
        0 <= k <= d.len(),
        all_digits(d),
    ensures
        decimal_value(d.take(k)) <= decimal_value(d),
    decreases d.len() - k,
{
    if k < d.len() {
        lemma_decimal_value_prefix(d, k + 1);
        assert(d.take(k + 1).drop_last() =~= d.take(k));
        assert(d.take(k + 1).last() == d[k]);
        assert(48 <= d[k]);
    } else {
        assert(d.take(k) =~= d);
    }
}

/// Parses `s[lo..hi]` as an unsigned integer of at most `max`, as
/// `str::parse` does for unsigned types.
pub fn parse_unsigned(s: &[u8], lo: usize, hi: usize, max: u64) -> (r: Option<u64>)
    requires
        lo <= hi <= s@.len(),
    ensures
        match spec_parse_unsigned(s@.subrange(lo as int, hi as int), max as nat) {
            Some(v) => r == Some(v as u64),
            None => r is None,
        },
{
    let ghost t = s@.subrange(lo as int, hi as int);
    if lo == hi {
        return None;
    }
    let start = if s[lo] == 43 { lo + 1 } else { lo };
    assert(t[0] == s@[lo as int]);
    let ghost digits = s@.subrange(start as int, hi as int);
    proof {
        if s[lo as int] == 43 {
            assert(digits =~= t.drop_first());
        } else {
            assert(digits =~= t);
        }
    }
    if start == hi {
        return None;
    }
    let mut acc: u64 = 0;
    let mut i = start;
    while i < hi
        invariant
            lo <= start <= i <= hi <= s@.len(),
            digits == s@.subrange(start as int, hi as int),
            t == s@.subrange(lo as int, hi as int),
            t.len() > 0,
            digits.len() > 0,
            digits == (if t.len() > 0 && t[0] == 43 { t.drop_first() } else { t }),
            all_digits(digits.take(i - start)),
            acc as nat == decimal_value(digits.take(i - start)),
            acc <= max,
        decreases hi - i,
    {
        let b = s[i];
        proof {
            assert(digits.take(i + 1 - start).drop_last() =~= digits.take(i - start));
            assert(digits.take(i + 1 - start).last() == b);
        }
        if b < 48 || b > 57 {
            proof {
                assert(!all_digits(digits)) by {
                    assert(digits[i - start] == b);
                }
            }
            return None;
        }
        let next: u128 = acc as u128 * 10 + (b - 48) as u128;
        if next > max as u128 {
            proof {
                if all_digits(digits) {
                    lemma_decimal_value_prefix(digits, i + 1 - start);
                }
            }
            return None;
        }
        acc = next as u64;
        i = i + 1;
    }
    proof {
        assert(digits.take(hi - start) =~= digits);
    }
    Some(acc)
}

} // verus!

verus! {

/// Character-wise equality of two string slices.
pub fn str_eq(a: &str, b: &str) -> (r: bool)
    ensures
        r == (a@ == b@),
{
    let x = chars_of(a);
    let y = chars_of(b);
    if x.len() != y.len() {
        return false;
    }
    let n = x.len();
    for i in 0..n
        invariant
            n == x@.len(),
            n == y@.len(),
            x@ == a@,
            y@ == b@,
            forall|j: int| 0 <= j < i ==> x@[j] == y@[j],
    {
        if x[i] != y[i] {
            return false;
        }
    }
    assert(x@ =~= y@);
    true
}

} // verus!

verus! {

/// The first `n` characters of `v`.
pub fn take_chars(v: &Vec<char>, n: usize) -> (r: Vec<char>)
    requires
        n <= v@.len(),
    ensures
        r@ == v@.take(n as int),
{
    let mut r: Vec<char> = Vec::new();
    for i in 0..n
        invariant
            n <= v@.len(),
            r@ == v@.take(i as int),
    {
        r.push(v[i]);
        assert(v@.take(i + 1) =~= v@.take(i as int).push(v@[i as int]));
    }
    r
}

} // verus!

verus! {

/// UTF-8 encoding distributes over concatenation.
pub proof fn lemma_encode_utf8_concat(a: Seq<char>, b: Seq<char>)
    ensures
        vstd::utf8::encode_utf8(a + b) == vstd::utf8::encode_utf8(a) + vstd::utf8::encode_utf8(b),
    decreases a.len(),
{
    if a.len() == 0 {
        assert(a + b =~= b);
        assert(vstd::utf8::encode_utf8(a) =~= Seq::<u8>::empty());
        assert(vstd::utf8::encode_utf8(b) =~= Seq::<u8>::empty() + vstd::utf8::encode_utf8(b));
    } else {
        lemma_encode_utf8_concat(a.drop_first(), b);
        assert((a + b).drop_first() =~= a.drop_first() + b);
        assert((a + b)[0] == a[0]);
        assert(vstd::utf8::encode_utf8(a + b) =~= vstd::utf8::encode_utf8(a) + vstd::utf8::encode_utf8(b));
    }
}

/// A prefix of a string encodes to no more bytes than the string.
pub proof fn lemma_encode_utf8_prefix_len(s: Seq<char>, k: int)
    requires
        0 <= k <= s.len(),
    ensures
        vstd::utf8::encode_utf8(s.take(k)).len() <= vstd::utf8::encode_utf8(s).len(),
{
    lemma_encode_utf8_concat(s.take(k), s.skip(k));
    assert(s.take(k) + s.skip(k) =~= s);
}

} // verus!

verus! {

/// Unicode `White_Space`, as `char::is_whitespace` defines it.
pub open spec fn spec_is_whitespace(c: char) -> bool {
    ('\t' <= c && c <= '\r') || c == ' ' || c == '\u{85}' || c == '\u{a0}' || c == '\u{1680}'
        || ('\u{2000}' <= c && c <= '\u{200a}') || c == '\u{2028}' || c == '\u{2029}'
        || c == '\u{202f}' || c == '\u{205f}' || c == '\u{3000}'
}

/// Executable Unicode whitespace test.
pub fn is_whitespace(c: char) -> (r: bool)
    ensures
        r == spec_is_whitespace(c),
{
    ('\t' <= c && c <= '\r') || c == ' ' || c == '\u{85}' || c == '\u{a0}' || c == '\u{1680}'
        || ('\u{2000}' <= c && c <= '\u{200a}') || c == '\u{2028}' || c == '\u{2029}'
        || c == '\u{202f}' || c == '\u{205f}' || c == '\u{3000}'
}

/// Index of the first whitespace character at or after `from` (or the length).
pub open spec fn first_ws_from(s: Seq<char>, from: int) -> int
    decreases s.len() - from,
{
    if from < 0 || from >= s.len() || spec_is_whitespace(s[from]) {
        from
    } else {
        first_ws_from(s, from + 1)
    }
}

/// Number of leading whitespace characters of `s[from..]`.
pub open spec fn leading_ws(s: Seq<char>, from: int) -> int
    decreases s.len() - from,
{
    if from < 0 || from >= s.len() || !spec_is_whitespace(s[from]) {
        0
    } else {
        1 + leading_ws(s, from + 1)
    }
}

/// Number of trailing whitespace characters of `s[..to]`.
pub open spec fn trailing_ws(s: Seq<char>, to: int) -> int
    decreases to,
{
    if to <= 0 || to > s.len() || !spec_is_whitespace(s[to - 1]) {
        0
    } else {
        1 + trailing_ws(s, to - 1)
    }
}

/// `s` without leading and trailing whitespace (`str::trim`).
pub open spec fn spec_trim(s: Seq<char>) -> Seq<char> {
    let lo = leading_ws(s, 0);
    if lo == s.len() {
        Seq::empty()
    } else {
        s.subrange(lo, s.len() - trailing_ws(s, s.len() as int))
    }
}

/// Whitespace counts stay within the sequence.
pub proof fn lemma_ws_bounds(s: Seq<char>, from: int, to: int)
    requires
        0 <= from <= s.len(),
        0 <= to <= s.len(),
    ensures
        0 <= leading_ws(s, from) <= s.len() - from,
        0 <= trailing_ws(s, to) <= to,
    decreases s.len() - from + to,
{
    if from < s.len() && spec_is_whitespace(s[from]) {
        lemma_ws_bounds(s, from + 1, to);
    }
    if to > 0 && spec_is_whitespace(s[to - 1]) {
        lemma_ws_bounds(s, from, to - 1);
    }
}

/// When some character is not whitespace, trimming both ends leaves it.
pub proof fn lemma_trim_nonempty(s: Seq<char>)
    requires
        leading_ws(s, 0) < s.len(),
    ensures
        leading_ws(s, 0) < s.len() - trailing_ws(s, s.len() as int),
{
    lemma_ws_bounds(s, 0, s.len() as int);
    let lo = leading_ws(s, 0);
    lemma_leading_ws_stops(s, 0);
    lemma_trailing_ws_keeps(s, s.len() as int, lo);
}

/// The first non-whitespace character after the leading whitespace.
pub proof fn lemma_leading_ws_stops(s: Seq<char>, from: int)
    requires
        0 <= from <= s.len(),
        from + leading_ws(s, from) < s.len(),
    ensures
        !spec_is_whitespace(s[from + leading_ws(s, from)]),
    decreases s.len() - from,
{
    if from < s.len() && spec_is_whitespace(s[from]) {
        lemma_leading_ws_stops(s, from + 1);
    }
}

/// Trailing whitespace does not reach back past a non-whitespace character.
pub proof fn lemma_trailing_ws_keeps(s: Seq<char>, to: int, k: int)
    requires
        0 <= k < to <= s.len(),
        !spec_is_whitespace(s[k]),
    ensures
        to - trailing_ws(s, to) > k,
    decreases to,
{
    if spec_is_whitespace(s[to - 1]) {
        assert(to - 1 != k);
        lemma_trailing_ws_keeps(s, to - 1, k);
    }
}

/// `s.trim()` as characters.
pub fn trim_chars(s: &Vec<char>) -> (r: Vec<char>)
    ensures
        r@ == spec_trim(s@),
{
    let n = s.len();
    let mut lo: usize = 0;
    while lo < n && is_whitespace(s[lo])
        invariant
            lo <= n,
            n == s@.len(),
            leading_ws(s@, 0) == lo + leading_ws(s@, lo as int),
        decreases n - lo,
    {
        lo = lo + 1;
    }
    if lo == n {
        return Vec::new();
    }
    let mut hi: usize = n;
    while hi > lo && is_whitespace(s[hi - 1])
        invariant
            lo < n,
            lo <= hi <= n,
            n == s@.len(),
            trailing_ws(s@, n as int) == (n - hi) + trailing_ws(s@, hi as int),
            lo == leading_ws(s@, 0),
        decreases hi,
    {
        hi = hi - 1;
    }
    proof {
        lemma_ws_bounds(s@, 0, n as int);
        lemma_ws_bounds(s@, 0, hi as int);
        lemma_trim_nonempty(s@);
        assert(hi > lo);
        assert(!spec_is_whitespace(s@[hi - 1]));
        assert(trailing_ws(s@, hi as int) == 0);
        assert(hi == n - trailing_ws(s@, n as int));
    }
    let mut r: Vec<char> = Vec::new();
    let mut i = lo;
    while i < hi
        invariant
            lo <= i <= hi <= n,
            n == s@.len(),
            r@ == s@.subrange(lo as int, i as int),
        decreases hi - i,
    {
        r.push(s[i]);
        assert(s@.subrange(lo as int, i + 1) =~= s@.subrange(lo as int, i as int).push(s@[i as int]));
        i = i + 1;
    }
    r
}

} // verus!

verus! {

/// What `String::from_utf8_lossy` returns for the given bytes.
pub uninterp spec fn spec_utf8_lossy(bytes: Seq<u8>) -> Seq<char>;

/// `String::from_utf8_lossy(bytes).into_owned()`: decodes UTF-8, putting
/// U+FFFD in place of invalid sequences. Trusted: the result is the named
/// decoding of exactly these bytes, and valid UTF-8 decodes unchanged. How
/// invalid sequences are replaced is left unsaid.
#[verifier::external_body]
pub(crate) fn utf8_lossy(bytes: &[u8]) -> (s: String)
    ensures
        s@ == spec_utf8_lossy(bytes@),
        vstd::utf8::valid_utf8(bytes@) ==> s@ == vstd::utf8::decode_utf8(bytes@),
{
    String::from_utf8_lossy(bytes).into_owned()
}

} // verus!

verus! {

/// Trailing whitespace stops at a character that is not whitespace.
pub proof fn lemma_trailing_ws_stops(s: Seq<char>, to: int)
    requires
        0 <= to <= s.len(),
        to - trailing_ws(s, to) > 0,
    ensures
        !spec_is_whitespace(s[to - trailing_ws(s, to) - 1]),
    decreases to,
{
    if to > 0 && spec_is_whitespace(s[to - 1]) {
        lemma_trailing_ws_stops(s, to - 1);
    }
}

/// A trimmed string neither starts nor ends with whitespace.
pub proof fn lemma_trim_ends(t: Seq<char>)
    ensures
        spec_trim(t).len() > 0 ==> !spec_is_whitespace(spec_trim(t)[0])
            && !spec_is_whitespace(spec_trim(t).last()),
{
    lemma_ws_bounds(t, 0, t.len() as int);
    let lo = leading_ws(t, 0);
    if lo < t.len() {
        lemma_trim_nonempty(t);
        lemma_leading_ws_stops(t, 0);
        lemma_trailing_ws_stops(t, t.len() as int);
    }
}

/// Trimming a trimmed string followed by whitespace gives it back.
pub proof fn lemma_trim_after_newline(t: Seq<char>)
    ensures
        spec_trim(spec_trim(t) + seq!['\n']) == spec_trim(t),
{
    let s = spec_trim(t);
    let u = s + seq!['\n'];
    lemma_trim_ends(t);
    lemma_ws_bounds(t, 0, t.len() as int);
    if s.len() == 0 {
        assert(u =~= seq!['\n']);
        assert(leading_ws(u, 1) == 0);
        assert(leading_ws(u, 0) == 1);
        assert(spec_trim(u) =~= s);
    } else {
        assert(u[0] == s[0]);
        assert(leading_ws(u, 0) == 0);
        assert(u[u.len() - 2] == s.last());
        assert(trailing_ws(u, u.len() - 1) == 0);
        assert(trailing_ws(u, u.len() as int) == 1);
        assert(spec_trim(u) =~= s);
    }
}

} // verus!
