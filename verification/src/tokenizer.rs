//! Shell-aware tokenizer that handles quoting, pipes, and redirects.

use vstd::prelude::*;

use crate::text::{chars_of, is_ascii_ws, push_char, spec_is_ascii_ws};

verus! {

/// One token of a shell command line.
#[derive(Debug, Clone, PartialEq, Eq)]
pub enum Token {
    Word(String),
    /// `|`
    Pipe,
    /// `&&`
    And,
    /// `||`
    Or,
    /// `;`
    Semicolon,
    /// `<`
    RedirectIn,
    /// `>`
    RedirectOut,
    /// `>>`
    RedirectAppend,
    /// `&`
    Background,
}

/// Mathematical model of a [`Token`]: a word is its sequence of characters.
pub enum SpecToken {
    Word(Seq<char>),
    Pipe,
    And,
    Or,
    Semicolon,
    RedirectIn,
    RedirectOut,
    RedirectAppend,
    Background,
}

impl View for Token {
    type V = SpecToken;

    open spec fn view(&self) -> SpecToken {
        match self {
            Token::Word(w) => SpecToken::Word(w@),
            Token::Pipe => SpecToken::Pipe,
            Token::And => SpecToken::And,
            Token::Or => SpecToken::Or,
            Token::Semicolon => SpecToken::Semicolon,
            Token::RedirectIn => SpecToken::RedirectIn,
            Token::RedirectOut => SpecToken::RedirectOut,
            Token::RedirectAppend => SpecToken::RedirectAppend,
            Token::Background => SpecToken::Background,
        }
    }
}

/// The models of a sequence of tokens.
pub open spec fn tokens_view(ts: Seq<Token>) -> Seq<SpecToken> {
    ts.map_values(|t: Token| t@)
}

/// Whether the scan ended inside an unclosed quote, and which.
#[derive(Debug, Clone, Copy, PartialEq, Eq, Structural)]
pub enum QuoteState {
    Unquoted,
    SingleQuoted,
    DoubleQuoted,
}

/// The tokens of a command line and the quote state at its end.
pub struct TokenizeResult {
    pub tokens: Vec<Token>,
    pub quote_state: QuoteState,
}

/// Appends the pending word as a token unless it is empty.
pub open spec fn spec_flush(word: Seq<char>, tokens: Seq<SpecToken>) -> Seq<SpecToken> {
    if word.len() == 0 {
        tokens
    } else {
        tokens.push(SpecToken::Word(word))
    }
}

/// A character that a backslash escapes inside double quotes.
pub open spec fn dq_escapable(c: char) -> bool {
    c == '"' || c == '\\' || c == '$' || c == '`'
}

/// The scan of `input` from position `i`, in quote state `q`, with the pending
/// word `word` and the tokens found so far: the final tokens and quote state.
pub open spec fn tok_from(
    input: Seq<char>,
    i: int,
    q: QuoteState,
    word: Seq<char>,
    tokens: Seq<SpecToken>,
) -> (Seq<SpecToken>, QuoteState)
    decreases input.len() - i,
{
    if i < 0 || i >= input.len() {
        (spec_flush(word, tokens), q)
    } else {
        let ch = input[i];
        let has_next = i + 1 < input.len();
        let next = input[i + 1];
        match q {
            QuoteState::SingleQuoted => {
                if ch == '\'' {
                    tok_from(input, i + 1, QuoteState::Unquoted, word, tokens)
                } else {
                    tok_from(input, i + 1, q, word.push(ch), tokens)
                }
            },
            QuoteState::DoubleQuoted => {
                if ch == '"' {
                    tok_from(input, i + 1, QuoteState::Unquoted, word, tokens)
                } else if ch == '\\' {
                    if has_next {
                        if dq_escapable(next) {
                            tok_from(input, i + 2, q, word.push(next), tokens)
                        } else {
                            tok_from(input, i + 2, q, word.push('\\').push(next), tokens)
                        }
                    } else {
                        tok_from(input, i + 1, q, word.push('\\'), tokens)
                    }
                } else {
                    tok_from(input, i + 1, q, word.push(ch), tokens)
                }
            },
            QuoteState::Unquoted => {
                if ch == '\'' {
                    tok_from(input, i + 1, QuoteState::SingleQuoted, word, tokens)
                } else if ch == '"' {
                    tok_from(input, i + 1, QuoteState::DoubleQuoted, word, tokens)
                } else if ch == '\\' {
                    if has_next {
                        tok_from(input, i + 2, q, word.push(next), tokens)
                    } else {
                        tok_from(input, i + 1, q, word, tokens)
                    }
                } else if ch == '|' {
                    if has_next && next == '|' {
                        tok_from(input, i + 2, q, Seq::empty(), spec_flush(word, tokens).push(SpecToken::Or))
                    } else {
                        tok_from(input, i + 1, q, Seq::empty(), spec_flush(word, tokens).push(SpecToken::Pipe))
                    }
                } else if ch == '&' {
                    if has_next && next == '&' {
                        tok_from(input, i + 2, q, Seq::empty(), spec_flush(word, tokens).push(SpecToken::And))
                    } else {
                        tok_from(input, i + 1, q, Seq::empty(), spec_flush(word, tokens).push(SpecToken::Background))
                    }
                } else if ch == ';' {
                    tok_from(input, i + 1, q, Seq::empty(), spec_flush(word, tokens).push(SpecToken::Semicolon))
                } else if ch == '>' {
                    if has_next && next == '>' {
                        tok_from(input, i + 2, q, Seq::empty(), spec_flush(word, tokens).push(SpecToken::RedirectAppend))
                    } else {
                        tok_from(input, i + 1, q, Seq::empty(), spec_flush(word, tokens).push(SpecToken::RedirectOut))
                    }
                } else if ch == '<' {
                    tok_from(input, i + 1, q, Seq::empty(), spec_flush(word, tokens).push(SpecToken::RedirectIn))
                } else if spec_is_ascii_ws(ch) {
                    tok_from(input, i + 1, q, Seq::empty(), spec_flush(word, tokens))
                } else {
                    tok_from(input, i + 1, q, word.push(ch), tokens)
                }
            },
        }
    }
}

/// The tokens and the final quote state of a whole command line.
pub open spec fn spec_tokenize(input: Seq<char>) -> (Seq<SpecToken>, QuoteState) {
    tok_from(input, 0, QuoteState::Unquoted, Seq::empty(), Seq::empty())
}

/// Moves the pending word, if any, into `tokens` as a [`Token::Word`].
fn flush_word(word: &mut String, tokens: &mut Vec<Token>)
    ensures
        final(word)@ == Seq::<char>::empty(),
        tokens_view(final(tokens)@) == spec_flush(old(word)@, tokens_view(old(tokens)@)),
{
    if !word.as_str().is_empty() {
        let w = word.clone();
        tokens.push(Token::Word(w));
        proof {
            assert(tokens_view(tokens@) =~= tokens_view(old(tokens)@).push(SpecToken::Word(old(word)@)));
        }
    }
    *word = String::new();
}

/// Pushes an operator token onto `tokens`.
fn push_op(tokens: &mut Vec<Token>, t: Token)
    requires
        !(t is Word),
    ensures
        tokens_view(final(tokens)@) == tokens_view(old(tokens)@).push(t@),
{
    tokens.push(t);
    proof {
        assert(tokens_view(tokens@) =~= tokens_view(old(tokens)@).push(t@));
    }
}

/// Splits a command line into words and shell operators, honouring single
/// quotes, double quotes (with `\"`, `\\`, `\$`, `` \` `` escapes) and
/// backslash escapes outside quotes.
pub fn tokenize(input: &str) -> (r: TokenizeResult)
    ensures
        (tokens_view(r.tokens@), r.quote_state) == spec_tokenize(input@),
{
    let chars = chars_of(input);
    let n = chars.len();
    let mut tokens: Vec<Token> = Vec::new();
    let mut word = String::new();
    let mut q = QuoteState::Unquoted;
    let mut i: usize = 0;
    proof {
        assert(tokens_view(tokens@) =~= Seq::<SpecToken>::empty());
    }
    while i < n
        invariant
            n == chars@.len(),
            chars@ == input@,
            i <= n,
            tok_from(chars@, i as int, q, word@, tokens_view(tokens@)) == spec_tokenize(input@),
        decreases n - i,
    {
        let ch = chars[i];
        let has_next = i + 1 < n;
        match q {
            QuoteState::SingleQuoted => {
                if ch == '\'' {
                    q = QuoteState::Unquoted;
                } else {
                    push_char(&mut word, ch);
                }
                i = i + 1;
            },
            QuoteState::DoubleQuoted => {
                if ch == '"' {
                    q = QuoteState::Unquoted;
                    i = i + 1;
                } else if ch == '\\' {
                    if has_next {
                        let next = chars[i + 1];
                        if next == '"' || next == '\\' || next == '$' || next == '`' {
                            push_char(&mut word, next);
                        } else {
                            push_char(&mut word, '\\');
                            push_char(&mut word, next);
                        }
                        i = i + 2;
                    } else {
                        push_char(&mut word, '\\');
                        i = i + 1;
                    }
                } else {
                    push_char(&mut word, ch);
                    i = i + 1;
                }
            },
            QuoteState::Unquoted => {
                if ch == '\'' {
                    q = QuoteState::SingleQuoted;
                    i = i + 1;
                } else if ch == '"' {
                    q = QuoteState::DoubleQuoted;
                    i = i + 1;
                } else if ch == '\\' {
                    if has_next {
                        push_char(&mut word, chars[i + 1]);
                        i = i + 2;
                    } else {
                        i = i + 1;
                    }
                } else if ch == '|' {
                    flush_word(&mut word, &mut tokens);
                    if has_next && chars[i + 1] == '|' {
                        push_op(&mut tokens, Token::Or);
                        i = i + 2;
                    } else {
                        push_op(&mut tokens, Token::Pipe);
                        i = i + 1;
                    }
                } else if ch == '&' {
                    flush_word(&mut word, &mut tokens);
                    if has_next && chars[i + 1] == '&' {
                        push_op(&mut tokens, Token::And);
                        i = i + 2;
                    } else {
                        push_op(&mut tokens, Token::Background);
                        i = i + 1;
                    }
                } else if ch == ';' {
                    flush_word(&mut word, &mut tokens);
                    push_op(&mut tokens, Token::Semicolon);
                    i = i + 1;
                } else if ch == '>' {
                    flush_word(&mut word, &mut tokens);
                    if has_next && chars[i + 1] == '>' {
                        push_op(&mut tokens, Token::RedirectAppend);
                        i = i + 2;
                    } else {
                        push_op(&mut tokens, Token::RedirectOut);
                        i = i + 1;
                    }
                } else if ch == '<' {
                    flush_word(&mut word, &mut tokens);
                    push_op(&mut tokens, Token::RedirectIn);
                    i = i + 1;
                } else if is_ascii_ws(ch) {
                    flush_word(&mut word, &mut tokens);
                    i = i + 1;
                } else {
                    push_char(&mut word, ch);
                    i = i + 1;
                }
            },
        }
    }
    flush_word(&mut word, &mut tokens);
    TokenizeResult { tokens, quote_state: q }
}

/// One step of the scan at a character `ch` (with the following character
/// `next`, when `has_next`): how many characters it consumes, and the quote
/// state, pending word and tokens after it.
pub open spec fn tok_step(
    ch: char,
    has_next: bool,
    next: char,
    q: QuoteState,
    word: Seq<char>,
    tokens: Seq<SpecToken>,
) -> (int, QuoteState, Seq<char>, Seq<SpecToken>) {
    match q {
        QuoteState::SingleQuoted => {
            if ch == '\'' {
                (1, QuoteState::Unquoted, word, tokens)
            } else {
                (1, q, word.push(ch), tokens)
            }
        },
        QuoteState::DoubleQuoted => {
            if ch == '"' {
                (1, QuoteState::Unquoted, word, tokens)
            } else if ch == '\\' {
                if has_next {
                    if dq_escapable(next) {
                        (2, q, word.push(next), tokens)
                    } else {
                        (2, q, word.push('\\').push(next), tokens)
                    }
                } else {
                    (1, q, word.push('\\'), tokens)
                }
            } else {
                (1, q, word.push(ch), tokens)
            }
        },
        QuoteState::Unquoted => {
            if ch == '\'' {
                (1, QuoteState::SingleQuoted, word, tokens)
            } else if ch == '"' {
                (1, QuoteState::DoubleQuoted, word, tokens)
            } else if ch == '\\' {
                if has_next {
                    (2, q, word.push(next), tokens)
                } else {
                    (1, q, word, tokens)
                }
            } else if ch == '|' {
                if has_next && next == '|' {
                    (2, q, Seq::empty(), spec_flush(word, tokens).push(SpecToken::Or))
                } else {
                    (1, q, Seq::empty(), spec_flush(word, tokens).push(SpecToken::Pipe))
                }
            } else if ch == '&' {
                if has_next && next == '&' {
                    (2, q, Seq::empty(), spec_flush(word, tokens).push(SpecToken::And))
                } else {
                    (1, q, Seq::empty(), spec_flush(word, tokens).push(SpecToken::Background))
                }
            } else if ch == ';' {
                (1, q, Seq::empty(), spec_flush(word, tokens).push(SpecToken::Semicolon))
            } else if ch == '>' {
                if has_next && next == '>' {
                    (2, q, Seq::empty(), spec_flush(word, tokens).push(SpecToken::RedirectAppend))
                } else {
                    (1, q, Seq::empty(), spec_flush(word, tokens).push(SpecToken::RedirectOut))
                }
            } else if ch == '<' {
                (1, q, Seq::empty(), spec_flush(word, tokens).push(SpecToken::RedirectIn))
            } else if spec_is_ascii_ws(ch) {
                (1, q, Seq::empty(), spec_flush(word, tokens))
            } else {
                (1, q, word.push(ch), tokens)
            }
        },
    }
}

/// The scan goes on from where one step leaves it.
proof fn lemma_tok_step(input: Seq<char>, i: int, q: QuoteState, word: Seq<char>, tokens: Seq<SpecToken>)
    requires
        0 <= i < input.len(),
    ensures
        ({
            let st = tok_step(input[i], i + 1 < input.len(), input[i + 1], q, word, tokens);
            tok_from(input, i, q, word, tokens) == tok_from(input, i + st.0, st.1, st.2, st.3)
        }),
{
}

/// A step adds to the tokens it is given: with `pre` in front of them, the
/// same step gives the same result with `pre` in front.
proof fn lemma_tok_step_prefix(
    ch: char,
    has_next: bool,
    next: char,
    q: QuoteState,
    word: Seq<char>,
    pre: Seq<SpecToken>,
    tokens: Seq<SpecToken>,
)
    ensures
        ({
            let a = tok_step(ch, has_next, next, q, word, pre + tokens);
            let b = tok_step(ch, has_next, next, q, word, tokens);
            a.0 == b.0 && a.1 == b.1 && a.2 == b.2 && a.3 == pre + b.3
        }),
{
    assert(spec_flush(word, pre + tokens) =~= pre + spec_flush(word, tokens));
    assert forall|t: SpecToken| (pre + spec_flush(word, tokens)).push(t) =~= pre + spec_flush(word, tokens).push(t) by {}
}

/// Scanning `p + b` from inside `b` with `pre` in front of the tokens gives
/// `pre` followed by what scanning `b` alone gives.
proof fn lemma_tok_shift(
    p: Seq<char>,
    b: Seq<char>,
    j: int,
    q: QuoteState,
    word: Seq<char>,
    pre: Seq<SpecToken>,
    tokens: Seq<SpecToken>,
)
    requires
        0 <= j <= b.len(),
    ensures
        ({
            let r = tok_from(b, j, q, word, tokens);
            tok_from(p + b, p.len() + j, q, word, pre + tokens) == (pre + r.0, r.1)
        }),
    decreases b.len() - j,
{
    let s = p + b;
    if j == b.len() {
        assert(spec_flush(word, pre + tokens) =~= pre + spec_flush(word, tokens));
    } else {
        let i = p.len() + j;
        assert(s[i] == b[j]);
        assert(j + 1 < b.len() ==> s[i + 1] == b[j + 1]);
        let st = tok_step(b[j], j + 1 < b.len(), b[j + 1], q, word, tokens);
        lemma_tok_step(b, j, q, word, tokens);
        lemma_tok_step(s, i, q, word, pre + tokens);
        lemma_tok_step_prefix(b[j], j + 1 < b.len(), b[j + 1], q, word, pre, tokens);
        if j + 1 < b.len() {
            assert(tok_step(s[i], i + 1 < s.len(), s[i + 1], q, word, pre + tokens) == tok_step(
                b[j],
                j + 1 < b.len(),
                b[j + 1],
                q,
                word,
                pre + tokens,
            ));
        } else {
            lemma_tok_step_no_next(s[i], s[i + 1], b[j + 1], q, word, pre + tokens);
        }
        if j + st.0 <= b.len() {
            lemma_tok_shift(p, b, j + st.0, st.1, st.2, pre, st.3);
        }
    }
}

/// Without a following character, the step does not look at it.
proof fn lemma_tok_step_no_next(ch: char, n1: char, n2: char, q: QuoteState, word: Seq<char>, tokens: Seq<SpecToken>)
    ensures
        tok_step(ch, false, n1, q, word, tokens) == tok_step(ch, false, n2, q, word, tokens),
{
}

/// Away from a backslash, a step with no following character is the step
/// followed by a space.
proof fn lemma_tok_step_before_space(ch: char, n: char, q: QuoteState, word: Seq<char>, tokens: Seq<SpecToken>)
    requires
        ch != '\\',
    ensures
        tok_step(ch, false, n, q, word, tokens) == tok_step(ch, true, ' ', q, word, tokens),
{
}

/// Scanning `a`, then a space, then more: up to the space it goes as the scan
/// of `a` alone (which has no backslash and ends unquoted), and the space
/// ends the last word of `a`.
proof fn lemma_tok_prefix(
    a: Seq<char>,
    rest: Seq<char>,
    i: int,
    q: QuoteState,
    word: Seq<char>,
    tokens: Seq<SpecToken>,
)
    requires
        0 <= i <= a.len(),
        forall|k: int| 0 <= k < a.len() ==> a[k] != '\\',
        tok_from(a, i, q, word, tokens).1 == QuoteState::Unquoted,
    ensures
        tok_from(a + seq![' '] + rest, i, q, word, tokens) == tok_from(
            a + seq![' '] + rest,
            a.len() + 1int,
            QuoteState::Unquoted,
            Seq::empty(),
            tok_from(a, i, q, word, tokens).0,
        ),
    decreases a.len() - i,
{
    let s = a + seq![' '] + rest;
    assert(s[a.len() as int] == ' ');
    lemma_tok_step(s, i, q, word, tokens);
    if i < a.len() {
        assert(s[i] == a[i]);
        lemma_tok_step(a, i, q, word, tokens);
        if i + 1 < a.len() {
            assert(s[i + 1] == a[i + 1]);
        } else {
            lemma_tok_step_before_space(a[i], a[i + 1], q, word, tokens);
        }
        let st = tok_step(a[i], i + 1 < a.len(), a[i + 1], q, word, tokens);
        lemma_tok_prefix(a, rest, i + st.0, st.1, st.2, st.3);
    }
}

/// Two command lines joined by a space tokenize as the first's tokens then
/// the second's, ending in the second's quote state, when the first has no
/// backslash and closes its quotes.
pub proof fn law_tokenize_joined(a: Seq<char>, b: Seq<char>)
    requires
        forall|k: int| 0 <= k < a.len() ==> a[k] != '\\',
        spec_tokenize(a).1 == QuoteState::Unquoted,
    ensures
        spec_tokenize(a + seq![' '] + b) == (spec_tokenize(a).0 + spec_tokenize(b).0, spec_tokenize(b).1),
{
    let s = a + seq![' '] + b;
    let ta = spec_tokenize(a).0;
    lemma_tok_prefix(a, b, 0, QuoteState::Unquoted, Seq::empty(), Seq::empty());
    let p = a + seq![' '];
    assert(s =~= p + b);
    assert(ta + Seq::<SpecToken>::empty() =~= ta);
    lemma_tok_shift(p, b, 0, QuoteState::Unquoted, Seq::empty(), ta, Seq::empty());
}

/// The token a shell operator stands for, when `op` is one: `<` reads from a
/// file, `>` writes to one, `>>` appends, `|` pipes, `||` and `&&` chain on
/// failure or success, `;` separates and `&` runs in the background.
pub open spec fn operator_token(op: Seq<char>) -> Option<SpecToken> {
    if op == seq!['<'] {
        Some(SpecToken::RedirectIn)
    } else if op == seq!['>'] {
        Some(SpecToken::RedirectOut)
    } else if op == seq!['>', '>'] {
        Some(SpecToken::RedirectAppend)
    } else if op == seq!['|'] {
        Some(SpecToken::Pipe)
    } else if op == seq!['|', '|'] {
        Some(SpecToken::Or)
    } else if op == seq!['&', '&'] {
        Some(SpecToken::And)
    } else if op == seq![';'] {
        Some(SpecToken::Semicolon)
    } else if op == seq!['&'] {
        Some(SpecToken::Background)
    } else {
        None
    }
}

/// An operator alone tokenizes as its one token.
proof fn lemma_tokenize_operator(op: Seq<char>)
    requires
        operator_token(op) is Some,
    ensures
        spec_tokenize(op) == (seq![operator_token(op).unwrap()], QuoteState::Unquoted),
{
    let e = Seq::<char>::empty();
    let t = Seq::<SpecToken>::empty();
    let u = QuoteState::Unquoted;
    if op.len() == 1 {
        let tok = operator_token(op).unwrap();
        assert(tok_from(op, 1, u, e, spec_flush(e, t).push(tok)) == (seq![tok], u)) by {
            assert(spec_flush(e, spec_flush(e, t).push(tok)) =~= seq![tok]);
        }
        assert(tok_from(op, 0, u, e, t) == tok_from(op, 1, u, e, spec_flush(e, t).push(tok)));
    } else {
        let tok = operator_token(op).unwrap();
        assert(tok_from(op, 2, u, e, spec_flush(e, t).push(tok)) == (seq![tok], u)) by {
            assert(spec_flush(e, spec_flush(e, t).push(tok)) =~= seq![tok]);
        }
        assert(tok_from(op, 0, u, e, t) == tok_from(op, 2, u, e, spec_flush(e, t).push(tok)));
    }
}

/// A shell operator written between spaces gives exactly its own token,
/// between the tokens of the text before it and the text after it (when the
/// text before has no backslash and closes its quotes): `a < b` reads from
/// `b` (`RedirectIn`), `a > b` writes to it (`RedirectOut`), and so on.
pub proof fn law_operator_between_words(a: Seq<char>, op: Seq<char>, b: Seq<char>)
    requires
        forall|k: int| 0 <= k < a.len() ==> a[k] != '\\',
        spec_tokenize(a).1 == QuoteState::Unquoted,
        operator_token(op) is Some,
    ensures
        spec_tokenize(a + seq![' '] + op + seq![' '] + b) == (
            spec_tokenize(a).0 + seq![operator_token(op).unwrap()] + spec_tokenize(b).0,
            spec_tokenize(b).1,
        ),
{
    lemma_tokenize_operator(op);
    assert forall|k: int| 0 <= k < op.len() implies op[k] != '\\' by {}
    law_tokenize_joined(op, b);
    let rest = op + seq![' '] + b;
    law_tokenize_joined(a, rest);
    assert(a + seq![' '] + op + seq![' '] + b =~= a + seq![' '] + rest);
}

/// How an operator token is written: `<`, `>`, `>>`, `|`, `||`, `&&`, `;`
/// or `&` (empty for a word).
pub open spec fn operator_text(t: SpecToken) -> Seq<char> {
    match t {
        SpecToken::Word(_) => Seq::empty(),
        SpecToken::Pipe => seq!['|'],
        SpecToken::And => seq!['&', '&'],
        SpecToken::Or => seq!['|', '|'],
        SpecToken::Semicolon => seq![';'],
        SpecToken::RedirectIn => seq!['<'],
        SpecToken::RedirectOut => seq!['>'],
        SpecToken::RedirectAppend => seq!['>', '>'],
        SpecToken::Background => seq!['&'],
    }
}

/// `t` occurs in `s` at some position.
pub open spec fn occurs_in(s: Seq<char>, t: Seq<char>) -> bool {
    exists|p: int| 0 <= p && p + t.len() <= s.len() && #[trigger] s.subrange(p, p + t.len()) == t
}

/// Every operator among the tokens is written out somewhere in `s`.
pub open spec fn operators_written_in(s: Seq<char>, ts: Seq<SpecToken>) -> bool {
    forall|k: int| 0 <= k < ts.len() && !(ts[k] is Word) ==> occurs_in(s, operator_text(#[trigger] ts[k]))
}

/// One step of the scan adds no operator token that is not written at the
/// position it scans.
proof fn lemma_step_operators_written(input: Seq<char>, i: int, q: QuoteState, word: Seq<char>, tokens: Seq<SpecToken>)
    requires
        0 <= i < input.len(),
        operators_written_in(input, tokens),
    ensures
        operators_written_in(input, tok_step(input[i], i + 1 < input.len(), input[i + 1], q, word, tokens).3),
{
    let ch = input[i];
    let st = tok_step(ch, i + 1 < input.len(), input[i + 1], q, word, tokens);
    let fl = spec_flush(word, tokens);
    assert(operators_written_in(input, fl)) by {
        assert forall|k: int| 0 <= k < fl.len() && !(fl[k] is Word) implies occurs_in(input, operator_text(#[trigger] fl[k])) by {
            assert(k < tokens.len());
            assert(fl[k] == tokens[k]);
        }
    }
    if st.3.len() == fl.len() + 1 && st.3 == fl.push(st.3.last()) {
        let t = st.3.last();
        if !(t is Word) {
            let n = operator_text(t).len();
            if n == 1 {
                assert(input.subrange(i, i + 1) =~= seq![ch]);
            } else {
                assert(input.subrange(i, i + 2) =~= seq![ch, input[i + 1]]);
            }
            assert(occurs_in(input, operator_text(t)));
        }
        assert forall|k: int| 0 <= k < st.3.len() && !(st.3[k] is Word) implies occurs_in(input, operator_text(#[trigger] st.3[k])) by {
            if k < fl.len() {
                assert(st.3[k] == fl[k]);
            }
        }
    }
}

/// The scan from any point keeps every operator token written in the input.
proof fn lemma_tok_operators_written(input: Seq<char>, i: int, q: QuoteState, word: Seq<char>, tokens: Seq<SpecToken>)
    requires
        0 <= i,
        operators_written_in(input, tokens),
    ensures
        operators_written_in(input, tok_from(input, i, q, word, tokens).0),
    decreases input.len() - i,
{
    if i < input.len() {
        lemma_tok_step(input, i, q, word, tokens);
        lemma_step_operators_written(input, i, q, word, tokens);
        let st = tok_step(input[i], i + 1 < input.len(), input[i + 1], q, word, tokens);
        lemma_tok_operators_written(input, i + st.0, st.1, st.2, st.3);
    } else {
        let fl = spec_flush(word, tokens);
        assert forall|k: int| 0 <= k < fl.len() && !(fl[k] is Word) implies occurs_in(input, operator_text(#[trigger] fl[k])) by {
            assert(fl[k] == tokens[k]);
        }
    }
}

/// Every operator token of a command line is written out in it: a
/// `RedirectIn` only where the line has `<`, a `RedirectOut` only where it
/// has `>`, a `RedirectAppend` only where it has `>>`, and so on.
pub proof fn law_operator_tokens_written(s: Seq<char>)
    ensures
        forall|k: int|
            0 <= k < spec_tokenize(s).0.len() && !(spec_tokenize(s).0[k] is Word) ==> occurs_in(
                s,
                operator_text(#[trigger] spec_tokenize(s).0[k]),
            ),
{
    lemma_tok_operators_written(s, 0, QuoteState::Unquoted, Seq::empty(), Seq::empty());
}

/// The quote state that an opening quote character `c` (`"` or `'`) starts.
pub open spec fn quote_opened_by(c: char) -> QuoteState {
    if c == '"' { QuoteState::DoubleQuoted } else { QuoteState::SingleQuoted }
}

/// Inside quotes opened by `c`, characters other than `c` and `\\` gather
/// into the pending word up to the end of the line.
proof fn lemma_tok_in_quotes(c: char, s: Seq<char>, i: int, word: Seq<char>)
    requires
        c == '"' || c == '\'',
        0 <= i <= s.len(),
        forall|k: int| i <= k < s.len() ==> s[k] != c && s[k] != '\\',
    ensures
        tok_from(s, i, quote_opened_by(c), word, Seq::empty()) == (
            spec_flush(word + s.subrange(i, s.len() as int), Seq::empty()),
            quote_opened_by(c),
        ),
    decreases s.len() - i,
{
    if i < s.len() {
        lemma_tok_in_quotes(c, s, i + 1, word.push(s[i]));
        assert(word.push(s[i]) + s.subrange(i + 1, s.len() as int) =~= word + s.subrange(i, s.len() as int));
    } else {
        assert(word + s.subrange(i, s.len() as int) =~= word);
    }
}

/// An opening quote `c` (`"` or `'`) followed by text without `c` or `\\`
/// is one word, still inside the open quote.
pub proof fn lemma_tokenize_open_quote(c: char, w: Seq<char>)
    requires
        c == '"' || c == '\'',
        w.len() > 0,
        forall|k: int| 0 <= k < w.len() ==> w[k] != c && w[k] != '\\',
    ensures
        spec_tokenize(seq![c] + w) == (seq![SpecToken::Word(w)], quote_opened_by(c)),
{
    let s = seq![c] + w;
    assert forall|k: int| 1 <= k < s.len() implies s[k] != c && s[k] != '\\' by {
        assert(s[k] == w[k - 1]);
    }
    lemma_tok_in_quotes(c, s, 1, Seq::empty());
    assert(Seq::<char>::empty() + s.subrange(1, s.len() as int) =~= w);
    assert(spec_flush(w, Seq::<SpecToken>::empty()) =~= seq![SpecToken::Word(w)]);
}

} // verus!
