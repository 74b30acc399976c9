//! What the user is typing: command, argument position, pipes and redirects.

use vstd::prelude::*;

use crate::text::{chars_of, is_ascii_ws, spec_is_ascii_ws, string_from_chars, take_chars};
use crate::tokenizer::{
    law_tokenize_joined, lemma_tokenize_open_quote, quote_opened_by, spec_tokenize, tokenize, tokens_view, QuoteState, SpecToken, Token,
};

verus! {

/// Describes what the user is typing: which command, which argument position,
/// whether we're after a pipe or redirect, and the partial word at the cursor.
#[derive(Debug, Clone, PartialEq, Eq)]
pub struct CommandContext {
    /// The command being invoked (e.g. "git"), or None if cursor is at command position.
    pub command: Option<String>,
    /// Completed arguments before the cursor position.
    pub args: Vec<String>,
    /// Partial word at the cursor (for fuzzy matching). Empty if cursor is at a word boundary.
    pub current_word: String,
    /// 0 = command position, 1+ = argument positions.
    pub word_index: usize,
    /// `current_word` starts with `-`.
    pub is_flag: bool,
    /// `current_word` starts with `--`.
    pub is_long_flag: bool,
    /// Flag immediately before `current_word` (for flag-value pairs like `-b main`).
    pub preceding_flag: Option<String>,
    /// Cursor is after a pipe operator in a pipeline.
    pub in_pipe: bool,
    /// Cursor is after `>`, `>>` or `<`, or on the word typed right after one
    /// (a filename is expected).
    pub in_redirect: bool,
    /// Whether the cursor is inside an unclosed quote.
    pub quote_state: QuoteState,
}

/// Mathematical model of a [`CommandContext`].
pub struct SpecContext {
    pub command: Option<Seq<char>>,
    pub args: Seq<Seq<char>>,
    pub current_word: Seq<char>,
    pub word_index: nat,
    pub is_flag: bool,
    pub is_long_flag: bool,
    pub preceding_flag: Option<Seq<char>>,
    pub in_pipe: bool,
    pub in_redirect: bool,
    pub quote_state: QuoteState,
}

/// The characters of each string.
pub open spec fn strings_view(v: Seq<String>) -> Seq<Seq<char>> {
    v.map_values(|s: String| s@)
}

/// The characters of an optional string.
pub open spec fn opt_string_view(o: Option<String>) -> Option<Seq<char>> {
    match o {
        Some(s) => Some(s@),
        None => None,
    }
}

impl View for CommandContext {
    type V = SpecContext;

    open spec fn view(&self) -> SpecContext {
        SpecContext {
            command: opt_string_view(self.command),
            args: strings_view(self.args@),
            current_word: self.current_word@,
            word_index: self.word_index as nat,
            is_flag: self.is_flag,
            is_long_flag: self.is_long_flag,
            preceding_flag: opt_string_view(self.preceding_flag),
            in_pipe: self.in_pipe,
            in_redirect: self.in_redirect,
            quote_state: self.quote_state,
        }
    }
}

/// Start of the last pipeline segment (just after the last `|`, `&&`, `||` or
/// `;`), and whether that separator was a pipe.
pub open spec fn segment_info(ts: Seq<SpecToken>) -> (int, bool)
    decreases ts.len(),
{
    if ts.len() == 0 {
        (0, false)
    } else {
        let prev = segment_info(ts.drop_last());
        match ts.last() {
            SpecToken::Pipe => (ts.len() as int, true),
            SpecToken::And | SpecToken::Or | SpecToken::Semicolon => (ts.len() as int, false),
            _ => prev,
        }
    }
}

/// The segment start lies within the token sequence.
pub proof fn lemma_segment_info_bounds(ts: Seq<SpecToken>)
    ensures
        0 <= segment_info(ts).0 <= ts.len(),
    decreases ts.len(),
{
    if ts.len() > 0 {
        lemma_segment_info_bounds(ts.drop_last());
    }
}

/// The words among the tokens, in order.
pub open spec fn words_of(ts: Seq<SpecToken>) -> Seq<Seq<char>>
    decreases ts.len(),
{
    if ts.len() == 0 {
        Seq::empty()
    } else {
        let prev = words_of(ts.drop_last());
        match ts.last() {
            SpecToken::Word(w) => prev.push(w),
            _ => prev,
        }
    }
}

/// The token is one of `>`, `>>`, `<`.
pub open spec fn is_redirect(t: SpecToken) -> bool {
    t is RedirectOut || t is RedirectAppend || t is RedirectIn
}

/// `s` starts with `p`.
pub open spec fn starts_with(s: Seq<char>, p: Seq<char>) -> bool {
    p.len() <= s.len() && s.take(p.len() as int) == p
}

/// The context of `buffer` when the cursor stands after `cursor` characters
/// (clamped to the end of the buffer).
pub open spec fn spec_parse_context(buffer: Seq<char>, cursor: int) -> SpecContext {
    let before = buffer.take(if cursor < buffer.len() { cursor } else { buffer.len() as int });
    let (tokens, quote) = spec_tokenize(before);
    let (seg_start, found_pipe) = segment_info(tokens);
    let words = words_of(tokens.subrange(seg_start, tokens.len() as int));
    let ends_with_space = before.len() > 0 && spec_is_ascii_ws(before.last())
        && quote == QuoteState::Unquoted;
    let complete = if ends_with_space || words.len() == 0 { words } else { words.drop_last() };
    let current = if ends_with_space || words.len() == 0 { Seq::<char>::empty() } else { words.last() };
    let args = if complete.len() == 0 { Seq::<Seq<char>>::empty() } else { complete.drop_first() };
    SpecContext {
        command: if complete.len() == 0 { None } else { Some(complete[0]) },
        args,
        current_word: current,
        word_index: complete.len(),
        is_flag: starts_with(current, seq!['-']),
        is_long_flag: starts_with(current, seq!['-', '-']),
        preceding_flag: if args.len() > 0 && starts_with(args.last(), seq!['-']) {
            Some(args.last())
        } else {
            None
        },
        in_pipe: found_pipe,
        in_redirect: (tokens.len() > 0 && is_redirect(tokens.last())) || (!ends_with_space && tokens.len() > 1
            && tokens.last() is Word && is_redirect(tokens[tokens.len() - 2])),
        quote_state: quote,
    }
}

/// `s` starts with `-` (and, when `long`, with `--`).
fn starts_with_dashes(s: &String, long: bool) -> (r: bool)
    ensures
        r == if long { starts_with(s@, seq!['-', '-']) } else { starts_with(s@, seq!['-']) },
{
    let cs = chars_of(s.as_str());
    if long {
        let r = cs.len() >= 2 && cs[0] == '-' && cs[1] == '-';
        proof {
            if cs@.len() >= 2 {
                assert(r == (cs@.take(2) =~= seq!['-', '-']));
            }
        }
        r
    } else {
        let r = cs.len() >= 1 && cs[0] == '-';
        proof {
            if r {
                assert(cs@.take(1) =~= seq!['-']);
            } else if cs@.len() >= 1 {
                assert(cs@.take(1)[0] != seq!['-'][0]);
            }
        }
        r
    }
}

/// Parse a command buffer and cursor position into a `CommandContext`.
///
/// `cursor` is a character offset (as shells report it); a cursor past the end
/// of the buffer stands at its end.
#[verifier::rlimit(30)]
pub fn parse_command_context(buffer: &str, cursor: usize) -> (ctx: CommandContext)
    ensures
        ctx@ == spec_parse_context(buffer@, cursor as int),
{
    let all = chars_of(buffer);
    let end = if cursor < all.len() { cursor } else { all.len() };
    let before_chars = take_chars(&all, end);
    let before = string_from_chars(before_chars.as_slice());
    let result = tokenize(before.as_str());
    let tokens = &result.tokens;
    let ghost ts = tokens_view(tokens@);

    // Last pipeline segment.
    let mut seg_start: usize = 0;
    let mut found_pipe = false;
    let nt = tokens.len();
    for i in 0..nt
        invariant
            nt == tokens@.len(),
            ts == tokens_view(tokens@),
            (seg_start as int, found_pipe) == segment_info(ts.take(i as int)),
    {
        proof {
            assert(ts.take(i + 1).drop_last() =~= ts.take(i as int));
        }
        match &tokens[i] {
            Token::Pipe => {
                seg_start = i + 1;
                found_pipe = true;
            },
            Token::And | Token::Or | Token::Semicolon => {
                seg_start = i + 1;
                found_pipe = false;
            },
            _ => {},
        }
    }
    proof {
        assert(ts.take(nt as int) =~= ts);
    }

    let last_is_redirect = nt > 0 && match &tokens[nt - 1] {
        Token::RedirectOut | Token::RedirectAppend | Token::RedirectIn => true,
        _ => false,
    };

    let ends_with_space = end > 0 && is_ascii_ws(before_chars[end - 1])
        && result.quote_state == QuoteState::Unquoted;
    // The word being typed is the target of a redirect.
    let typing_target = !ends_with_space && nt > 1 && match &tokens[nt - 1] {
        Token::Word(_) => match &tokens[nt - 2] {
            Token::RedirectOut | Token::RedirectAppend | Token::RedirectIn => true,
            _ => false,
        },
        _ => false,
    };
    proof {
        assert(typing_target == (!ends_with_space && ts.len() > 1 && ts.last() is Word && is_redirect(
            ts[ts.len() - 2],
        )));
        assert(last_is_redirect == (ts.len() > 0 && is_redirect(ts.last())));
    }

    // Words of the segment.
    let mut words: Vec<String> = Vec::new();
    proof {
        lemma_segment_info_bounds(ts);
    }
    let ghost seg = ts.subrange(seg_start as int, nt as int);
    for j in seg_start..nt
        invariant
            nt == tokens@.len(),
            ts == tokens_view(tokens@),
            seg_start <= nt,
            seg == ts.subrange(seg_start as int, nt as int),
            strings_view(words@) == words_of(seg.take(j - seg_start)),
    {
        proof {
            assert(seg.take(j + 1 - seg_start).drop_last() =~= seg.take(j - seg_start));
        }
        match &tokens[j] {
            Token::Word(w) => {
                let ghost before_words = words@;
                words.push(w.clone());
                proof {
                    assert(strings_view(words@) =~= strings_view(before_words).push(w@));
                }
            },
            _ => {},
        }
    }
    proof {
        assert(seg.take(nt - seg_start) =~= seg);
    }

    let nw = words.len();
    let take_all = ends_with_space || nw == 0;
    let n_complete = if take_all { nw } else { nw - 1 };
    let current_word = if take_all { String::new() } else { words[nw - 1].clone() };

    let command = if n_complete == 0 { None } else { Some(words[0].clone()) };
    let mut args: Vec<String> = Vec::new();
    let mut k: usize = 1;
    while k < n_complete
        invariant
            1 <= k,
            n_complete <= nw,
            nw == words@.len(),
            k <= n_complete || n_complete == 0,
            n_complete > 0 ==> strings_view(args@) == strings_view(words@).subrange(1, k as int),
            n_complete == 0 ==> args@.len() == 0,
        decreases n_complete - k,
    {
        let ghost prev = args@;
        args.push(words[k].clone());
        proof {
            assert(strings_view(args@) =~= strings_view(prev).push(words@[k as int]@));
            assert(strings_view(words@).subrange(1, k + 1) =~= strings_view(words@).subrange(1, k as int).push(words@[k as int]@));
        }
        k = k + 1;
    }

    let is_flag = starts_with_dashes(&current_word, false);
    let is_long_flag = starts_with_dashes(&current_word, true);
    let na = args.len();
    let preceding_flag = if na > 0 && starts_with_dashes(&args[na - 1], false) {
        Some(args[na - 1].clone())
    } else {
        None
    };

    proof {
        let sw = strings_view(words@);
        let complete = if take_all { sw } else { sw.drop_last() };
        assert(complete.len() == n_complete);
        if n_complete == 0 {
            assert(strings_view(args@) =~= Seq::<Seq<char>>::empty());
        } else {
            assert(strings_view(args@) =~= complete.drop_first());
        }
        assert(before_chars@ == buffer@.take(end as int));
    }

    CommandContext {
        command,
        args,
        current_word,
        word_index: n_complete,
        is_flag,
        is_long_flag,
        preceding_flag,
        in_pipe: found_pipe,
        in_redirect: last_is_redirect || typing_target,
        quote_state: result.quote_state,
    }
}

} // verus!

verus! {

/// Only the text before the cursor matters, and a cursor past the end of the
/// buffer stands at its end.
pub proof fn law_context_reads_before_cursor(buffer: Seq<char>, cursor: int)
    requires
        cursor >= 0,
    ensures
        cursor <= buffer.len() ==> spec_parse_context(buffer, cursor) == spec_parse_context(
            buffer.take(cursor),
            cursor,
        ),
        cursor >= buffer.len() ==> spec_parse_context(buffer, cursor) == spec_parse_context(
            buffer,
            buffer.len() as int,
        ),
{
    if cursor <= buffer.len() {
        assert(buffer.take(cursor).take(cursor) =~= buffer.take(cursor));
        if cursor == buffer.len() {
            assert(buffer.take(cursor) =~= buffer);
        }
    }
}

/// The word index counts the completed words of the segment: the command
/// and its arguments.
pub proof fn law_word_index_counts_words(buffer: Seq<char>, cursor: int)
    ensures
        spec_parse_context(buffer, cursor).word_index == if spec_parse_context(buffer, cursor).command is Some {
            spec_parse_context(buffer, cursor).args.len() + 1
        } else {
            0
        },
{
}

/// The texts of word tokens.
pub open spec fn word_texts(ts: Seq<SpecToken>) -> Seq<Seq<char>> {
    ts.map_values(|t: SpecToken| match t {
        SpecToken::Word(w) => w,
        _ => Seq::empty(),
    })
}

/// Tokens that are all words have no pipeline separator and list their texts.
proof fn lemma_all_words(ts: Seq<SpecToken>)
    requires
        forall|k: int| 0 <= k < ts.len() ==> #[trigger] ts[k] is Word,
    ensures
        segment_info(ts) == (0int, false),
        words_of(ts) == word_texts(ts),
    decreases ts.len(),
{
    if ts.len() > 0 {
        let init = ts.drop_last();
        assert forall|k: int| 0 <= k < init.len() implies #[trigger] init[k] is Word by {
            assert(init[k] == ts[k]);
        }
        lemma_all_words(init);
        assert(ts.last() is Word);
        assert(word_texts(ts) =~= word_texts(init).push(word_texts(ts).last()));
    } else {
        assert(word_texts(ts) =~= Seq::<Seq<char>>::empty());
    }
}

/// Typing inside an open quote stays within the word being typed, whatever
/// it holds (spaces included): after plain words `a`, the text `a "w` (or
/// `a 'w`) with the cursor at its end has `w` as the current word, the
/// words of `a` as the complete ones (the first of them the command, the
/// rest the arguments), and
/// the quote still open.
pub proof fn law_open_quote_keeps_word(a: Seq<char>, c: char, w: Seq<char>)
    requires
        forall|k: int| 0 <= k < a.len() ==> a[k] != '\\',
        spec_tokenize(a).1 == QuoteState::Unquoted,
        spec_tokenize(a).0.len() > 0,
        forall|k: int| 0 <= k < spec_tokenize(a).0.len() ==> #[trigger] spec_tokenize(a).0[k] is Word,
        c == '"' || c == '\'',
        w.len() > 0,
        forall|k: int| 0 <= k < w.len() ==> w[k] != c && w[k] != '\\',
    ensures
        ({
            let buf = a + seq![' ', c] + w;
            let ctx = spec_parse_context(buf, buf.len() as int);
            &&& ctx.current_word == w
            &&& ctx.word_index == spec_tokenize(a).0.len()
            &&& ctx.command == Some(word_texts(spec_tokenize(a).0)[0])
            &&& ctx.args == word_texts(spec_tokenize(a).0).drop_first()
            &&& ctx.quote_state == (if c == '"' { QuoteState::DoubleQuoted } else { QuoteState::SingleQuoted })
        }),
{
    let buf = a + seq![' ', c] + w;
    let b = seq![c] + w;
    assert(buf =~= a + seq![' '] + b);
    lemma_tokenize_open_quote(c, w);
    law_tokenize_joined(a, b);
    let ta = spec_tokenize(a).0;
    let ts = ta + seq![SpecToken::Word(w)];
    assert(spec_tokenize(buf) == (ts, quote_opened_by(c)));
    assert forall|k: int| 0 <= k < ts.len() implies #[trigger] ts[k] is Word by {
        if k < ta.len() {
            assert(ts[k] == ta[k]);
        }
    }
    lemma_all_words(ts);
    assert(buf.take(buf.len() as int) =~= buf);
    assert(ts.subrange(0, ts.len() as int) =~= ts);
    let words = word_texts(ts);
    assert(words.last() == w);
    assert(words.drop_last() =~= word_texts(ta));
    assert(words[0] == word_texts(ta)[0]);
}

} // verus!
