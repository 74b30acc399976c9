//! Shell history as a source of command-name suggestions.

use vstd::prelude::*;

use crate::context::{strings_view, CommandContext};
use crate::suggestion::{suggestions_view, SpecSuggestion, Suggestion, SuggestionKind, SuggestionSource};
use crate::text::{
    first_ws_from,
    chars_of, is_whitespace, spec_is_whitespace, spec_trim, spec_utf8_lossy, str_eq,
    string_from_chars, trim_chars, utf8_lossy,
};

verus! {

/// Default number of history entries kept.
pub const DEFAULT_MAX_HISTORY_ENTRIES: usize = 10_000;

/// Index of the first `c` at or after `from` (or the length when none).
pub open spec fn find_char_from(s: Seq<char>, c: char, from: int) -> int
    decreases s.len() - from,
{
    if from < 0 || from >= s.len() || s[from] == c {
        from
    } else {
        find_char_from(s, c, from + 1)
    }
}

/// The lines of `s` from `start`, as `str::lines` splits them: at each `\n`,
/// dropping a `\r` just before it; a final line ending is optional.
pub open spec fn lines_from(s: Seq<char>, start: int) -> Seq<Seq<char>>
    decreases s.len() - start,
{
    if start < 0 || start >= s.len() {
        Seq::empty()
    } else {
        let e = find_char_from(s, '\n', start);
        if e < start || e > s.len() {
            Seq::empty()
        } else {
            let raw = s.subrange(start, e);
            let line = if e < s.len() && raw.len() > 0 && raw.last() == '\r' { raw.drop_last() } else { raw };
            if e >= s.len() {
                seq![line]
            } else {
                seq![line] + lines_from(s, e + 1)
            }
        }
    }
}

/// The lines of `s` (`str::lines`).
pub open spec fn spec_lines(s: Seq<char>) -> Seq<Seq<char>> {
    lines_from(s, 0)
}

/// A history line's command: zsh extended lines `: <time>:<duration>;<cmd>`
/// give `<cmd>`; other lines are the command themselves (both trimmed).
pub open spec fn spec_parse_history_line(line: Seq<char>) -> Seq<char> {
    let t = spec_trim(line);
    let idx = find_char_from(t, ';', 0);
    if t.len() >= 2 && t[0] == ':' && t[1] == ' ' && idx < t.len() {
        spec_trim(t.subrange(idx + 1, t.len() as int))
    } else {
        t
    }
}

/// Newest-first scan of history lines from `i`, collecting distinct commands
/// into `entries` until `max_entries` are held.
pub open spec fn dedup_from(
    rev_lines: Seq<Seq<char>>,
    i: int,
    entries: Seq<Seq<char>>,
    max_entries: nat,
) -> Seq<Seq<char>>
    decreases rev_lines.len() - i,
{
    if i < 0 || i >= rev_lines.len() || entries.len() >= max_entries {
        entries
    } else {
        let cmd = spec_parse_history_line(rev_lines[i]);
        if cmd.len() == 0 {
            dedup_from(rev_lines, i + 1, entries, max_entries)
        } else {
            let e2 = if entries.contains(cmd) { entries } else { entries.push(cmd) };
            dedup_from(rev_lines, i + 1, e2, max_entries)
        }
    }
}

/// The distinct commands of a history, keeping each command's most recent
/// occurrence, at most `max_entries` of the newest (none when that is 0), in
/// chronological order.
pub open spec fn spec_parse_and_dedup(contents: Seq<char>, max_entries: nat) -> Seq<Seq<char>> {
    dedup_from(spec_lines(contents).reverse(), 0, Seq::empty(), max_entries).reverse()
}

/// The first whitespace-separated word of `s` (or `s` itself when it has none).
pub open spec fn spec_first_word(s: Seq<char>) -> Seq<char> {
    let lo = crate::text::leading_ws(s, 0);
    if lo >= s.len() {
        s
    } else {
        let hi = first_ws_from(s, lo);
        s.subrange(lo, hi)
    }
}

/// The suggestion a history entry offers: its command name, with the full
/// command as description.
pub open spec fn history_suggestion(entry: Seq<char>) -> SpecSuggestion {
    SpecSuggestion {
        text: spec_first_word(entry),
        description: Some(entry),
        kind: SuggestionKind::History,
        source: SuggestionSource::History,
        score: 0,
    }
}

/// Commands from the user's shell history.
pub struct HistoryProvider {
    entries: Vec<String>,
}

impl View for HistoryProvider {
    type V = Seq<Seq<char>>;

    closed spec fn view(&self) -> Seq<Seq<char>> {
        strings_view(self.entries@)
    }
}

/// Index of the first `c` in `s` at or after `from`.
fn find_char(s: &Vec<char>, c: char, from: usize) -> (r: usize)
    requires
        from <= s@.len(),
    ensures
        r as int == find_char_from(s@, c, from as int),
        from <= r <= s@.len(),
{
    let n = s.len();
    let mut k = from;
    while k < n && s[k] != c
        invariant
            from <= k <= n,
            n == s@.len(),
            find_char_from(s@, c, from as int) == find_char_from(s@, c, k as int),
        decreases n - k,
    {
        k = k + 1;
    }
    k
}

/// `s[lo..hi]` as a new vector.
fn sub_chars(s: &Vec<char>, lo: usize, hi: usize) -> (r: Vec<char>)
    requires
        lo <= hi <= s@.len(),
    ensures
        r@ == s@.subrange(lo as int, hi as int),
{
    let mut r: Vec<char> = Vec::new();
    let mut i = lo;
    while i < hi
        invariant
            lo <= i <= hi <= s@.len(),
            r@ == s@.subrange(lo as int, i as int),
        decreases hi - i,
    {
        r.push(s[i]);
        assert(s@.subrange(lo as int, i + 1) =~= s@.subrange(lo as int, i as int).push(s@[i as int]));
        i = i + 1;
    }
    r
}

/// The lines of `s` (`str::lines`).
pub(crate) fn split_lines(s: &Vec<char>) -> (r: Vec<Vec<char>>)
    ensures
        r@.map_values(|l: Vec<char>| l@) == spec_lines(s@),
{
    let n = s.len();
    let mut r: Vec<Vec<char>> = Vec::new();
    let mut start: usize = 0;
    while start < n
        invariant
            start <= n,
            n == s@.len(),
            r@.map_values(|l: Vec<char>| l@) + lines_from(s@, start as int) == spec_lines(s@),
        decreases n - start,
    {
        let e = find_char(s, '\n', start);
        let mut line = sub_chars(s, start, e);
        let ll = line.len();
        if e < n && ll > 0 && line[ll - 1] == '\r' {
            line.pop();
        }
        let ghost prev = r@;
        let ghost lv = line@;
        r.push(line);
        proof {
            assert(r@.map_values(|l: Vec<char>| l@) =~= prev.map_values(|l: Vec<char>| l@).push(lv));
        }
        if e == n {
            proof {
                assert(lines_from(s@, start as int) == seq![lv]);
                assert(lines_from(s@, n as int) =~= Seq::<Seq<char>>::empty());
                assert(prev.map_values(|l: Vec<char>| l@) + lines_from(s@, start as int)
                    =~= prev.map_values(|l: Vec<char>| l@).push(lv) + lines_from(s@, n as int));
            }
            start = n;
        } else {
            proof {
                assert(lines_from(s@, start as int) == seq![lv] + lines_from(s@, e + 1));
                assert(prev.map_values(|l: Vec<char>| l@) + lines_from(s@, start as int)
                    =~= prev.map_values(|l: Vec<char>| l@).push(lv) + lines_from(s@, e + 1));
            }
            start = e + 1;
        }
    }
    proof {
        assert(r@.map_values(|l: Vec<char>| l@) + lines_from(s@, start as int)
            =~= r@.map_values(|l: Vec<char>| l@));
    }
    r
}

/// The command of one history line.
fn parse_history_line_chars(line: &Vec<char>) -> (r: Vec<char>)
    ensures
        r@ == spec_parse_history_line(line@),
{
    let t = trim_chars(line);
    let idx = find_char(&t, ';', 0);
    if t.len() >= 2 && t[0] == ':' && t[1] == ' ' && idx < t.len() {
        let rest = sub_chars(&t, idx + 1, t.len());
        trim_chars(&rest)
    } else {
        t
    }
}

/// Parse a single history line, handling both zsh extended format
/// (`: 1234567890:0;command here`) and plain lines (see
/// [`spec_parse_history_line`]).
pub fn parse_history_line(line: &str) -> (r: String)
    ensures
        r@ == spec_parse_history_line(line@),
{
    let cs = chars_of(line);
    let cmd = parse_history_line_chars(&cs);
    string_from_chars(cmd.as_slice())
}

/// Whether `v` holds a string equal to `s`.
fn contains_string(v: &Vec<String>, s: &String) -> (r: bool)
    ensures
        r == strings_view(v@).contains(s@),
{
    let n = v.len();
    for i in 0..n
        invariant
            n == v@.len(),
            forall|j: int| 0 <= j < i ==> strings_view(v@)[j] != s@,
    {
        if str_eq(v[i].as_str(), s.as_str()) {
            assert(strings_view(v@)[i as int] == s@);
            return true;
        }
    }
    false
}

/// Reverses a vector of strings.
fn reverse_strings(v: Vec<String>) -> (r: Vec<String>)
    ensures
        strings_view(r@) == strings_view(v@).reverse(),
{
    let mut r: Vec<String> = Vec::new();
    let n = v.len();
    let mut i = n;
    while i > 0
        invariant
            i <= n,
            n == v@.len(),
            strings_view(r@) == strings_view(v@).reverse().take(n - i),
        decreases i,
    {
        i = i - 1;
        let ghost prev = r@;
        r.push(v[i].clone());
        proof {
            assert(strings_view(r@) =~= strings_view(prev).push(v@[i as int]@));
            assert(strings_view(v@).reverse().take(n - i) =~= strings_view(v@).reverse().take(n - i - 1).push(v@[i as int]@));
        }
    }
    proof {
        assert(strings_view(v@).reverse().take(n as int) =~= strings_view(v@).reverse());
    }
    r
}

impl HistoryProvider {
    /// The history from the raw bytes of the history file (decoded as UTF-8,
    /// invalid sequences replaced), or an empty one when it could not be read.
    pub fn load(history_bytes: Option<&[u8]>, max_entries: usize) -> (p: Self)
        ensures
            p@ == match history_bytes {
                Some(b) => spec_parse_and_dedup(spec_utf8_lossy(b@), max_entries as nat),
                None => Seq::empty(),
            },
    {
        match history_bytes {
            Some(b) => {
                let contents = utf8_lossy(b);
                HistoryProvider { entries: Self::parse_and_dedup(contents.as_str(), max_entries) }
            },
            None => {
                let p = HistoryProvider { entries: Vec::new() };
                assert(p@ =~= Seq::<Seq<char>>::empty());
                p
            },
        }
    }

    /// A provider over the given entries.
    pub fn from_entries(entries: Vec<String>) -> (p: Self)
        ensures
            p@ == strings_view(entries@),
    {
        HistoryProvider { entries }
    }

    /// The distinct commands of a history file's contents, most recent
    /// occurrence kept, at most `max_entries` newest, oldest first.
    pub fn parse_and_dedup(contents: &str, max_entries: usize) -> (r: Vec<String>)
        ensures
            strings_view(r@) == spec_parse_and_dedup(contents@, max_entries as nat),
    {
        let chars = chars_of(contents);
        let lines = split_lines(&chars);
        let ghost lv = lines@.map_values(|l: Vec<char>| l@);
        let ghost rev = lv.reverse();
        let mut entries: Vec<String> = Vec::new();
        assert(strings_view(entries@) =~= Seq::<Seq<char>>::empty());
        let n = lines.len();
        let mut k: usize = 0;
        while k < n && entries.len() < max_entries
            invariant
                k <= n,
                n == lines@.len(),
                lv == lines@.map_values(|l: Vec<char>| l@),
                rev == lv.reverse(),
                lv == spec_lines(contents@),
                dedup_from(rev, k as int, strings_view(entries@), max_entries as nat)
                    == dedup_from(rev, 0, Seq::empty(), max_entries as nat),
            decreases n - k,
        {
            let line = &lines[n - 1 - k];
            assert(rev[k as int] == line@);
            let cmd_chars = parse_history_line_chars(line);
            if cmd_chars.len() == 0 {
                k = k + 1;
                continue;
            }
            let cmd = string_from_chars(cmd_chars.as_slice());
            let ghost before = strings_view(entries@);
            if !contains_string(&entries, &cmd) {
                entries.push(cmd);
                proof {
                    assert(strings_view(entries@) =~= before.push(cmd_chars@));
                }
            }
            k = k + 1;
        }
        proof {
            assert(dedup_from(rev, k as int, strings_view(entries@), max_entries as nat) == strings_view(entries@));
        }
        reverse_strings(entries)
    }

    /// History suggestions: only at command position; one per entry, its
    /// command name with the whole command as description.
    pub fn provide(&self, ctx: &CommandContext, _cwd: &str) -> (r: Vec<Suggestion>)
        ensures
            suggestions_view(r@) == if ctx.word_index != 0 {
                Seq::empty()
            } else {
                self@.map_values(|e: Seq<char>| history_suggestion(e))
            },
    {
        let mut out: Vec<Suggestion> = Vec::new();
        if ctx.word_index != 0 {
            assert(suggestions_view(out@) =~= Seq::<SpecSuggestion>::empty());
            return out;
        }
        let n = self.entries.len();
        for i in 0..n
            invariant
                n == self.entries@.len(),
                ctx.word_index == 0,
                suggestions_view(out@)
                    == strings_view(self.entries@).take(i as int).map_values(|e: Seq<char>| history_suggestion(e)),
        {
            let entry = &self.entries[i];
            let word = first_word(entry);
            let ghost prev = out@;
            out.push(Suggestion {
                text: word,
                description: Some(entry.clone()),
                kind: SuggestionKind::History,
                source: SuggestionSource::History,
                score: 0,
            });
            proof {
                assert(suggestions_view(out@) =~= suggestions_view(prev).push(history_suggestion(entry@)));
                assert(strings_view(self.entries@).take(i + 1).map_values(|e: Seq<char>| history_suggestion(e))
                    =~= strings_view(self.entries@).take(i as int).map_values(|e: Seq<char>| history_suggestion(e)).push(history_suggestion(entry@)));
            }
        }
        proof {
            assert(strings_view(self.entries@).take(n as int) =~= strings_view(self.entries@));
        }
        out
    }
}

/// The first whitespace-separated word of `s`.
fn first_word(s: &String) -> (r: String)
    ensures
        r@ == spec_first_word(s@),
{
    let cs = chars_of(s.as_str());
    let n = cs.len();
    let mut lo: usize = 0;
    while lo < n && is_whitespace(cs[lo])
        invariant
            lo <= n,
            n == cs@.len(),
            crate::text::leading_ws(cs@, 0) == lo + crate::text::leading_ws(cs@, lo as int),
        decreases n - lo,
    {
        lo = lo + 1;
    }
    if lo >= n {
        return s.clone();
    }
    let mut hi = lo;
    while hi < n && !is_whitespace(cs[hi])
        invariant
            lo <= hi <= n,
            n == cs@.len(),
            first_ws_from(cs@, lo as int) == first_ws_from(cs@, hi as int),
        decreases n - hi,
    {
        hi = hi + 1;
    }
    let w = sub_chars(&cs, lo, hi);
    string_from_chars(w.as_slice())
}

} // verus!

verus! {

/// The newest-first scan keeps its entries distinct, non-empty and within
/// the limit (at least one entry is always allowed).
proof fn lemma_dedup_from_props(rev_lines: Seq<Seq<char>>, i: int, entries: Seq<Seq<char>>, max_entries: nat)
    requires
        entries.no_duplicates(),
        forall|k: int| 0 <= k < entries.len() ==> #[trigger] entries[k].len() > 0,
        entries.len() <= max_entries,
    ensures
        dedup_from(rev_lines, i, entries, max_entries).no_duplicates(),
        forall|k: int| 0 <= k < dedup_from(rev_lines, i, entries, max_entries).len()
            ==> #[trigger] dedup_from(rev_lines, i, entries, max_entries)[k].len() > 0,
        dedup_from(rev_lines, i, entries, max_entries).len() <= max_entries,
    decreases rev_lines.len() - i,
{
    if 0 <= i < rev_lines.len() && entries.len() < max_entries {
        let cmd = spec_parse_history_line(rev_lines[i]);
        if cmd.len() == 0 {
            lemma_dedup_from_props(rev_lines, i + 1, entries, max_entries);
        } else {
            let e2 = if entries.contains(cmd) { entries } else { entries.push(cmd) };
            if !entries.contains(cmd) {
                assert forall|a: int, b: int| 0 <= a < b < e2.len() implies e2[a] != e2[b] by {
                    if b == entries.len() {
                        assert(e2[a] == entries[a]);
                    }
                }
            }
            assert forall|k: int| 0 <= k < e2.len() implies #[trigger] e2[k].len() > 0 by {
                if k < entries.len() {
                    assert(e2[k] == entries[k]);
                }
            }
            lemma_dedup_from_props(rev_lines, i + 1, e2, max_entries);
        }
    }
}

/// The loaded history holds each command once, never an empty one, and at
/// most `max_entries` of them.
pub proof fn law_history_distinct_and_bounded(contents: Seq<char>, max_entries: nat)
    ensures
        spec_parse_and_dedup(contents, max_entries).no_duplicates(),
        forall|k: int| 0 <= k < spec_parse_and_dedup(contents, max_entries).len()
            ==> #[trigger] spec_parse_and_dedup(contents, max_entries)[k].len() > 0,
        spec_parse_and_dedup(contents, max_entries).len() <= max_entries,
{
    let d = dedup_from(spec_lines(contents).reverse(), 0, Seq::empty(), max_entries);
    lemma_dedup_from_props(spec_lines(contents).reverse(), 0, Seq::empty(), max_entries);
    let r = d.reverse();
    assert forall|a: int, b: int| 0 <= a < b < r.len() implies r[a] != r[b] by {
        assert(r[a] == d[d.len() - 1 - a]);
        assert(r[b] == d[d.len() - 1 - b]);
    }
    assert forall|k: int| 0 <= k < r.len() implies #[trigger] r[k].len() > 0 by {
        assert(r[k] == d[d.len() - 1 - k]);
    }
}

/// Every command the newest-first scan keeps was held already or is the
/// command of some history line.
proof fn lemma_dedup_from_members(rev_lines: Seq<Seq<char>>, i: int, entries: Seq<Seq<char>>, max_entries: nat)
    requires
        0 <= i,
    ensures
        forall|x: Seq<char>| #[trigger] dedup_from(rev_lines, i, entries, max_entries).contains(x) ==> entries.contains(x)
            || exists|j: int| 0 <= j < rev_lines.len() && spec_parse_history_line(#[trigger] rev_lines[j]) == x,
    decreases rev_lines.len() - i,
{
    if 0 <= i < rev_lines.len() && entries.len() < max_entries {
        let cmd = spec_parse_history_line(rev_lines[i]);
        if cmd.len() == 0 {
            lemma_dedup_from_members(rev_lines, i + 1, entries, max_entries);
            assert(dedup_from(rev_lines, i, entries, max_entries) == dedup_from(rev_lines, i + 1, entries, max_entries));
        } else {
            let e2 = if entries.contains(cmd) { entries } else { entries.push(cmd) };
            lemma_dedup_from_members(rev_lines, i + 1, e2, max_entries);
            let d = dedup_from(rev_lines, i, entries, max_entries);
            assert(d == dedup_from(rev_lines, i + 1, e2, max_entries));
            assert forall|x: Seq<char>| #[trigger] d.contains(x) implies entries.contains(x) || exists|j: int|
                0 <= j < rev_lines.len() && spec_parse_history_line(#[trigger] rev_lines[j]) == x by {
                assert(e2.contains(x) || exists|j: int| 0 <= j < rev_lines.len() && spec_parse_history_line(#[trigger] rev_lines[j]) == x);
                if e2.contains(x) && !entries.contains(x) {
                    let w = choose|w: int| 0 <= w < e2.len() && e2[w] == x;
                    if w < entries.len() {
                        assert(entries[w] == x);
                    }
                    assert(x == cmd);
                    assert(spec_parse_history_line(rev_lines[i]) == x);
                }
            }
        }
    } else {
        assert(dedup_from(rev_lines, i, entries, max_entries) == entries);
    }
}

/// What history loading gives: from the history file's bytes, the distinct
/// non-blank commands, each the command of some line of the (lossily
/// decoded) file, at most `max_entries` of them (none for 0); nothing when
/// the file could not be read. At command position each is offered as a
/// history suggestion: its first word, with the whole command as description.
pub proof fn law_history_loading(contents: Seq<char>, max_entries: nat)
    ensures
        spec_parse_and_dedup(contents, max_entries).no_duplicates(),
        spec_parse_and_dedup(contents, max_entries).len() <= max_entries,
        forall|k: int| 0 <= k < spec_parse_and_dedup(contents, max_entries).len() ==> {
            let c = #[trigger] spec_parse_and_dedup(contents, max_entries)[k];
            &&& c.len() > 0
            &&& exists|j: int| 0 <= j < spec_lines(contents).len() && spec_parse_history_line(#[trigger] spec_lines(contents)[j]) == c
        },
        forall|k: int| 0 <= k < spec_parse_and_dedup(contents, max_entries).len() ==> {
            let h = history_suggestion(#[trigger] spec_parse_and_dedup(contents, max_entries)[k]);
            &&& h.source == SuggestionSource::History
            &&& h.kind == SuggestionKind::History
            &&& h.description == Some(spec_parse_and_dedup(contents, max_entries)[k])
        },
{
    law_history_distinct_and_bounded(contents, max_entries);
    let lines = spec_lines(contents);
    let rev = lines.reverse();
    let d = dedup_from(rev, 0, Seq::empty(), max_entries);
    lemma_dedup_from_members(rev, 0, Seq::empty(), max_entries);
    let r = d.reverse();
    assert forall|k: int| 0 <= k < r.len() implies #[trigger] r[k].len() > 0 && exists|j: int|
        0 <= j < lines.len() && spec_parse_history_line(#[trigger] lines[j]) == r[k] by {
        assert(r[k] == d[d.len() - 1 - k]);
        assert(d.contains(r[k]));
        assert(!Seq::<Seq<char>>::empty().contains(r[k]));
        let j = choose|j: int| 0 <= j < rev.len() && spec_parse_history_line(#[trigger] rev[j]) == r[k];
        assert(rev[j] == lines[lines.len() - 1 - j]);
    }
}

} // verus!
