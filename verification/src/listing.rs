//! Turning raw listings (directory entries, executables on `$PATH`, git's
//! output) into suggestions, and the `../` shortcut for `cd`.

use vstd::prelude::*;

use crate::context::{opt_string_view, starts_with, strings_view};
use crate::paths::{path_join, spec_path_join};
use crate::suggestion::{suggestions_view, SpecSuggestion, Suggestion, SuggestionKind, SuggestionSource};
use crate::fuzzy::{lemma_seq_lt_total, lemma_seq_lt_transitive, seq_lt, text_lt};
use crate::history::{spec_lines, split_lines};
use crate::text::{
    chars_of, push_chars, push_str_chars, spec_trim, spec_utf8_lossy, str_eq, string_from_chars, take_chars, trim_chars,
    utf8_lossy,
};

verus! {

/// Index of the last `/` in `s[..to]`, or -1 when there is none.
pub open spec fn last_slash_before(s: Seq<char>, to: int) -> int
    decreases to,
{
    if to <= 0 || to > s.len() {
        -1
    } else if s[to - 1] == '/' {
        to - 1
    } else {
        last_slash_before(s, to - 1)
    }
}

/// The last `/` lies before `to`.
proof fn lemma_last_slash_bounds(s: Seq<char>, to: int)
    requires
        0 <= to <= s.len(),
    ensures
        -1 <= last_slash_before(s, to) < to,
        last_slash_before(s, to) >= 0 ==> s[last_slash_before(s, to)] == '/',
    decreases to,
{
    if to > 0 && s[to - 1] != '/' {
        lemma_last_slash_bounds(s, to - 1);
    }
}

/// The directory part of the word being typed: everything up to and
/// including its last `/` (empty when it has none).
pub open spec fn spec_dir_part(word: Seq<char>) -> Seq<char> {
    word.take(last_slash_before(word, word.len() as int) + 1)
}

/// The directory whose entries complete the word: the directory part itself
/// when it is absolute, else that part under `cwd`.
pub open spec fn spec_listing_dir(word: Seq<char>, cwd: Seq<char>) -> Seq<char> {
    let d = spec_dir_part(word);
    if starts_with(d, seq!['/']) {
        d
    } else {
        spec_path_join(cwd, d)
    }
}

/// Index of the last `/` in `v[..to]`, or `to` itself... as a count: the
/// length of the directory part of `v[..to]`.
fn dir_part_len(v: &Vec<char>) -> (r: usize)
    ensures
        r as int == last_slash_before(v@, v@.len() as int) + 1,
{
    let mut to = v.len();
    while to > 0 && v[to - 1] != '/'
        invariant
            to <= v@.len(),
            last_slash_before(v@, v@.len() as int) == last_slash_before(v@, to as int),
        decreases to,
    {
        to = to - 1;
    }
    to
}

/// The directory part of the word (see [`spec_dir_part`]).
pub fn dir_part(word: &str) -> (r: String)
    ensures
        r@ == spec_dir_part(word@),
{
    let v = chars_of(word);
    let k = dir_part_len(&v);
    proof {
        lemma_last_slash_bounds(word@, word@.len() as int);
    }
    let mut out: Vec<char> = Vec::new();
    push_chars(&mut out, &v, 0, k);
    assert(out@ =~= word@.take(k as int));
    string_from_chars(out.as_slice())
}

/// The directory to read for the word (see [`spec_listing_dir`]).
pub fn listing_dir(word: &str, cwd: &str) -> (r: String)
    ensures
        r@ == spec_listing_dir(word@, cwd@),
{
    let d = dir_part(word);
    let dv = chars_of(d.as_str());
    let absolute = dv.len() > 0 && dv[0] == '/';
    proof {
        if absolute {
            assert(d@.take(1) =~= seq!['/']);
        } else if d@.len() > 0 {
            assert(d@.take(1)[0] != seq!['/'][0]);
        }
    }
    if absolute {
        d
    } else {
        path_join(cwd, d.as_str())
    }
}

/// The suggestion for one directory entry of the listing of `dir_part`:
/// a directory is offered with a trailing `/`; a file is left out when only
/// directories are wanted.
pub open spec fn entry_suggestions(dir_part: Seq<char>, name: Seq<char>, is_dir: bool, dirs_only: bool) -> Seq<SpecSuggestion> {
    if is_dir {
        seq![SpecSuggestion {
            text: dir_part + name + seq!['/'],
            description: None,
            kind: SuggestionKind::Directory,
            source: SuggestionSource::Filesystem,
            score: 0,
        }]
    } else if dirs_only {
        Seq::empty()
    } else {
        seq![SpecSuggestion {
            text: dir_part + name,
            description: None,
            kind: SuggestionKind::FilePath,
            source: SuggestionSource::Filesystem,
            score: 0,
        }]
    }
}

/// The suggestions for the entries of a directory listing, in order; each
/// entry is its name and whether it is a directory.
pub open spec fn spec_file_suggestions(dir_part: Seq<char>, entries: Seq<(String, bool)>, dirs_only: bool) -> Seq<SpecSuggestion>
    decreases entries.len(),
{
    if entries.len() == 0 {
        Seq::empty()
    } else {
        spec_file_suggestions(dir_part, entries.drop_last(), dirs_only)
            + entry_suggestions(dir_part, entries.last().0@, entries.last().1, dirs_only)
    }
}

/// The suggestions for a directory listing of the word's directory part
/// (see [`spec_file_suggestions`]).
pub fn file_suggestions(word: &str, entries: &Vec<(String, bool)>, dirs_only: bool) -> (r: Vec<Suggestion>)
    ensures
        suggestions_view(r@) == spec_file_suggestions(spec_dir_part(word@), entries@, dirs_only),
{
    let d = dir_part(word);
    let mut out: Vec<Suggestion> = Vec::new();
    let n = entries.len();
    for i in 0..n
        invariant
            n == entries@.len(),
            d@ == spec_dir_part(word@),
            suggestions_view(out@) == spec_file_suggestions(d@, entries@.take(i as int), dirs_only),
    {
        let (name, is_dir) = (&entries[i].0, entries[i].1);
        let ghost prev = suggestions_view(out@);
        proof {
            assert(entries@.take(i + 1).drop_last() =~= entries@.take(i as int));
            assert(entries@.take(i + 1).last() == entries@[i as int]);
        }
        if is_dir || !dirs_only {
            let mut t: Vec<char> = Vec::new();
            push_str_chars(&mut t, d.as_str());
            push_str_chars(&mut t, name.as_str());
            if is_dir {
                t.push('/');
            }
            proof {
                if is_dir {
                    assert(t@ =~= d@ + name@ + seq!['/']);
                } else {
                    assert(t@ =~= d@ + name@);
                }
            }
            let text = string_from_chars(t.as_slice());
            out.push(Suggestion {
                text,
                description: None,
                kind: if is_dir { SuggestionKind::Directory } else { SuggestionKind::FilePath },
                source: SuggestionSource::Filesystem,
                score: 0,
            });
            proof {
                let e = entry_suggestions(d@, name@, is_dir, dirs_only);
                assert(e.len() == 1);
                assert(suggestions_view(out@)[prev.len() as int] == e[0]);
                assert(suggestions_view(out@) =~= prev + e);
            }
        } else {
            assert(suggestions_view(out@) =~= prev + entry_suggestions(d@, name@, is_dir, dirs_only));
        }
    }
    assert(entries@.take(n as int) =~= entries@);
    out
}

/// `p` without trailing `/`s (a lone `/` is kept).
pub open spec fn strip_trailing_slashes(p: Seq<char>) -> Seq<char>
    decreases p.len(),
{
    if p.len() > 1 && p.last() == '/' {
        strip_trailing_slashes(p.drop_last())
    } else {
        p
    }
}

/// The parent directory of a path: everything before its last component,
/// `/` at the top.
pub open spec fn spec_parent_dir(p: Seq<char>) -> Seq<char> {
    let q = strip_trailing_slashes(p);
    let i = last_slash_before(q, q.len() as int);
    if i <= 0 { seq!['/'] } else { q.take(i) }
}

/// The directory `k` levels above `p`.
pub open spec fn up_dirs(p: Seq<char>, k: nat) -> Seq<char>
    decreases k,
{
    if k == 0 { strip_trailing_slashes(p) } else { spec_parent_dir(up_dirs(p, (k - 1) as nat)) }
}

/// The word is `../` repeated some number of times (possibly none).
pub open spec fn is_up_chain(w: Seq<char>) -> bool {
    &&& w.len() % 3 == 0
    &&& forall|i: int| 0 <= i < w.len() ==> #[trigger] w[i] == (if i % 3 == 2 { '/' } else { '.' })
}

/// The `../` shortcut for `cd`: while the word being typed is empty or a
/// chain of `../`, one more `../` is offered, unless the directory the chain
/// already reaches is `/` or the home directory.
pub open spec fn spec_parent_shortcut(
    command: Option<Seq<char>>,
    word: Seq<char>,
    cwd: Seq<char>,
    home: Option<Seq<char>>,
) -> Option<SpecSuggestion> {
    if command == Some("cd"@) && is_up_chain(word) {
        let here = up_dirs(cwd, (word.len() / 3) as nat);
        if here == seq!['/'] || (home is Some && here == strip_trailing_slashes(home.unwrap())) {
            None
        } else {
            Some(SpecSuggestion {
                text: word + "../"@,
                description: None,
                kind: SuggestionKind::Directory,
                source: SuggestionSource::Filesystem,
                score: 0,
            })
        }
    } else {
        None
    }
}

/// `v` without trailing `/`s.
fn strip_trailing(v: &Vec<char>) -> (r: Vec<char>)
    ensures
        r@ == strip_trailing_slashes(v@),
{
    let mut len = v.len();
    assert(v@.take(len as int) =~= v@);
    while len > 1 && v[len - 1] == '/'
        invariant
            len <= v@.len(),
            strip_trailing_slashes(v@) == strip_trailing_slashes(v@.take(len as int)),
        decreases len,
    {
        assert(v@.take(len as int).drop_last() =~= v@.take(len - 1));
        len = len - 1;
    }
    take_chars(v, len)
}

/// The parent directory (see [`spec_parent_dir`]).
fn parent_dir(v: &Vec<char>) -> (r: Vec<char>)
    ensures
        r@ == spec_parent_dir(v@),
{
    let q = strip_trailing(v);
    let k = dir_part_len(&q);
    proof {
        lemma_last_slash_bounds(q@, q@.len() as int);
    }
    if k <= 1 {
        let mut r: Vec<char> = Vec::new();
        r.push('/');
        assert(r@ =~= seq!['/']);
        r
    } else {
        take_chars(&q, k - 1)
    }
}

/// Whether the word is a chain of `../`.
fn up_chain(w: &Vec<char>) -> (r: bool)
    ensures
        r == is_up_chain(w@),
{
    if w.len() % 3 != 0 {
        return false;
    }
    let n = w.len();
    for i in 0..n
        invariant
            n == w@.len(),
            forall|j: int| 0 <= j < i ==> #[trigger] w@[j] == (if j % 3 == 2 { '/' } else { '.' }),
    {
        let expected = if i % 3 == 2 { '/' } else { '.' };
        if w[i] != expected {
            return false;
        }
    }
    true
}

/// The `../` shortcut for `cd` (see [`spec_parent_shortcut`]), for the
/// command and word being typed, the working directory and the home
/// directory.
pub fn parent_shortcut(command: Option<&str>, word: &str, cwd: &str, home: Option<&str>) -> (r: Option<Suggestion>)
    ensures
        match r {
            Some(s) => spec_parent_shortcut(opt_str(command), word@, cwd@, opt_str(home)) == Some(s@),
            None => spec_parent_shortcut(opt_str(command), word@, cwd@, opt_str(home)) is None,
        },
{
    let is_cd = match command {
        Some(c) => str_eq(c, "cd"),
        None => false,
    };
    let w = chars_of(word);
    if !is_cd || !up_chain(&w) {
        return None;
    }
    let levels = w.len() / 3;
    let cv = chars_of(cwd);
    let mut here = strip_trailing(&cv);
    let mut k: usize = 0;
    while k < levels
        invariant
            k <= levels,
            here@ == up_dirs(cwd@, k as nat),
        decreases levels - k,
    {
        here = parent_dir(&here);
        k = k + 1;
    }
    let here_s = string_from_chars(here.as_slice());
    proof {
        reveal_strlit("/");
        assert("/"@ =~= seq!['/']);
    }
    if str_eq(here_s.as_str(), "/") {
        return None;
    }
    match home {
        Some(h) => {
            let hv = chars_of(h);
            let hs = strip_trailing(&hv);
            let hs_s = string_from_chars(hs.as_slice());
            if str_eq(here_s.as_str(), hs_s.as_str()) {
                return None;
            }
        },
        None => {},
    }
    let mut t: Vec<char> = Vec::new();
    push_str_chars(&mut t, word);
    push_str_chars(&mut t, "../");
    Some(Suggestion {
        text: string_from_chars(t.as_slice()),
        description: None,
        kind: SuggestionKind::Directory,
        source: SuggestionSource::Filesystem,
        score: 0,
    })
}

/// An optional string slice as characters.
pub open spec fn opt_str(o: Option<&str>) -> Option<Seq<char>> {
    match o {
        Some(s) => Some(s@),
        None => None,
    }
}

/// The non-blank lines of a listing, each trimmed, in order.
pub open spec fn trimmed_lines(lines: Seq<Seq<char>>) -> Seq<Seq<char>>
    decreases lines.len(),
{
    if lines.len() == 0 {
        Seq::empty()
    } else {
        let t = spec_trim(lines.last());
        trimmed_lines(lines.drop_last()) + (if t.len() > 0 { seq![t] } else { Seq::empty() })
    }
}

/// The suggestion for one line of git's output.
pub open spec fn git_suggestion(line: Seq<char>, kind: SuggestionKind) -> SpecSuggestion {
    SpecSuggestion { text: line, description: None, kind, source: SuggestionSource::Git, score: 0 }
}

/// The suggestions from what a git command printed: one per non-blank line
/// of the (lossily decoded) output, trimmed, in order.
pub open spec fn spec_git_suggestions(stdout: Seq<u8>, kind: SuggestionKind) -> Seq<SpecSuggestion> {
    trimmed_lines(spec_lines(spec_utf8_lossy(stdout))).map_values(|l: Seq<char>| git_suggestion(l, kind))
}

/// The suggestions from a git command's output (see [`spec_git_suggestions`]).
pub fn git_suggestions(stdout: &[u8], kind: SuggestionKind) -> (r: Vec<Suggestion>)
    ensures
        suggestions_view(r@) == spec_git_suggestions(stdout@, kind),
{
    let text = utf8_lossy(stdout);
    let cs = chars_of(text.as_str());
    let lines = split_lines(&cs);
    let ghost lv = lines@.map_values(|l: Vec<char>| l@);
    let mut out: Vec<Suggestion> = Vec::new();
    let n = lines.len();
    for i in 0..n
        invariant
            n == lines@.len(),
            lv == lines@.map_values(|l: Vec<char>| l@),
            suggestions_view(out@) == trimmed_lines(lv.take(i as int)).map_values(
                |l: Seq<char>| git_suggestion(l, kind),
            ),
    {
        let t = trim_chars(&lines[i]);
        let ghost prev = trimmed_lines(lv.take(i as int));
        proof {
            assert(lv.take(i + 1).drop_last() =~= lv.take(i as int));
            assert(lv.take(i + 1).last() == lines@[i as int]@);
        }
        if t.len() > 0 {
            out.push(Suggestion {
                text: string_from_chars(t.as_slice()),
                description: None,
                kind,
                source: SuggestionSource::Git,
                score: 0,
            });
            proof {
                assert(trimmed_lines(lv.take(i + 1)) =~= prev.push(t@));
                assert(out@.last()@ == git_suggestion(t@, kind));
                assert(prev.push(t@).map_values(|l: Seq<char>| git_suggestion(l, kind)) =~= prev.map_values(
                    |l: Seq<char>| git_suggestion(l, kind),
                ).push(git_suggestion(t@, kind)));
                assert(suggestions_view(out@) =~= trimmed_lines(lv.take(i + 1)).map_values(
                    |l: Seq<char>| git_suggestion(l, kind),
                ));
            }
        } else {
            proof {
                assert(trimmed_lines(lv.take(i + 1)) =~= prev);
            }
        }
    }
    assert(lv.take(n as int) =~= lv);
    out
}

/// The git arguments that list what a generator names, and the kind of its
/// suggestions: branches, tags or remotes; nothing for another generator.
pub open spec fn spec_generator_git(generator: Seq<char>) -> Option<(Seq<Seq<char>>, SuggestionKind)> {
    if generator == "git_branches"@ {
        Some((seq!["branch"@, "--format=%(refname:short)"@], SuggestionKind::GitBranch))
    } else if generator == "git_tags"@ {
        Some((seq!["tag"@], SuggestionKind::GitTag))
    } else if generator == "git_remotes"@ {
        Some((seq!["remote"@], SuggestionKind::GitRemote))
    } else {
        None
    }
}

/// The git command for a generator (see [`spec_generator_git`]).
pub fn generator_git(generator: &str) -> (r: Option<(Vec<String>, SuggestionKind)>)
    ensures
        match r {
            Some((args, kind)) => spec_generator_git(generator@) == Some((strings_view(args@), kind)),
            None => spec_generator_git(generator@) is None,
        },
{
    if str_eq(generator, "git_branches") {
        let mut args: Vec<String> = Vec::new();
        args.push("branch".to_string());
        args.push("--format=%(refname:short)".to_string());
        assert(strings_view(args@) =~= seq!["branch"@, "--format=%(refname:short)"@]);
        Some((args, SuggestionKind::GitBranch))
    } else if str_eq(generator, "git_tags") {
        let mut args: Vec<String> = Vec::new();
        args.push("tag".to_string());
        assert(strings_view(args@) =~= seq!["tag"@]);
        Some((args, SuggestionKind::GitTag))
    } else if str_eq(generator, "git_remotes") {
        let mut args: Vec<String> = Vec::new();
        args.push("remote".to_string());
        assert(strings_view(args@) =~= seq!["remote"@]);
        Some((args, SuggestionKind::GitRemote))
    } else {
        None
    }
}

/// Each name sorts strictly before the next (so none repeats).
pub open spec fn strictly_sorted(s: Seq<Seq<char>>) -> bool {
    forall|i: int, j: int| 0 <= i < j < s.len() ==> seq_lt(#[trigger] s[i], #[trigger] s[j])
}

/// Inserting a name between those below it and those above it keeps the
/// names strictly sorted.
proof fn lemma_insert_sorted(s: Seq<Seq<char>>, p: int, x: Seq<char>)
    requires
        strictly_sorted(s),
        0 <= p <= s.len(),
        forall|k: int| 0 <= k < p ==> seq_lt(#[trigger] s[k], x),
        p < s.len() ==> seq_lt(x, s[p]),
    ensures
        strictly_sorted(s.insert(p, x)),
{
    let t = s.insert(p, x);
    assert forall|i: int, j: int| 0 <= i < j < t.len() implies seq_lt(#[trigger] t[i], #[trigger] t[j]) by {
        if j < p {
            assert(t[i] == s[i] && t[j] == s[j]);
        } else if j == p {
            assert(t[i] == s[i] && t[j] == x);
        } else if i == p {
            assert(t[j] == s[j - 1]);
            if j - 1 > p {
                lemma_seq_lt_transitive(x, s[p], s[j - 1]);
            }
        } else if i < p {
            assert(t[i] == s[i] && t[j] == s[j - 1]);
            if j - 1 >= p {
                assert(seq_lt(s[i], x));
                if j - 1 > p {
                    lemma_seq_lt_transitive(x, s[p], s[j - 1]);
                }
                lemma_seq_lt_transitive(s[i], x, s[j - 1]);
            }
        } else {
            assert(t[i] == s[i - 1] && t[j] == s[j - 1]);
        }
    }
}

/// The names in strictly increasing order, each once.
pub fn sorted_unique(names: &Vec<String>) -> (r: Vec<String>)
    ensures
        strictly_sorted(strings_view(r@)),
        forall|x: Seq<char>| strings_view(r@).contains(x) <==> strings_view(names@).contains(x),
{
    let ghost nv = strings_view(names@);
    let mut out: Vec<String> = Vec::new();
    let n = names.len();
    for i in 0..n
        invariant
            n == names@.len(),
            nv == strings_view(names@),
            strictly_sorted(strings_view(out@)),
            forall|x: Seq<char>| strings_view(out@).contains(x) <==> nv.take(i as int).contains(x),
    {
        let name = &names[i];
        let ghost ov = strings_view(out@);
        let len = out.len();
        let mut p: usize = 0;
        while p < len && text_lt(&out[p], name)
            invariant
                p <= len,
                len == out@.len(),
                ov == strings_view(out@),
                forall|k: int| 0 <= k < p ==> seq_lt(#[trigger] ov[k], name@),
            decreases len - p,
        {
            p = p + 1;
        }
        let ghost t0 = nv.take(i as int);
        let ghost t1 = nv.take(i + 1);
        proof {
            assert(t1 =~= t0.push(name@));
            assert(nv[i as int] == name@);
        }
        if p < len && str_eq(out[p].as_str(), name.as_str()) {
            proof {
                assert(ov[p as int] == name@);
                assert forall|x: Seq<char>| ov.contains(x) <==> t1.contains(x) by {
                    if x == name@ {
                        assert(ov.contains(x));
                        assert(t1[i as int] == x);
                    }
                    if t1.contains(x) && x != name@ {
                        let w = choose|w: int| 0 <= w < i + 1 && t1[w] == x;
                        assert(t0[w] == x);
                    }
                    if t0.contains(x) {
                        let w = choose|w: int| 0 <= w < i && t0[w] == x;
                        assert(t1[w] == x);
                    }
                }
            }
        } else {
            proof {
                if p < len {
                    lemma_seq_lt_total(ov[p as int], name@);
                }
                lemma_insert_sorted(ov, p as int, name@);
            }
            out.insert(p, name.clone());
            proof {
                assert(strings_view(out@) =~= ov.insert(p as int, name@));
                let nw = ov.insert(p as int, name@);
                assert forall|x: Seq<char>| nw.contains(x) <==> t1.contains(x) by {
                    if nw.contains(x) {
                        let w = choose|w: int| 0 <= w < nw.len() && nw[w] == x;
                        if w < p {
                            assert(ov[w] == x);
                        } else if w > p {
                            assert(ov[w - 1] == x);
                        }
                        if x != name@ {
                            assert(ov.contains(x));
                            let v = choose|v: int| 0 <= v < i && t0[v] == x;
                            assert(t1[v] == x);
                        } else {
                            assert(t1[i as int] == x);
                        }
                    }
                    if t1.contains(x) {
                        let w = choose|w: int| 0 <= w < i + 1 && t1[w] == x;
                        if w == i {
                            assert(nw[p as int] == x);
                        } else {
                            assert(t0[w] == x);
                            assert(ov.contains(x));
                            let v = choose|v: int| 0 <= v < ov.len() && ov[v] == x;
                            if v < p {
                                assert(nw[v] == x);
                            } else {
                                assert(nw[v + 1] == x);
                            }
                        }
                    }
                }
            }
        }
    }
    assert(nv.take(n as int) =~= nv);
    out
}

/// The suggestion for an executable on `$PATH`.
pub open spec fn command_suggestion(name: Seq<char>) -> SpecSuggestion {
    SpecSuggestion {
        text: name,
        description: None,
        kind: SuggestionKind::Command,
        source: SuggestionSource::Commands,
        score: 0,
    }
}

/// The suggestions for the executables found on `$PATH` (from every
/// directory, in any order): each name once, in increasing order.
pub fn command_suggestions(names: &Vec<String>) -> (r: Vec<Suggestion>)
    ensures
        ({
            let texts = suggestions_view(r@).map_values(|s: SpecSuggestion| s.text);
            &&& strictly_sorted(texts)
            &&& forall|x: Seq<char>| texts.contains(x) <==> strings_view(names@).contains(x)
            &&& suggestions_view(r@) == texts.map_values(|t: Seq<char>| command_suggestion(t))
        }),
{
    let sorted = sorted_unique(names);
    let mut out: Vec<Suggestion> = Vec::new();
    let n = sorted.len();
    for i in 0..n
        invariant
            n == sorted@.len(),
            suggestions_view(out@) == strings_view(sorted@).take(i as int).map_values(
                |t: Seq<char>| command_suggestion(t),
            ),
    {
        let ghost prev = strings_view(sorted@).take(i as int);
        let text = sorted[i].clone();
        assert(text@ == sorted@[i as int]@);
        out.push(Suggestion {
            text,
            description: None,
            kind: SuggestionKind::Command,
            source: SuggestionSource::Commands,
            score: 0,
        });
        proof {
            assert(out@.last()@ == command_suggestion(sorted@[i as int]@));
            assert(prev.push(sorted@[i as int]@).map_values(|t: Seq<char>| command_suggestion(t))
                =~= prev.map_values(|t: Seq<char>| command_suggestion(t)).push(command_suggestion(sorted@[i as int]@)));
            assert(strings_view(sorted@).take(i + 1) =~= strings_view(sorted@).take(i as int).push(sorted@[i as int]@));
            assert(suggestions_view(out@) =~= strings_view(sorted@).take(i + 1).map_values(
                |t: Seq<char>| command_suggestion(t),
            ));
        }
    }
    proof {
        let sv = strings_view(sorted@);
        assert(sv.take(n as int) =~= sv);
        let texts = suggestions_view(out@).map_values(|s: SpecSuggestion| s.text);
        assert(texts =~= sv);
    }
    out
}

} // verus!
