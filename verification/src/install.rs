//! The managed blocks that `ghost-complete install` writes into `.zshrc`,
//! and how install and uninstall rewrite the file's contents.
//!
//! Reading, backing up and writing the files is the application's job.

use vstd::prelude::*;

use crate::text::{
    chars_of, lemma_trim_after_newline, lemma_ws_bounds, push_chars, push_str_chars, spec_trim, string_from_chars,
    trim_chars,
};

verus! {

pub const INIT_BEGIN: &'static str = "# >>> ghost-complete initialize >>>";
pub const INIT_END: &'static str = "# <<< ghost-complete initialize <<<";
pub const SHELL_BEGIN: &'static str = "# >>> ghost-complete shell integration >>>";
pub const SHELL_END: &'static str = "# <<< ghost-complete shell integration <<<";
pub const MANAGED_WARNING: &'static str = "# !! Contents within this block are managed by 'ghost-complete install' !!";
/// The body of the init block: in Ghostty, start the proxy unless this shell
/// is already the proxy's child (its parent process is ghost-complete).
pub const INIT_BODY: &'static str = "if [[ \"$TERM_PROGRAM\" == \"ghostty\" && \"$(ps -o comm= -p $PPID 2>/dev/null)\" != *ghost-complete* ]]; then\n  export GHOST_COMPLETE_ACTIVE=1\n  exec ghost-complete\nfi\n";

/// The block that starts ghost-complete when the shell starts.
pub open spec fn spec_init_block() -> Seq<char> {
    INIT_BEGIN@ + seq!['\n'] + MANAGED_WARNING@ + seq!['\n'] + INIT_BODY@ + INIT_END@
}

/// The block that sources the shell integration script at `script_path`.
pub open spec fn spec_shell_block(script_path: Seq<char>) -> Seq<char> {
    SHELL_BEGIN@ + seq!['\n'] + MANAGED_WARNING@ + seq!['\n'] + "source "@ + seq!['"'] + script_path
        + seq!['"', '\n'] + SHELL_END@
}

/// `p` occurs in `s` at `i`.
pub open spec fn matches_at(s: Seq<char>, p: Seq<char>, i: int) -> bool {
    0 <= i && i + p.len() <= s.len() && s.subrange(i, i + p.len()) == p
}

/// The first occurrence of `p` in `s` at or after `k`.
pub open spec fn find_from(s: Seq<char>, p: Seq<char>, k: int) -> Option<int>
    decreases s.len() + 1 - k,
{
    if k < 0 || k + p.len() > s.len() {
        None
    } else if matches_at(s, p, k) {
        Some(k)
    } else {
        find_from(s, p, k + 1)
    }
}

/// `s` contains `p`.
pub open spec fn contains_seq(s: Seq<char>, p: Seq<char>) -> bool {
    exists|i: int| matches_at(s, p, i)
}

/// `content` without its first block from `begin` to the next `end` (and
/// the newline right after it), and whether such a block was there.
pub open spec fn spec_remove_block(content: Seq<char>, begin: Seq<char>, end: Seq<char>) -> (Seq<char>, bool) {
    match find_from(content, begin, 0) {
        None => (content, false),
        Some(si) => match find_from(content, end, si) {
            None => (content, false),
            Some(em) => {
                let ei = em + end.len();
                let after = if ei < content.len() && content[ei] == '\n' {
                    content.skip(ei + 1)
                } else {
                    content.skip(ei)
                };
                (content.take(si) + after, true)
            },
        },
    }
}

/// The user's own content of a `.zshrc`: both managed blocks removed and
/// surrounding whitespace trimmed.
pub open spec fn spec_user_content(existing: Seq<char>) -> Seq<char> {
    let c1 = spec_remove_block(existing, INIT_BEGIN@, INIT_END@).0;
    let c2 = spec_remove_block(c1, SHELL_BEGIN@, SHELL_END@).0;
    spec_trim(c2)
}

/// The `.zshrc` after install: the init block first, then the user's
/// content (if any), then the shell integration block, each on its own lines.
pub open spec fn spec_installed_zshrc(existing: Seq<char>, script_path: Seq<char>) -> Seq<char> {
    let c = spec_user_content(existing);
    spec_init_block() + seq!['\n'] + (if c.len() > 0 { c + seq!['\n'] } else { Seq::empty() })
        + spec_shell_block(script_path) + seq!['\n']
}

/// The `.zshrc` after uninstall, and whether any managed block was found.
pub open spec fn spec_uninstalled_zshrc(content: Seq<char>) -> (Seq<char>, bool) {
    let (c1, found_init) = spec_remove_block(content, INIT_BEGIN@, INIT_END@);
    let (c2, found_shell) = spec_remove_block(c1, SHELL_BEGIN@, SHELL_END@);
    (c2, found_init || found_shell)
}

/// The init block.
pub fn init_block() -> (r: String)
    ensures
        r@ == spec_init_block(),
{
    let mut v: Vec<char> = Vec::new();
    push_str_chars(&mut v, INIT_BEGIN);
    v.push('\n');
    push_str_chars(&mut v, MANAGED_WARNING);
    v.push('\n');
    push_str_chars(&mut v, INIT_BODY);
    push_str_chars(&mut v, INIT_END);
    assert(v@ =~= spec_init_block());
    string_from_chars(v.as_slice())
}

/// The shell integration block for the script at `script_path`.
pub fn shell_integration_block(script_path: &str) -> (r: String)
    ensures
        r@ == spec_shell_block(script_path@),
{
    let mut v: Vec<char> = Vec::new();
    push_str_chars(&mut v, SHELL_BEGIN);
    v.push('\n');
    push_str_chars(&mut v, MANAGED_WARNING);
    v.push('\n');
    push_str_chars(&mut v, "source ");
    v.push('"');
    push_str_chars(&mut v, script_path);
    v.push('"');
    v.push('\n');
    push_str_chars(&mut v, SHELL_END);
    assert(v@ =~= spec_shell_block(script_path@));
    string_from_chars(v.as_slice())
}

/// Whether `p` occurs in `s` at `i` (with `i + |p| <= |s|`).
fn matches_at_exec(s: &Vec<char>, p: &Vec<char>, i: usize) -> (r: bool)
    requires
        i + p@.len() <= s@.len(),
    ensures
        r == matches_at(s@, p@, i as int),
{
    let m = p.len();
    let mut j: usize = 0;
    while j < m
        invariant
            j <= m,
            m == p@.len(),
            i + m <= s@.len(),
            s@.len() == s.len(),
            forall|t: int| 0 <= t < j ==> s@[i + t] == p@[t],
        decreases m - j,
    {
        if s[i + j] != p[j] {
            assert(s@.subrange(i as int, i + m)[j as int] != p@[j as int]);
            return false;
        }
        j = j + 1;
    }
    assert(s@.subrange(i as int, i + m) =~= p@);
    true
}

/// The first occurrence of `p` in `s` at or after `k`.
fn find_chars(s: &Vec<char>, p: &Vec<char>, k: usize) -> (r: Option<usize>)
    ensures
        match r {
            Some(x) => find_from(s@, p@, k as int) == Some(x as int),
            None => find_from(s@, p@, k as int) is None,
        },
{
    let n = s.len();
    let m = p.len();
    if m > n {
        return None;
    }
    if m == 0 {
        if k <= n {
            assert(s@.subrange(k as int, k as int) =~= p@);
            return Some(k);
        }
        return None;
    }
    let mut i = k;
    while i <= n - m
        invariant
            1 <= m <= n,
            n == s@.len(),
            m == p@.len(),
            k <= i,
            find_from(s@, p@, k as int) == find_from(s@, p@, i as int),
        decreases n - i,
    {
        if matches_at_exec(s, p, i) {
            return Some(i);
        }
        i = i + 1;
    }
    None
}

/// Strips a managed block delimited by `begin`..`end` markers from `content`.
/// Returns `(new_content, was_found)`.
pub fn remove_block(content: &str, begin: &str, end: &str) -> (r: (String, bool))
    ensures
        (r.0@, r.1) == spec_remove_block(content@, begin@, end@),
{
    let c = chars_of(content);
    let b = chars_of(begin);
    let e = chars_of(end);
    let start_idx = match find_chars(&c, &b, 0) {
        Some(x) => x,
        None => return (content.to_string(), false),
    };
    let end_match = match find_chars(&c, &e, start_idx) {
        Some(x) => x,
        None => return (content.to_string(), false),
    };
    proof {
        lemma_find_from_matches(c@, e@, start_idx as int);
        assert(matches_at(c@, e@, end_match as int));
        assert(end_match + e@.len() <= c@.len());
    }
    let cl = c.len();
    let el = e.len();
    assert(end_match + el <= cl);
    let end_idx = end_match + el;
    let mut v: Vec<char> = Vec::new();
    push_chars(&mut v, &c, 0, start_idx);
    if end_idx < c.len() && c[end_idx] == '\n' {
        push_chars(&mut v, &c, end_idx + 1, c.len());
    } else {
        push_chars(&mut v, &c, end_idx, c.len());
    }
    proof {
        lemma_find_from_matches(c@, b@, 0);
        assert(v@ =~= spec_remove_block(content@, begin@, end@).0);
    }
    (string_from_chars(v.as_slice()), true)
}

/// A found occurrence is a match at or after the start.
pub proof fn lemma_find_from_matches(s: Seq<char>, p: Seq<char>, k: int)
    ensures
        find_from(s, p, k) matches Some(x) ==> k <= x && matches_at(s, p, x),
    decreases s.len() + 1 - k,
{
    if !(k < 0 || k + p.len() > s.len()) && !matches_at(s, p, k) {
        lemma_find_from_matches(s, p, k + 1);
    }
}

/// The user's own content of a `.zshrc` (see [`spec_user_content`]).
pub fn user_content(existing: &str) -> (r: Vec<char>)
    ensures
        r@ == spec_user_content(existing@),
{
    let (c1, _) = remove_block(existing, INIT_BEGIN, INIT_END);
    let (c2, _) = remove_block(c1.as_str(), SHELL_BEGIN, SHELL_END);
    let cs = chars_of(c2.as_str());
    trim_chars(&cs)
}

/// The `.zshrc` after install (see [`spec_installed_zshrc`]).
pub fn installed_zshrc(existing: &str, script_path: &str) -> (r: String)
    ensures
        r@ == spec_installed_zshrc(existing@, script_path@),
{
    let content = user_content(existing);
    let init = init_block();
    let shell = shell_integration_block(script_path);
    let mut v: Vec<char> = Vec::new();
    push_str_chars(&mut v, init.as_str());
    v.push('\n');
    if content.len() > 0 {
        push_chars(&mut v, &content, 0, content.len());
        v.push('\n');
    }
    push_str_chars(&mut v, shell.as_str());
    v.push('\n');
    proof {
        assert(content@.subrange(0, content@.len() as int) =~= content@);
        assert(v@ =~= spec_installed_zshrc(existing@, script_path@));
    }
    string_from_chars(v.as_slice())
}

/// The `.zshrc` after uninstall, and whether a managed block was found.
pub fn uninstalled_zshrc(content: &str) -> (r: (String, bool))
    ensures
        (r.0@, r.1) == spec_uninstalled_zshrc(content@),
{
    let (c1, found_init) = remove_block(content, INIT_BEGIN, INIT_END);
    let (c2, found_shell) = remove_block(c1.as_str(), SHELL_BEGIN, SHELL_END);
    (c2, found_init || found_shell)
}

} // verus!

verus! {

/// No character of `s` is `ch`.
pub open spec fn lacks_char(s: Seq<char>, ch: char) -> bool {
    forall|i: int| 0 <= i < s.len() ==> s[i] != ch
}

/// The characters of the markers that the proofs rely on.
proof fn lemma_marker_chars()
    ensures
        lacks_char(INIT_BEGIN@, '<'),
        lacks_char(MANAGED_WARNING@, '<'),
        lacks_char(INIT_BODY@, '<'),
        INIT_END@.len() > 3,
        INIT_END@[0] == '#',
        INIT_END@[1] == ' ',
        INIT_END@[2] == '<',
        lacks_char(SHELL_BEGIN@, '<'),
        lacks_char(SHELL_BEGIN@, '\n'),
        SHELL_BEGIN@.len() > 0,
        lacks_char("source "@, '<'),
        SHELL_END@.len() > 3,
        SHELL_END@[0] == '#',
        SHELL_END@[2] == '<',
        lacks_char(SHELL_END@, '"'),
        lacks_char(SHELL_END@, '\n'),
{
    reveal_strlit("# >>> ghost-complete initialize >>>");
    reveal_strlit("# <<< ghost-complete initialize <<<");
    reveal_strlit("# >>> ghost-complete shell integration >>>");
    reveal_strlit("# <<< ghost-complete shell integration <<<");
    reveal_strlit("# !! Contents within this block are managed by 'ghost-complete install' !!");
    reveal_strlit("if [[ \"$TERM_PROGRAM\" == \"ghostty\" && \"$(ps -o comm= -p $PPID 2>/dev/null)\" != *ghost-complete* ]]; then\n  export GHOST_COMPLETE_ACTIVE=1\n  exec ghost-complete\nfi\n");
    reveal_strlit("source ");
}

/// A match needs every character of the pattern in place.
proof fn lemma_no_match_at(s: Seq<char>, p: Seq<char>, i: int, q: int)
    requires
        0 <= i <= q < i + p.len(),
        q < s.len(),
        p[q - i] != s[q],
    ensures
        !matches_at(s, p, i),
{
    if matches_at(s, p, i) {
        assert(s.subrange(i, i + p.len())[q - i] == s[q]);
    }
}

/// Positions without a match can be skipped by the search.
proof fn lemma_find_skip(s: Seq<char>, p: Seq<char>, k: int, j: int)
    requires
        0 <= k <= j,
        forall|i: int| k <= i < j ==> !matches_at(s, p, i),
    ensures
        find_from(s, p, k) == find_from(s, p, j),
    decreases j - k,
{
    if k < j {
        lemma_find_skip(s, p, k + 1, j);
    }
}

/// The layout of the init block: where its end marker starts.
pub open spec fn init_end_start() -> int {
    spec_init_block().len() - INIT_END@.len()
}

/// Removing the init block from a file that starts with it (and a newline)
/// leaves exactly the rest of the file.
proof fn lemma_remove_init_block(rest: Seq<char>)
    ensures
        spec_remove_block(spec_init_block() + seq!['\n'] + rest, INIT_BEGIN@, INIT_END@) == (rest, true),
{
    lemma_marker_chars();
    let ib = spec_init_block();
    let y = ib + seq!['\n'] + rest;
    let e0 = init_end_start();
    let pre = INIT_BEGIN@ + seq!['\n'] + MANAGED_WARNING@ + seq!['\n'] + INIT_BODY@;
    assert(ib =~= pre + INIT_END@);
    assert(y.subrange(0, INIT_BEGIN@.len() as int) =~= INIT_BEGIN@);
    assert(find_from(y, INIT_BEGIN@, 0) == Some(0int));
    assert forall|i: int| 0 <= i < e0 implies !matches_at(y, INIT_END@, i) by {
        assert(y[i + 2] == pre[i + 2] || i + 2 >= pre.len());
        if i + 2 < pre.len() {
            if i + 2 < INIT_BEGIN@.len() {
                assert(pre[i + 2] == INIT_BEGIN@[i + 2]);
            } else if i + 2 == INIT_BEGIN@.len() {
            } else if i + 2 < INIT_BEGIN@.len() + 1 + MANAGED_WARNING@.len() {
                assert(pre[i + 2] == MANAGED_WARNING@[i + 2 - INIT_BEGIN@.len() - 1]);
            } else if i + 2 == INIT_BEGIN@.len() + 1 + MANAGED_WARNING@.len() {
            } else {
                assert(pre[i + 2] == INIT_BODY@[i + 2 - INIT_BEGIN@.len() - 2 - MANAGED_WARNING@.len()]);
            }
            assert(y[i + 2] != '<');
        } else {
            assert(y[i + 2] == INIT_END@[i + 2 - pre.len()]);
        }
        lemma_no_match_at(y, INIT_END@, i, i + 2);
    }
    lemma_find_skip(y, INIT_END@, 0, e0);
    assert(y.subrange(e0, e0 + INIT_END@.len()) =~= INIT_END@);
    assert(find_from(y, INIT_END@, 0) == Some(e0));
    assert(y[ib.len() as int] == '\n');
    assert(y.take(0) + y.skip(ib.len() as int + 1) =~= rest);
}


/// The user's content as it stands in an installed `.zshrc`: on its own
/// line, or nothing when it is empty.
pub open spec fn user_block(c: Seq<char>) -> Seq<char> {
    if c.len() > 0 { c + seq!['\n'] } else { Seq::empty() }
}

/// A character missing from two sequences is missing from both together.
proof fn lemma_lacks_concat(a: Seq<char>, b: Seq<char>, ch: char)
    requires
        lacks_char(a, ch),
        lacks_char(b, ch),
    ensures
        lacks_char(a + b, ch),
{
    assert forall|i: int| 0 <= i < (a + b).len() implies (a + b)[i] != ch by {
        if i < a.len() {
            assert((a + b)[i] == a[i]);
        } else {
            assert((a + b)[i] == b[i - a.len()]);
        }
    }
}

/// Removing the shell block from the user's block followed by it (and a
/// newline) leaves the user's block, when the user's content holds no begin
/// marker of its own and the script path no end marker.
proof fn lemma_remove_shell_block(c: Seq<char>, p: Seq<char>)
    requires
        !contains_seq(c, SHELL_BEGIN@),
        !contains_seq(p, SHELL_END@),
    ensures
        spec_remove_block(user_block(c) + spec_shell_block(p) + seq!['\n'], SHELL_BEGIN@, SHELL_END@)
            == (user_block(c), true),
{
    lemma_marker_chars();
    let cb = user_block(c);
    let pre0 = SHELL_BEGIN@ + seq!['\n'] + MANAGED_WARNING@ + seq!['\n'] + "source "@;
    let pre = pre0 + seq!['"'];
    let sb = spec_shell_block(p);
    assert(sb =~= pre + p + seq!['"', '\n'] + SHELL_END@);
    let y = cb + sb + seq!['\n'];
    let sbb = SHELL_BEGIN@;
    let se = SHELL_END@;
    // The begin marker is first found where the shell block starts.
    assert forall|i: int| 0 <= i < cb.len() implies !matches_at(y, sbb, i) by {
        if i + sbb.len() <= c.len() {
            if matches_at(y, sbb, i) {
                assert(c.subrange(i, i + sbb.len()) =~= y.subrange(i, i + sbb.len()));
                assert(matches_at(c, sbb, i));
            }
        } else {
            assert(y[c.len() as int] == '\n');
            lemma_no_match_at(y, sbb, i, c.len() as int);
        }
    }
    lemma_find_skip(y, sbb, 0, cb.len() as int);
    assert(y.subrange(cb.len() as int, cb.len() + sbb.len() as int) =~= sbb);
    assert(find_from(y, sbb, 0) == Some(cb.len() as int));
    // The end marker is first found where the shell block ends.
    let p0: int = cb.len() as int + pre.len() as int;
    let pe: int = p0 + p.len();
    let pos: int = pe + 2;
    assert(pre0 =~= SHELL_BEGIN@ + (seq!['\n'] + (MANAGED_WARNING@ + (seq!['\n'] + "source "@))));
    lemma_lacks_concat(seq!['\n'], "source "@, '<');
    lemma_lacks_concat(MANAGED_WARNING@, seq!['\n'] + "source "@, '<');
    lemma_lacks_concat(seq!['\n'], MANAGED_WARNING@ + (seq!['\n'] + "source "@), '<');
    lemma_lacks_concat(SHELL_BEGIN@, seq!['\n'] + (MANAGED_WARNING@ + (seq!['\n'] + "source "@)), '<');
    assert(lacks_char(pre0, '<'));
    assert forall|i: int| cb.len() <= i < pos implies !matches_at(y, se, i) by {
        if i + se.len() <= p0 - 1 {
            assert(y[i + 2] == pre0[i + 2 - cb.len()]);
            lemma_no_match_at(y, se, i, i + 2);
        } else if i < p0 {
            assert(y[p0 - 1] == '"');
            lemma_no_match_at(y, se, i, p0 - 1);
        } else if i + se.len() <= pe {
            if matches_at(y, se, i) {
                assert(p.subrange(i - p0, i - p0 + se.len()) =~= y.subrange(i, i + se.len()));
                assert(matches_at(p, se, i - p0));
            }
        } else if i < pe {
            assert(y[pe] == '"');
            lemma_no_match_at(y, se, i, pe);
        } else {
            assert(y[i] == '"' || y[i] == '\n');
            lemma_no_match_at(y, se, i, i);
        }
    }
    lemma_find_skip(y, se, cb.len() as int, pos);
    assert(y.subrange(pos, pos + se.len() as int) =~= se);
    assert(find_from(y, se, cb.len() as int) == Some(pos));
    assert(y[pos + se.len() as int] == '\n');
    assert(y.take(cb.len() as int) + y.skip(pos + se.len() as int + 1) =~= cb);
}


/// Uninstalling after an install leaves the user's content, on its own
/// line, and reports the managed blocks as found. This holds when the user's
/// content holds no shell-integration begin marker of its own and the script
/// path no end marker.
pub proof fn law_uninstall_after_install(existing: Seq<char>, script_path: Seq<char>)
    requires
        !contains_seq(spec_user_content(existing), SHELL_BEGIN@),
        !contains_seq(script_path, SHELL_END@),
    ensures
        spec_uninstalled_zshrc(spec_installed_zshrc(existing, script_path))
            == (user_block(spec_user_content(existing)), true),
{
    let c = spec_user_content(existing);
    let sb = spec_shell_block(script_path);
    let rest = user_block(c) + sb + seq!['\n'];
    assert(spec_installed_zshrc(existing, script_path) =~= spec_init_block() + seq!['\n'] + rest);
    lemma_remove_init_block(rest);
    lemma_remove_shell_block(c, script_path);
}

/// Installing twice gives the same `.zshrc` as installing once (under the
/// conditions of [`law_uninstall_after_install`]).
pub proof fn law_install_idempotent(existing: Seq<char>, script_path: Seq<char>)
    requires
        !contains_seq(spec_user_content(existing), SHELL_BEGIN@),
        !contains_seq(script_path, SHELL_END@),
    ensures
        spec_installed_zshrc(spec_installed_zshrc(existing, script_path), script_path)
            == spec_installed_zshrc(existing, script_path),
{
    let c = spec_user_content(existing);
    let y = spec_installed_zshrc(existing, script_path);
    law_uninstall_after_install(existing, script_path);
    // The user's content of the installed file is the user's content again.
    let c2 = spec_remove_block(spec_remove_block(y, INIT_BEGIN@, INIT_END@).0, SHELL_BEGIN@, SHELL_END@).0;
    assert(c2 == user_block(c));
    let c0 = spec_remove_block(spec_remove_block(existing, INIT_BEGIN@, INIT_END@).0, SHELL_BEGIN@, SHELL_END@).0;
    assert(c == spec_trim(c0));
    if c.len() > 0 {
        lemma_trim_after_newline(c0);
    } else {
        assert(user_block(c) =~= Seq::<char>::empty());
        lemma_ws_bounds(Seq::<char>::empty(), 0, 0);
        assert(spec_trim(Seq::<char>::empty()) =~= c);
    }
    assert(spec_user_content(y) == c);
}

/// Without the begin marker there is no block to remove.
proof fn lemma_remove_absent_block(c: Seq<char>, begin: Seq<char>, end: Seq<char>)
    requires
        !contains_seq(c, begin),
    ensures
        spec_remove_block(c, begin, end) == (c, false),
{
    lemma_find_from_matches(c, begin, 0);
}

/// A marker found in a trimmed text is found in the text.
proof fn lemma_contains_in_trim(x: Seq<char>, p: Seq<char>)
    requires
        contains_seq(spec_trim(x), p),
    ensures
        contains_seq(x, p),
{
    lemma_ws_bounds(x, 0, x.len() as int);
    let t = spec_trim(x);
    let i = choose|i: int| matches_at(t, p, i);
    let lo = crate::text::leading_ws(x, 0);
    if lo < x.len() {
        crate::text::lemma_trim_nonempty(x);
        let hi = x.len() - crate::text::trailing_ws(x, x.len() as int);
        assert(t == x.subrange(lo, hi));
        assert(x.subrange(lo + i, lo + i + p.len()) =~= t.subrange(i, i + p.len()));
        assert(matches_at(x, p, lo + i));
    } else {
        assert(t.len() == 0);
        assert(x.subrange(0, 0) =~= p);
        assert(matches_at(x, p, 0));
    }
}

/// Installing into a `.zshrc` without managed blocks, then uninstalling,
/// leaves the user's content trimmed and on its own line (nothing when it
/// was blank): install puts the init block first, the content, then the
/// shell integration block; uninstall takes both blocks out again.
pub proof fn law_install_uninstall_plain(existing: Seq<char>, script_path: Seq<char>)
    requires
        !contains_seq(existing, INIT_BEGIN@),
        !contains_seq(existing, SHELL_BEGIN@),
        !contains_seq(script_path, SHELL_END@),
    ensures
        spec_installed_zshrc(existing, script_path) == spec_init_block() + seq!['\n'] + user_block(spec_trim(existing))
            + spec_shell_block(script_path) + seq!['\n'],
        spec_uninstalled_zshrc(spec_installed_zshrc(existing, script_path)) == (user_block(spec_trim(existing)), true),
{
    lemma_remove_absent_block(existing, INIT_BEGIN@, INIT_END@);
    lemma_remove_absent_block(existing, SHELL_BEGIN@, SHELL_END@);
    assert(spec_user_content(existing) == spec_trim(existing));
    if contains_seq(spec_trim(existing), SHELL_BEGIN@) {
        lemma_contains_in_trim(existing, SHELL_BEGIN@);
    }
    law_uninstall_after_install(existing, script_path);
}

} // verus!
