//! Where configuration and completion specs live: `~` expansion and the
//! configuration directory, with paths held as strings.

use vstd::prelude::*;

use crate::context::{opt_string_view, starts_with, strings_view};
use crate::text::{chars_of, push_chars, string_from_chars};

verus! {

/// Joining paths as `Path::join` does on Unix: an absolute `rest` (one that
/// starts with `/`) replaces the base; otherwise `rest` follows the base,
/// after a `/` unless the base is empty or already ends in one.
pub open spec fn spec_path_join(base: Seq<char>, rest: Seq<char>) -> Seq<char> {
    if rest.len() > 0 && rest[0] == '/' {
        rest
    } else if base.len() == 0 || base.last() == '/' {
        base + rest
    } else {
        base + seq!['/'] + rest
    }
}

/// `base` joined with `rest` (see [`spec_path_join`]).
pub(crate) fn path_join(base: &str, rest: &str) -> (r: String)
    ensures
        r@ == spec_path_join(base@, rest@),
{
    let b = chars_of(base);
    let t = chars_of(rest);
    if t.len() > 0 && t[0] == '/' {
        return rest.to_string();
    }
    let mut v: Vec<char> = Vec::new();
    push_chars(&mut v, &b, 0, b.len());
    if b.len() > 0 && b[b.len() - 1] != '/' {
        v.push('/');
    }
    push_chars(&mut v, &t, 0, t.len());
    proof {
        assert(b@.subrange(0, b@.len() as int) =~= b@);
        assert(t@.subrange(0, t@.len() as int) =~= t@);
        if b@.len() > 0 && b@.last() != '/' {
            assert(v@ =~= base@ + seq!['/'] + rest@);
        } else {
            assert(v@ =~= base@ + rest@);
        }
    }
    string_from_chars(v.as_slice())
}

/// `dirs::home_dir`, as a string. The home directory comes from the
/// environment, so nothing is promised of it.
#[verifier::external_body]
fn home_dir() -> (r: Option<String>) {
    dirs::home_dir().map(|p| p.to_string_lossy().into_owned())
}

/// `~/rest` becomes `home` joined with `rest` when the home directory is
/// known; any other path is kept.
pub open spec fn spec_expand_tilde(path: Seq<char>, home: Option<Seq<char>>) -> Seq<char> {
    if starts_with(path, seq!['~', '/']) && home is Some {
        spec_path_join(home.unwrap(), path.skip(2))
    } else {
        path
    }
}

/// Model of an optional string.
pub open spec fn opt_str_view(o: Option<&str>) -> Option<Seq<char>> {
    match o {
        Some(s) => Some(s@),
        None => None,
    }
}

/// `s` with its first `k` characters dropped.
fn skip_chars(s: &str, k: usize) -> (r: String)
    requires
        k <= s@.len(),
    ensures
        r@ == s@.skip(k as int),
{
    let cs = chars_of(s);
    let n = cs.len();
    let mut v: Vec<char> = Vec::new();
    push_chars(&mut v, &cs, k, n);
    assert(v@ =~= s@.skip(k as int));
    string_from_chars(v.as_slice())
}

/// Whether `s` starts with the two characters `a`, `b`.
fn starts_with_two(s: &str, a: char, b: char) -> (r: bool)
    ensures
        r == starts_with(s@, seq![a, b]),
{
    let cs = chars_of(s);
    let r = cs.len() >= 2 && cs[0] == a && cs[1] == b;
    proof {
        if cs@.len() >= 2 {
            if r {
                assert(cs@.take(2) =~= seq![a, b]);
            } else if cs@[0] != a {
                assert(cs@.take(2)[0] != seq![a, b][0]);
            } else {
                assert(cs@.take(2)[1] != seq![a, b][1]);
            }
        }
    }
    r
}

/// `~/` expansion against a given home directory (see [`spec_expand_tilde`]).
pub fn expand_tilde_with(path: &str, home: Option<&str>) -> (r: String)
    ensures
        r@ == spec_expand_tilde(path@, opt_str_view(home)),
{
    if starts_with_two(path, '~', '/') {
        if let Some(h) = home {
            let rest = skip_chars(path, 2);
            return path_join(h, rest.as_str());
        }
    }
    path.to_string()
}

/// `~/` expansion against the user's home directory: the path is kept, or
/// it starts with `~/` and becomes some home directory joined with the rest.
pub fn expand_tilde(path: &str) -> (r: String)
    ensures
        r@ == path@ || (starts_with(path@, seq!['~', '/']) && exists|h: Seq<char>|
            r@ == spec_path_join(h, path@.skip(2))),
{
    let home = home_dir();
    let r = match &home {
        Some(h) => expand_tilde_with(path, Some(h.as_str())),
        None => expand_tilde_with(path, None),
    };
    proof {
        if home is Some {
            if starts_with(path@, seq!['~', '/']) {
                assert(r@ == spec_path_join(home->Some_0@, path@.skip(2)));
            }
        }
    }
    r
}

/// `home/.config/ghost-complete`, when the home directory is known.
pub open spec fn spec_config_dir(home: Option<Seq<char>>) -> Option<Seq<char>> {
    match home {
        Some(h) => Some(spec_path_join(spec_path_join(h, ".config"@), "ghost-complete"@)),
        None => None,
    }
}

/// The configuration directory under a given home directory (see
/// [`spec_config_dir`]).
pub fn config_dir_with(home: Option<&str>) -> (r: Option<String>)
    ensures
        match r {
            Some(s) => spec_config_dir(opt_str_view(home)) == Some(s@),
            None => spec_config_dir(opt_str_view(home)) is None,
        },
{
    match home {
        Some(h) => {
            let c = path_join(h, ".config");
            Some(path_join(c.as_str(), "ghost-complete"))
        },
        None => None,
    }
}

/// Returns `~/.config/ghost-complete`, ignoring macOS
/// `~/Library/Application Support/`: `None` when the home directory is not
/// known, else that directory under some home directory.
pub fn config_dir() -> (r: Option<String>)
    ensures
        r matches Some(s) ==> exists|h: Seq<char>| spec_config_dir(Some(h)) == Some(s@),
{
    let home = home_dir();
    match &home {
        Some(h) => {
            let r = config_dir_with(Some(h.as_str()));
            proof {
                if r is Some {
                    assert(spec_config_dir(Some(h@)) == Some(r->Some_0@));
                }
            }
            r
        },
        None => None,
    }
}

/// A configured spec directory: `~...` is taken relative to the home
/// directory (with `~/` dropped) when it is known; any other path is kept.
pub open spec fn spec_resolve_configured_dir(dir: Seq<char>, home: Option<Seq<char>>) -> Seq<char> {
    if starts_with(dir, seq!['~']) && home is Some {
        spec_path_join(
            home.unwrap(),
            if starts_with(dir, seq!['~', '/']) { dir.skip(2) } else { dir },
        )
    } else {
        dir
    }
}

/// The directories `validate-specs` checks: the configured ones when there
/// are any, else `specs` under the configuration directory (if known).
pub open spec fn spec_validate_dirs(configured: Seq<Seq<char>>, home: Option<Seq<char>>) -> Seq<Seq<char>> {
    if configured.len() > 0 {
        configured.map_values(|d: Seq<char>| spec_resolve_configured_dir(d, home))
    } else {
        match spec_config_dir(home) {
            Some(c) => seq![spec_path_join(c, "specs"@)],
            None => Seq::empty(),
        }
    }
}

/// The spec directories to validate, against a given home directory (see
/// [`spec_validate_dirs`]).
pub fn validate_spec_dirs_with(configured: &Vec<String>, home: Option<&str>) -> (r: Vec<String>)
    ensures
        strings_view(r@) == spec_validate_dirs(strings_view(configured@), opt_str_view(home)),
{
    let ghost cv = strings_view(configured@);
    let mut out: Vec<String> = Vec::new();
    let n = configured.len();
    if n > 0 {
        for i in 0..n
            invariant
                n == configured@.len(),
                cv == strings_view(configured@),
                strings_view(out@)
                    == cv.take(i as int).map_values(|d: Seq<char>| spec_resolve_configured_dir(d, opt_str_view(home))),
        {
            let d = configured[i].as_str();
            let cs = chars_of(d);
            let tilde = cs.len() >= 1 && cs[0] == '~';
            proof {
                if cs@.len() >= 1 {
                    if tilde {
                        assert(cs@.take(1) =~= seq!['~']);
                    } else {
                        assert(cs@.take(1)[0] != seq!['~'][0]);
                    }
                }
            }
            let resolved = match home {
                Some(h) => {
                    if tilde {
                        if starts_with_two(d, '~', '/') {
                            let rest = skip_chars(d, 2);
                            path_join(h, rest.as_str())
                        } else {
                            path_join(h, d)
                        }
                    } else {
                        d.to_string()
                    }
                },
                None => d.to_string(),
            };
            let ghost prev = out@;
            out.push(resolved);
            proof {
                assert(strings_view(out@) =~= prev.map_values(|s: String| s@).push(resolved@));
                assert(cv.take(i + 1) =~= cv.take(i as int).push(cv[i as int]));
                assert(cv.take(i + 1).map_values(|d: Seq<char>| spec_resolve_configured_dir(d, opt_str_view(home)))
                    =~= cv.take(i as int).map_values(|d: Seq<char>| spec_resolve_configured_dir(d, opt_str_view(home)))
                        .push(spec_resolve_configured_dir(cv[i as int], opt_str_view(home))));
            }
        }
        assert(cv.take(n as int) =~= cv);
        return out;
    }
    match config_dir_with(home) {
        Some(c) => {
            out.push(path_join(c.as_str(), "specs"));
            assert(strings_view(out@) =~= spec_validate_dirs(cv, opt_str_view(home)));
        },
        None => {
            assert(strings_view(out@) =~= spec_validate_dirs(cv, opt_str_view(home)));
        },
    }
    out
}

/// The spec directories to validate, against the user's home directory.
pub fn validate_spec_dirs(configured: &Vec<String>) -> (r: Vec<String>)
    ensures
        exists|h: Option<Seq<char>>|
            strings_view(r@) == #[trigger] spec_validate_dirs(strings_view(configured@), h),
{
    let home = home_dir();
    match &home {
        Some(h) => {
            let hs = h.as_str();
            let r = validate_spec_dirs_with(configured, Some(hs));
            assert(opt_str_view(Some(hs)) == Some(h@));
            r
        },
        None => validate_spec_dirs_with(configured, None),
    }
}


/// The history file: `$HISTFILE` when it is set, else `.zsh_history` in
/// the home directory (when that is known).
pub open spec fn spec_history_path(histfile: Option<Seq<char>>, home: Option<Seq<char>>) -> Option<Seq<char>> {
    match histfile {
        Some(h) => Some(h),
        None => match home {
            Some(d) => Some(spec_path_join(d, ".zsh_history"@)),
            None => None,
        },
    }
}

/// The history file for a given `$HISTFILE` and home directory (see
/// [`spec_history_path`]).
pub fn history_path_with(histfile: Option<String>, home: Option<&str>) -> (r: Option<String>)
    ensures
        opt_string_view(r) == spec_history_path(opt_string_view(histfile), opt_str_view(home)),
{
    match histfile {
        Some(h) => Some(h),
        None => match home {
            Some(d) => Some(path_join(d, ".zsh_history")),
            None => None,
        },
    }
}

/// The history file for a given `$HISTFILE`, against the user's home
/// directory: `$HISTFILE` when set, else `.zsh_history` in some home
/// directory, or `None` when the home directory is not known.
pub fn history_path(histfile: Option<String>) -> (r: Option<String>)
    ensures
        histfile is Some ==> opt_string_view(r) == opt_string_view(histfile),
        histfile is None && r is Some ==> exists|d: Seq<char>|
            opt_string_view(r) == #[trigger] spec_history_path(None, Some(d)),
{
    if histfile.is_some() {
        return history_path_with(histfile, None);
    }
    let home = home_dir();
    match &home {
        Some(d) => {
            let ds = d.as_str();
            let r = history_path_with(None, Some(ds));
            assert(opt_str_view(Some(ds)) == Some(d@));
            r
        },
        None => history_path_with(None, None),
    }
}

/// The configuration file: the given path, else `config.toml` in the
/// configuration directory (or in `.` when that is not known).
pub open spec fn spec_config_file(path: Option<Seq<char>>, config_dir: Option<Seq<char>>) -> Seq<char> {
    match path {
        Some(p) => p,
        None => match config_dir {
            Some(d) => spec_path_join(d, "config.toml"@),
            None => spec_path_join("."@, "config.toml"@),
        },
    }
}

/// The configuration file for a given configuration directory (see
/// [`spec_config_file`]).
pub fn config_file_with(path: Option<&str>, config_dir: Option<&str>) -> (r: String)
    ensures
        r@ == spec_config_file(opt_str_view(path), opt_str_view(config_dir)),
{
    match path {
        Some(p) => p.to_string(),
        None => match config_dir {
            Some(d) => path_join(d, "config.toml"),
            None => path_join(".", "config.toml"),
        },
    }
}

/// The configuration file: the given path, else `config.toml` in the
/// configuration directory found from the home directory.
pub fn config_file(path: Option<&str>) -> (r: String)
    ensures
        path matches Some(p) ==> r@ == p@,
        path is None ==> exists|d: Option<Seq<char>>| r@ == #[trigger] spec_config_file(None, d),
{
    if path.is_some() {
        return config_file_with(path, None);
    }
    let dir = config_dir();
    match &dir {
        Some(d) => {
            let ds = d.as_str();
            let r = config_file_with(None, Some(ds));
            assert(opt_str_view(Some(ds)) == Some(d@));
            r
        },
        None => config_file_with(None, None),
    }
}


/// The paths among `dirs` that exist, in order; each path is paired with
/// whether it names an existing directory.
pub open spec fn existing_dirs(dirs: Seq<(String, bool)>) -> Seq<Seq<char>>
    decreases dirs.len(),
{
    if dirs.len() == 0 {
        Seq::empty()
    } else {
        existing_dirs(dirs.drop_last()) + (if dirs.last().1 { seq![dirs.last().0@] } else { Seq::empty() })
    }
}

/// The spec directories to use: when any are configured, the configured ones
/// that exist (possibly none); otherwise the auto-detected candidates that
/// exist, or `specs` when none does.
pub open spec fn spec_select_spec_dirs(configured: Seq<(String, bool)>, candidates: Seq<(String, bool)>) -> Seq<Seq<char>> {
    if configured.len() > 0 {
        existing_dirs(configured)
    } else if existing_dirs(candidates).len() > 0 {
        existing_dirs(candidates)
    } else {
        seq!["specs"@]
    }
}

/// The existing directories of `dirs`, in order.
fn keep_existing(dirs: &Vec<(String, bool)>) -> (r: Vec<String>)
    ensures
        strings_view(r@) == existing_dirs(dirs@),
{
    let mut out: Vec<String> = Vec::new();
    let n = dirs.len();
    for i in 0..n
        invariant
            n == dirs@.len(),
            strings_view(out@) == existing_dirs(dirs@.take(i as int)),
    {
        proof {
            assert(dirs@.take(i + 1).drop_last() =~= dirs@.take(i as int));
        }
        if dirs[i].1 {
            out.push(dirs[i].0.clone());
        }
        assert(strings_view(out@) =~= existing_dirs(dirs@.take(i + 1)));
    }
    assert(dirs@.take(n as int) =~= dirs@);
    out
}

/// Chooses the spec directories (see [`spec_select_spec_dirs`]). Each
/// configured directory (after `~` expansion) and each auto-detected
/// candidate comes with whether it names an existing directory.
pub fn select_spec_dirs(configured: &Vec<(String, bool)>, candidates: &Vec<(String, bool)>) -> (r: Vec<String>)
    ensures
        strings_view(r@) == spec_select_spec_dirs(configured@, candidates@),
{
    if configured.len() > 0 {
        keep_existing(configured)
    } else {
        let found = keep_existing(candidates);
        if found.len() > 0 {
            found
        } else {
            let mut out: Vec<String> = Vec::new();
            out.push("specs".to_string());
            assert(strings_view(out@) =~= seq!["specs"@]);
            out
        }
    }
}

} // verus!
