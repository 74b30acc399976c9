//! What `ghost-complete validate-specs` reports about a spec.

use vstd::prelude::*;

use crate::specs::{CompletionSpec, SubcommandSpec};
use crate::text::{push_str_chars, string_from_chars};

verus! {

/// The number of subcommands at every depth.
pub open spec fn count_subcommands(subs: Seq<SubcommandSpec>) -> nat
    decreases subs,
{
    if subs.len() == 0 {
        0
    } else {
        proof {
            assert(decreases_to!(subs => subs.last()));
            assert(decreases_to!(subs.last() => subs.last().subcommands));
        }
        count_subcommands(subs.drop_last()) + 1 + count_subcommands(subs.last().subcommands@)
    }
}

/// `n` capped at `usize::MAX`.
pub open spec fn cap_usize(n: nat) -> usize {
    if n <= usize::MAX { n as usize } else { usize::MAX }
}

/// Counts subcommands at every depth (capped at `usize::MAX`).
fn count_subcommands_exec(subs: &Vec<SubcommandSpec>) -> (r: usize)
    ensures
        r == cap_usize(count_subcommands(subs@)),
    decreases subs@,
{
    let n = subs.len();
    let mut acc: usize = 0;
    for i in 0..n
        invariant
            n == subs@.len(),
            acc == cap_usize(count_subcommands(subs@.take(i as int))),
    {
        proof {
            assert(subs@.take(i + 1).drop_last() =~= subs@.take(i as int));
            assert(subs@.take(i + 1).last() == subs@[i as int]);
            assert(decreases_to!(subs@ => subs@[i as int]));
        }
        let inner = count_subcommands_exec(&subs[i].subcommands);
        acc = acc.saturating_add(1).saturating_add(inner);
    }
    assert(subs@.take(n as int) =~= subs@);
    acc
}

/// The number of subcommands (at every depth, capped at `usize::MAX`) and
/// of top-level options of a spec.
pub fn count_spec_items(spec: &CompletionSpec) -> (r: (usize, usize))
    ensures
        r == (cap_usize(count_subcommands(spec.subcommands@)), spec.options@.len() as usize),
{
    (count_subcommands_exec(&spec.subcommands), spec.options.len())
}

/// The character of a decimal digit.
pub open spec fn digit_char(d: u8) -> char {
    ((d + 48) as u8) as char
}

/// The decimal digits of `n`, most significant first.
pub open spec fn spec_decimal(n: nat) -> Seq<char>
    decreases n,
{
    if n < 10 {
        seq![digit_char(n as u8)]
    } else {
        spec_decimal(n / 10).push(digit_char((n % 10) as u8))
    }
}

/// Appends the decimal digits of `n`.
pub(crate) fn push_decimal(v: &mut Vec<char>, n: usize)
    ensures
        final(v)@ == old(v)@ + spec_decimal(n as nat),
    decreases n,
{
    if n >= 10 {
        push_decimal(v, n / 10);
    }
    let d: u8 = (n % 10) as u8;
    v.push((d + 48) as char);
    proof {
        if n >= 10 {
            assert(spec_decimal(n as nat) == spec_decimal((n / 10) as nat).push(digit_char(d)));
        }
    }
}

/// The line that reports a spec file that parsed.
pub open spec fn spec_ok_line(file_name: Seq<char>, subcommands: nat, options: nat) -> Seq<char> {
    "  \x1b[32m OK \x1b[0m  "@ + file_name + " ("@ + spec_decimal(subcommands) + " subcommands, "@
        + spec_decimal(options) + " options)"@
}

/// The line that reports a spec file that parsed: its name and its counts.
pub fn ok_line(file_name: &str, subcommands: usize, options: usize) -> (r: String)
    ensures
        r@ == spec_ok_line(file_name@, subcommands as nat, options as nat),
{
    let mut v: Vec<char> = Vec::new();
    push_str_chars(&mut v, "  \x1b[32m OK \x1b[0m  ");
    push_str_chars(&mut v, file_name);
    push_str_chars(&mut v, " (");
    push_decimal(&mut v, subcommands);
    push_str_chars(&mut v, " subcommands, ");
    push_decimal(&mut v, options);
    push_str_chars(&mut v, " options)");
    string_from_chars(v.as_slice())
}

/// The line that reports a spec file that could not be read or parsed.
pub open spec fn spec_fail_line(file_name: Seq<char>, error: Seq<char>) -> Seq<char> {
    "  \x1b[31mFAIL\x1b[0m  "@ + file_name + ": "@ + error
}

/// The line that reports a spec file that could not be read or parsed, with
/// the error's text.
pub fn fail_line(file_name: &str, error: &str) -> (r: String)
    ensures
        r@ == spec_fail_line(file_name@, error@),
{
    let mut v: Vec<char> = Vec::new();
    push_str_chars(&mut v, "  \x1b[31mFAIL\x1b[0m  ");
    push_str_chars(&mut v, file_name);
    push_str_chars(&mut v, ": ");
    push_str_chars(&mut v, error);
    string_from_chars(v.as_slice())
}

/// The closing line of a validation run over `valid + failed` spec files.
pub open spec fn spec_summary_line(valid: nat, failed: nat) -> Seq<char> {
    let total = spec_decimal(valid + failed);
    if failed == 0 {
        total + "/"@ + total + " specs valid."@
    } else {
        spec_decimal(valid) + "/"@ + total + " specs valid, "@ + spec_decimal(failed) + " failed."@
    }
}

/// The closing line of a validation run; the run fails exactly when
/// `failed > 0`.
pub fn summary_line(valid: usize, failed: usize) -> (r: String)
    requires
        valid + failed <= usize::MAX,
    ensures
        r@ == spec_summary_line(valid as nat, failed as nat),
{
    let total = valid + failed;
    let mut v: Vec<char> = Vec::new();
    if failed == 0 {
        push_decimal(&mut v, total);
        push_str_chars(&mut v, "/");
        push_decimal(&mut v, total);
        push_str_chars(&mut v, " specs valid.");
    } else {
        push_decimal(&mut v, valid);
        push_str_chars(&mut v, "/");
        push_decimal(&mut v, total);
        push_str_chars(&mut v, " specs valid, ");
        push_decimal(&mut v, failed);
        push_str_chars(&mut v, " failed.");
    }
    string_from_chars(v.as_slice())
}

} // verus!
