//! Fig-style completion specs and their resolution against a command line.

use vstd::prelude::*;

use crate::context::{starts_with, strings_view, CommandContext};
use crate::suggestion::{
    clone_opt_string, suggestions_view, SpecSuggestion, Suggestion, SuggestionKind,
    SuggestionSource,
};
use crate::context::opt_string_view;
use crate::text::str_eq;

verus! {

/// A command's completion spec (the top of a spec file).
#[derive(Debug)]
pub struct CompletionSpec {
    pub name: String,
    pub description: Option<String>,
    pub subcommands: Vec<SubcommandSpec>,
    pub options: Vec<OptionSpec>,
    pub args: Vec<ArgSpec>,
}

/// A subcommand, with its own subcommands, options and arguments.
#[derive(Debug)]
pub struct SubcommandSpec {
    pub name: String,
    pub description: Option<String>,
    pub subcommands: Vec<SubcommandSpec>,
    pub options: Vec<OptionSpec>,
    pub args: Vec<ArgSpec>,
}

/// An option, known by one or more names (`--verbose`, `-v`).
#[derive(Debug, Clone)]
pub struct OptionSpec {
    pub name: Vec<String>,
    pub description: Option<String>,
    /// The option's value, when it takes one.
    pub args: Option<ArgSpec>,
}

/// A positional argument.
#[derive(Debug, Clone)]
pub struct ArgSpec {
    pub name: Option<String>,
    pub description: Option<String>,
    pub generators: Vec<GeneratorSpec>,
    /// `filepaths` or `folders` asks for filesystem completions.
    pub template: Option<String>,
}

/// A dynamic completion source such as `git_branches`.
#[derive(Debug, Clone)]
pub struct GeneratorSpec {
    pub generator_type: String,
}

/// Completions available at the resolved position in a spec.
pub struct SpecResolution {
    pub subcommands: Vec<Suggestion>,
    pub options: Vec<Suggestion>,
    pub generators: Vec<String>,
    pub wants_filepaths: bool,
    pub wants_folders_only: bool,
    /// The word being typed is the value of the option just before it (an
    /// option that takes an argument); the generators and templates are then
    /// that argument's.
    pub in_option_arg: bool,
}

/// The option is known by the name `flag`.
pub open spec fn option_has_name(o: OptionSpec, flag: Seq<char>) -> bool {
    exists|j: int| 0 <= j < o.name@.len() && #[trigger] o.name@[j]@ == flag
}

/// Index of the first option at or after `k` known by `flag`.
pub open spec fn find_option_from(opts: Seq<OptionSpec>, flag: Seq<char>, k: int) -> Option<int>
    decreases opts.len() - k,
{
    if k < 0 || k >= opts.len() {
        None
    } else if option_has_name(opts[k], flag) {
        Some(k)
    } else {
        find_option_from(opts, flag, k + 1)
    }
}

/// A found option index lies within the options.
pub proof fn lemma_find_option_bounds(opts: Seq<OptionSpec>, flag: Seq<char>, k: int)
    ensures
        find_option_from(opts, flag, k) matches Some(x) ==> k <= x < opts.len(),
    decreases opts.len() - k,
{
    if 0 <= k < opts.len() && !option_has_name(opts[k], flag) {
        lemma_find_option_bounds(opts, flag, k + 1);
    }
}

/// A found subcommand index lies within the subcommands.
pub proof fn lemma_find_sub_bounds(subs: Seq<SubcommandSpec>, name: Seq<char>, k: int)
    ensures
        find_sub_from(subs, name, k) matches Some(x) ==> k <= x < subs.len(),
    decreases subs.len() - k,
{
    if 0 <= k < subs.len() && subs[k].name@ != name {
        lemma_find_sub_bounds(subs, name, k + 1);
    }
}

/// Index of the first subcommand at or after `k` named `name`.
pub open spec fn find_sub_from(subs: Seq<SubcommandSpec>, name: Seq<char>, k: int) -> Option<int>
    decreases subs.len() - k,
{
    if k < 0 || k >= subs.len() {
        None
    } else if subs[k].name@ == name {
        Some(k)
    } else {
        find_sub_from(subs, name, k + 1)
    }
}

/// Where in the spec tree the walk stands: the subcommands, options and
/// arguments available there.
pub struct SpecPos {
    pub subs: Seq<SubcommandSpec>,
    pub opts: Seq<OptionSpec>,
    pub args: Seq<ArgSpec>,
}

/// Walks the typed arguments from `idx`: flags are skipped (with their value
/// when the option takes one and a next argument exists), a known subcommand
/// name descends into it, any other word is a positional argument.
pub open spec fn walk_args(args: Seq<Seq<char>>, idx: int, pos: SpecPos) -> SpecPos
    decreases args.len() - idx,
{
    if idx < 0 || idx >= args.len() {
        pos
    } else {
        let arg = args[idx];
        if starts_with(arg, seq!['-']) {
            match find_option_from(pos.opts, arg, 0) {
                Some(k) => if pos.opts[k].args is Some && idx + 1 < args.len() {
                    walk_args(args, idx + 2, pos)
                } else {
                    walk_args(args, idx + 1, pos)
                },
                None => walk_args(args, idx + 1, pos),
            }
        } else {
            match find_sub_from(pos.subs, arg, 0) {
                Some(k) => walk_args(
                    args,
                    idx + 1,
                    SpecPos {
                        subs: pos.subs[k].subcommands@,
                        opts: pos.subs[k].options@,
                        args: pos.subs[k].args@,
                    },
                ),
                None => walk_args(args, idx + 1, pos),
            }
        }
    }
}

/// The suggestion a subcommand offers.
pub open spec fn sub_suggestion(s: SubcommandSpec) -> SpecSuggestion {
    SpecSuggestion {
        text: s.name@,
        description: opt_string_view(s.description),
        kind: SuggestionKind::Subcommand,
        source: SuggestionSource::Spec,
        score: 0,
    }
}

/// The suggestions an option offers: one per name.
pub open spec fn option_suggestions(o: OptionSpec) -> Seq<SpecSuggestion> {
    o.name@.map_values(|n: String| SpecSuggestion {
        text: n@,
        description: opt_string_view(o.description),
        kind: SuggestionKind::Flag,
        source: SuggestionSource::Spec,
        score: 0,
    })
}

/// The suggestions of all options, in order.
pub open spec fn all_option_suggestions(opts: Seq<OptionSpec>) -> Seq<SpecSuggestion>
    decreases opts.len(),
{
    if opts.len() == 0 {
        Seq::empty()
    } else {
        all_option_suggestions(opts.drop_last()) + option_suggestions(opts.last())
    }
}

/// The generator types of all arguments, in order.
pub open spec fn all_generators(args: Seq<ArgSpec>) -> Seq<Seq<char>>
    decreases args.len(),
{
    if args.len() == 0 {
        Seq::empty()
    } else {
        all_generators(args.drop_last())
            + args.last().generators@.map_values(|g: GeneratorSpec| g.generator_type@)
    }
}

/// Some argument has the given template.
pub open spec fn has_template(args: Seq<ArgSpec>, t: Seq<char>) -> bool {
    exists|i: int| 0 <= i < args.len() && #[trigger] opt_string_view(args[i].template) == Some(t)
}

/// The argument of the option named by the flag before the word being typed,
/// when that option is known here and takes one.
pub open spec fn option_arg_spec(opts: Seq<OptionSpec>, preceding_flag: Option<Seq<char>>) -> Option<ArgSpec> {
    match preceding_flag {
        Some(f) => match find_option_from(opts, f, 0) {
            Some(k) => opts[k].args,
            None => None,
        },
        None => None,
    }
}

/// The resolution of `spec` for the typed arguments `args` and the flag just
/// before the word being typed: the subcommands and options where the walk
/// ends; the generators and templates of the preceding option's argument when
/// the word is its value, else of the positional arguments there; and
/// whether the word is such an option value.
pub open spec fn spec_resolve(spec: CompletionSpec, args: Seq<Seq<char>>, preceding_flag: Option<Seq<char>>) -> (
    Seq<SpecSuggestion>,
    Seq<SpecSuggestion>,
    Seq<Seq<char>>,
    bool,
    bool,
    bool,
) {
    let pos = walk_args(
        args,
        0,
        SpecPos { subs: spec.subcommands@, opts: spec.options@, args: spec.args@ },
    );
    let arg_specs = match option_arg_spec(pos.opts, preceding_flag) {
        Some(a) => seq![a],
        None => pos.args,
    };
    (
        pos.subs.map_values(|s: SubcommandSpec| sub_suggestion(s)),
        all_option_suggestions(pos.opts),
        all_generators(arg_specs),
        has_template(arg_specs, "filepaths"@),
        has_template(arg_specs, "folders"@),
        option_arg_spec(pos.opts, preceding_flag) is Some,
    )
}

/// Index of the first option known by `flag`.
fn find_option(options: &Vec<OptionSpec>, flag: &String) -> (r: Option<usize>)
    ensures
        r matches Some(x) ==> find_option_from(options@, flag@, 0) == Some(x as int),
        r is None ==> find_option_from(options@, flag@, 0) is None,
{
    let n = options.len();
    let mut k: usize = 0;
    while k < n
        invariant
            n == options@.len(),
            k <= n,
            find_option_from(options@, flag@, 0) == find_option_from(options@, flag@, k as int),
        decreases n - k,
    {
        let names = &options[k].name;
        let m = names.len();
        let mut found = false;
        for j in 0..m
            invariant
                m == names@.len(),
                names == options@[k as int].name,
                found == exists|jj: int| 0 <= jj < j && #[trigger] names@[jj]@ == flag@,
        {
            if str_eq(names[j].as_str(), flag.as_str()) {
                found = true;
            }
        }
        if found {
            return Some(k);
        }
        k = k + 1;
    }
    None
}

/// Index of the first subcommand named `name`.
fn find_sub(subs: &Vec<SubcommandSpec>, name: &String) -> (r: Option<usize>)
    ensures
        r matches Some(x) ==> find_sub_from(subs@, name@, 0) == Some(x as int),
        r is None ==> find_sub_from(subs@, name@, 0) is None,
{
    let n = subs.len();
    let mut k: usize = 0;
    while k < n
        invariant
            n == subs@.len(),
            k <= n,
            find_sub_from(subs@, name@, 0) == find_sub_from(subs@, name@, k as int),
        decreases n - k,
    {
        if str_eq(subs[k].name.as_str(), name.as_str()) {
            return Some(k);
        }
        k = k + 1;
    }
    None
}

/// `s` starts with `-`.
fn starts_with_dash(s: &String) -> (r: bool)
    ensures
        r == starts_with(s@, seq!['-']),
{
    let cs = crate::text::chars_of(s.as_str());
    let r = cs.len() >= 1 && cs[0] == '-';
    proof {
        if r {
            assert(cs@.take(1) =~= seq!['-']);
        } else if cs@.len() >= 1 {
            assert(cs@.take(1)[0] != seq!['-'][0]);
        }
    }
    r
}

/// A single argument's generators and templates.
proof fn lemma_single_arg(a: ArgSpec)
    ensures
        all_generators(seq![a]) == a.generators@.map_values(|g: GeneratorSpec| g.generator_type@),
        forall|t: Seq<char>| #[trigger] has_template(seq![a], t) <==> opt_string_view(a.template) == Some(t),
{
    assert(seq![a].drop_last() =~= Seq::<ArgSpec>::empty());
    assert(seq![a].last() == a);
    assert(all_generators(Seq::<ArgSpec>::empty()) =~= Seq::<Seq<char>>::empty());
    assert(all_generators(seq![a]) =~= a.generators@.map_values(|g: GeneratorSpec| g.generator_type@));
    assert forall|t: Seq<char>| #[trigger] has_template(seq![a], t) <==> opt_string_view(a.template) == Some(t) by {
        if opt_string_view(a.template) == Some(t) {
            assert(seq![a][0] == a);
        }
    }
}

/// Appends the generator types of one argument; returns whether its template
/// is `filepaths` and whether it is `folders`.
fn push_arg_info(generators: &mut Vec<String>, a: &ArgSpec) -> (r: (bool, bool))
    ensures
        strings_view(final(generators)@) == strings_view(old(generators)@)
            + a.generators@.map_values(|g: GeneratorSpec| g.generator_type@),
        r.0 == (opt_string_view(a.template) == Some("filepaths"@)),
        r.1 == (opt_string_view(a.template) == Some("folders"@)),
{
    let ghost before = generators@;
    let ng = a.generators.len();
    for j in 0..ng
        invariant
            ng == a.generators@.len(),
            strings_view(generators@) == strings_view(before)
                + a.generators@.take(j as int).map_values(|g: GeneratorSpec| g.generator_type@),
    {
        let ghost prev = generators@;
        generators.push(a.generators[j].generator_type.clone());
        proof {
            assert(strings_view(generators@) =~= strings_view(prev).push(a.generators@[j as int].generator_type@));
            assert(a.generators@.take(j + 1).map_values(|g: GeneratorSpec| g.generator_type@)
                =~= a.generators@.take(j as int).map_values(|g: GeneratorSpec| g.generator_type@).push(a.generators@[j as int].generator_type@));
        }
    }
    proof {
        assert(a.generators@.take(ng as int) =~= a.generators@);
    }
    match &a.template {
        Some(t) => (str_eq(t.as_str(), "filepaths"), str_eq(t.as_str(), "folders")),
        None => (false, false),
    }
}

/// Appends the generator types of the arguments, in order; returns whether
/// some argument has the `filepaths` template and whether some has `folders`.
fn collect_arg_info(generators: &mut Vec<String>, args: &Vec<ArgSpec>) -> (r: (bool, bool))
    requires
        old(generators)@.len() == 0,
    ensures
        strings_view(final(generators)@) == all_generators(args@),
        r.0 == has_template(args@, "filepaths"@),
        r.1 == has_template(args@, "folders"@),
{
    let mut wants_filepaths = false;
    let mut wants_folders_only = false;
    let na = args.len();
    assert(strings_view(generators@) =~= all_generators(args@.take(0)));
    for i in 0..na
        invariant
            na == args@.len(),
            strings_view(generators@) == all_generators(args@.take(i as int)),
            wants_filepaths == has_template(args@.take(i as int), "filepaths"@),
            wants_folders_only == has_template(args@.take(i as int), "folders"@),
    {
        let a = &args[i];
        let (f, d) = push_arg_info(generators, a);
        proof {
            assert(args@.take(i + 1).drop_last() =~= args@.take(i as int));
        }
        if f {
            wants_filepaths = true;
        }
        if d {
            wants_folders_only = true;
        }
        proof {
            let p = args@.take(i + 1);
            assert(p[i as int] == *a);
            assert forall|t: Seq<char>| has_template(p, t) <==> (has_template(args@.take(i as int), t) || opt_string_view(a.template) == Some(t)) by {
                if has_template(p, t) {
                    let w = choose|w: int| 0 <= w < p.len() && #[trigger] opt_string_view(p[w].template) == Some(t);
                    if w < i {
                        assert(args@.take(i as int)[w] == p[w]);
                    }
                }
                if has_template(args@.take(i as int), t) {
                    let w = choose|w: int| 0 <= w < i && #[trigger] opt_string_view(args@.take(i as int)[w].template) == Some(t);
                    assert(p[w] == args@.take(i as int)[w]);
                }
            }
        }
    }
    proof {
        assert(args@.take(na as int) =~= args@);
    }
    (wants_filepaths, wants_folders_only)
}

/// Walk the spec tree using args from the CommandContext to find the deepest
/// matching subcommand, then return available completions at that position.
pub fn resolve_spec(spec: &CompletionSpec, ctx: &CommandContext) -> (r: SpecResolution)
    ensures
        (
            suggestions_view(r.subcommands@),
            suggestions_view(r.options@),
            strings_view(r.generators@),
            r.wants_filepaths,
            r.wants_folders_only,
            r.in_option_arg,
        ) == spec_resolve(*spec, strings_view(ctx.args@), opt_string_view(ctx.preceding_flag)),
{
    let mut cur_subs: &Vec<SubcommandSpec> = &spec.subcommands;
    let mut cur_opts: &Vec<OptionSpec> = &spec.options;
    let mut cur_args: &Vec<ArgSpec> = &spec.args;
    let args = &ctx.args;
    let ghost av = strings_view(args@);
    let n = args.len();
    let mut idx: usize = 0;
    while idx < n
        invariant
            n == args@.len(),
            av == strings_view(args@),
            idx <= n,
            walk_args(av, idx as int, SpecPos { subs: cur_subs@, opts: cur_opts@, args: cur_args@ })
                == walk_args(
                av,
                0,
                SpecPos { subs: spec.subcommands@, opts: spec.options@, args: spec.args@ },
            ),
        decreases n - idx,
    {
        let arg = &args[idx];
        proof {
            lemma_find_option_bounds(cur_opts@, arg@, 0);
            lemma_find_sub_bounds(cur_subs@, arg@, 0);
            assert(av[idx as int] == arg@);
        }
        let ghost old_idx = idx as int;
        let ghost old_pos = SpecPos { subs: cur_subs@, opts: cur_opts@, args: cur_args@ };
        if starts_with_dash(arg) {
            match find_option(cur_opts, arg) {
                Some(k) => {
                    if cur_opts[k].args.is_some() && idx + 1 < n {
                        idx = idx + 2;
                    } else {
                        idx = idx + 1;
                    }
                    assert(walk_args(av, old_idx, old_pos) == walk_args(av, idx as int, old_pos));
                },
                None => {
                    idx = idx + 1;
                    assert(walk_args(av, old_idx, old_pos) == walk_args(av, idx as int, old_pos));
                },
            }
        } else {
            match find_sub(cur_subs, arg) {
                Some(k) => {
                    let sub = &cur_subs[k];
                    proof {
                        assert(old_pos.subs[k as int] == *sub);
                    }
                    cur_subs = &sub.subcommands;
                    cur_opts = &sub.options;
                    cur_args = &sub.args;
                    assert(walk_args(av, old_idx, old_pos) == walk_args(av, old_idx + 1, SpecPos { subs: cur_subs@, opts: cur_opts@, args: cur_args@ }));
                },
                None => {
                    assert(walk_args(av, old_idx, old_pos) == walk_args(av, old_idx + 1, old_pos));
                },
            }
            idx = idx + 1;
        }
        proof {
            assert(walk_args(av, old_idx, old_pos) == walk_args(
                av,
                idx as int,
                SpecPos { subs: cur_subs@, opts: cur_opts@, args: cur_args@ },
            ));
        }
    }

    // Subcommand suggestions.
    let mut subcommands: Vec<Suggestion> = Vec::new();
    let ns = cur_subs.len();
    for i in 0..ns
        invariant
            ns == cur_subs@.len(),
            suggestions_view(subcommands@)
                == cur_subs@.take(i as int).map_values(|s: SubcommandSpec| sub_suggestion(s)),
    {
        let s = &cur_subs[i];
        let ghost prev = subcommands@;
        subcommands.push(Suggestion {
            text: s.name.clone(),
            description: clone_opt_string(&s.description),
            kind: SuggestionKind::Subcommand,
            source: SuggestionSource::Spec,
            score: 0,
        });
        proof {
            assert(suggestions_view(subcommands@) =~= suggestions_view(prev).push(sub_suggestion(*s)));
            assert(cur_subs@.take(i + 1).map_values(|s: SubcommandSpec| sub_suggestion(s))
                =~= cur_subs@.take(i as int).map_values(|s: SubcommandSpec| sub_suggestion(s)).push(sub_suggestion(*s)));
        }
    }
    proof {
        assert(cur_subs@.take(ns as int) =~= cur_subs@);
    }

    // Option suggestions: one per option name.
    let mut options: Vec<Suggestion> = Vec::new();
    let no = cur_opts.len();
    for i in 0..no
        invariant
            no == cur_opts@.len(),
            suggestions_view(options@) == all_option_suggestions(cur_opts@.take(i as int)),
    {
        let o = &cur_opts[i];
        let ghost before = options@;
        let nn = o.name.len();
        for j in 0..nn
            invariant
                nn == o.name@.len(),
                suggestions_view(options@) == suggestions_view(before)
                    + option_suggestions(*o).take(j as int),
        {
            let ghost prev = options@;
            options.push(Suggestion {
                text: o.name[j].clone(),
                description: clone_opt_string(&o.description),
                kind: SuggestionKind::Flag,
                source: SuggestionSource::Spec,
                score: 0,
            });
            proof {
                assert(suggestions_view(options@) =~= suggestions_view(prev).push(option_suggestions(*o)[j as int]));
                assert(option_suggestions(*o).take(j + 1) =~= option_suggestions(*o).take(j as int).push(option_suggestions(*o)[j as int]));
                assert(suggestions_view(before) + option_suggestions(*o).take(j + 1)
                    =~= (suggestions_view(before) + option_suggestions(*o).take(j as int)).push(option_suggestions(*o)[j as int]));
            }
        }
        proof {
            assert(option_suggestions(*o).take(nn as int) =~= option_suggestions(*o));
            assert(cur_opts@.take(i + 1).drop_last() =~= cur_opts@.take(i as int));
        }
    }
    proof {
        assert(cur_opts@.take(no as int) =~= cur_opts@);
    }

    // Generators and templates: of the preceding option's argument when the
    // word being typed is its value, else of the arguments here.
    let mut opt_arg: Option<&ArgSpec> = None;
    match &ctx.preceding_flag {
        Some(f) => match find_option(cur_opts, f) {
            Some(k) => {
                proof {
                    lemma_find_option_bounds(cur_opts@, f@, 0);
                }
                match &cur_opts[k].args {
                    Some(a) => {
                        opt_arg = Some(a);
                    },
                    None => {},
                }
            },
            None => {},
        },
        None => {},
    }
    let mut generators: Vec<String> = Vec::new();
    let in_option_arg = opt_arg.is_some();
    let (wants_filepaths, wants_folders_only) = match opt_arg {
        Some(a) => {
            let r = push_arg_info(&mut generators, a);
            proof {
                lemma_single_arg(*a);
            }
            r
        },
        None => collect_arg_info(&mut generators, cur_args),
    };

    SpecResolution {
        subcommands,
        options,
        generators,
        wants_filepaths,
        wants_folders_only,
        in_option_arg,
    }
}

} // verus!

verus! {

/// The search from `k` reaches any option at or after `k` that has `flag`
/// among its names, or stops earlier at the first option that does.
proof fn lemma_find_option_reaches(opts: Seq<OptionSpec>, flag: Seq<char>, k: int, i: int, j: int)
    requires
        0 <= k <= i < opts.len(),
        0 <= j < opts[i].name@.len(),
        opts[i].name@[j]@ == flag,
    ensures
        find_option_from(opts, flag, k) matches Some(x) && k <= x <= i
            && (exists|jj: int| 0 <= jj < opts[x].name@.len() && #[trigger] opts[x].name@[jj]@ == flag)
            && forall|p: int, q: int|
            k <= p < x && 0 <= q < opts[p].name@.len() ==> #[trigger] opts[p].name@[q]@ != flag,
    decreases i - k,
{
    if option_has_name(opts[k], flag) {
    } else {
        if k == i {
            assert(opts[i].name@[j]@ == flag);
        }
        lemma_find_option_reaches(opts, flag, k + 1, i, j);
    }
}

/// An option is found by any of its names: when `flag` is the `j`-th name of
/// option `i`, the lookup finds an option at or before `i` that has `flag`
/// among its names, and no option before the one found has it.
pub proof fn law_option_found_by_any_name(opts: Seq<OptionSpec>, flag: Seq<char>, i: int, j: int)
    requires
        0 <= i < opts.len(),
        0 <= j < opts[i].name@.len(),
        opts[i].name@[j]@ == flag,
    ensures
        find_option_from(opts, flag, 0) matches Some(x) && x <= i
            && (exists|jj: int| 0 <= jj < opts[x].name@.len() && #[trigger] opts[x].name@[jj]@ == flag)
            && forall|p: int, q: int|
            0 <= p < x && 0 <= q < opts[p].name@.len() ==> #[trigger] opts[p].name@[q]@ != flag,
{
    lemma_find_option_reaches(opts, flag, 0, i, j);
}

/// Whichever of its names is typed, a top-level option resolves the same way
/// (when no earlier option has that name): as the flag before the word being
/// typed, the word is its value exactly when it takes one, and the
/// generators and templates offered are those of its value; and typing the
/// flag with a value leaves the position in the spec where it was, whatever
/// the value is.
pub proof fn law_option_alias_resolution(spec: CompletionSpec, i: int, j: int, v: Seq<char>)
    requires
        0 <= i < spec.options@.len(),
        0 <= j < spec.options@[i].name@.len(),
        starts_with(spec.options@[i].name@[j]@, seq!['-']),
        forall|p: int, q: int|
            0 <= p < i && 0 <= q < spec.options@[p].name@.len() ==> #[trigger] spec.options@[p].name@[q]@
                != spec.options@[i].name@[j]@,
    ensures
        ({
            let o = spec.options@[i];
            let f = o.name@[j]@;
            let r = spec_resolve(spec, seq![f], Some(f));
            let top = spec_resolve(spec, Seq::empty(), None);
            &&& r.0 == top.0
            &&& r.1 == top.1
            &&& r.5 == (o.args is Some)
            &&& o.args matches Some(a) ==> {
                &&& r.2 == a.generators@.map_values(|g: GeneratorSpec| g.generator_type@)
                &&& r.3 == (opt_string_view(a.template) == Some("filepaths"@))
                &&& r.4 == (opt_string_view(a.template) == Some("folders"@))
                &&& spec_resolve(spec, seq![f, v], None) == top
            }
        }),
{
    let opts = spec.options@;
    let o = opts[i];
    let f = o.name@[j]@;
    let pos0 = SpecPos { subs: spec.subcommands@, opts: spec.options@, args: spec.args@ };
    lemma_find_option_reaches(opts, f, 0, i, j);
    let x = find_option_from(opts, f, 0)->Some_0;
    if x < i {
        let jj = choose|jj: int| 0 <= jj < opts[x].name@.len() && #[trigger] opts[x].name@[jj]@ == f;
        assert(opts[x].name@[jj]@ != f);
    }
    assert(x == i);
    let one = seq![f];
    assert(one[0] == f);
    assert(walk_args(one, 1, pos0) == pos0);
    assert(walk_args(one, 0, pos0) == pos0);
    assert(walk_args(Seq::<Seq<char>>::empty(), 0, pos0) == pos0);
    if o.args is Some {
        lemma_single_arg(o.args->Some_0);
        let two = seq![f, v];
        assert(two[0] == f);
        assert(walk_args(two, 2, pos0) == pos0);
        assert(walk_args(two, 0, pos0) == pos0);
    }
}

} // verus!
