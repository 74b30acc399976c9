//! The suggestion engine: which sources a command-line context asks for,
//! and how their candidates are combined and ranked.
//!
//! Sources that read the machine (commands on `$PATH`, the filesystem, git)
//! are fetched by the caller: [`SuggestionEngine::needs`] says which ones a
//! context uses, and [`SuggestionEngine::suggest_sync`] takes what they gave.

use vstd::prelude::*;

use crate::context::{strings_view, CommandContext, SpecContext};
use crate::fuzzy::{
    law_rank_ordered_and_bounded, matched_candidate, rank, rank_sorted, spec_fuzzy_score, spec_rank, DEFAULT_MAX_RESULTS,
};
use crate::history::{history_suggestion, spec_parse_and_dedup, HistoryProvider};
use crate::specs::{
    all_option_suggestions, option_suggestions, resolve_spec, spec_resolve, walk_args, CompletionSpec, OptionSpec, SpecPos,
};
use crate::suggestion::{clone_suggestion, suggestions_view, SpecSuggestion, Suggestion, SuggestionSource};
use crate::text::{push_str_chars, spec_utf8_lossy, str_eq, string_from_chars};
use crate::validate::{push_decimal, spec_decimal};

verus! {

/// Completion specs by command name.
pub struct SpecStore {
    specs: Vec<CompletionSpec>,
}

impl View for SpecStore {
    type V = Seq<CompletionSpec>;

    closed spec fn view(&self) -> Seq<CompletionSpec> {
        self.specs@
    }
}

/// Index of the first spec at or after `k` named `name`.
pub open spec fn find_spec_from(specs: Seq<CompletionSpec>, name: Seq<char>, k: int) -> Option<int>
    decreases specs.len() - k,
{
    if k < 0 || k >= specs.len() {
        None
    } else if specs[k].name@ == name {
        Some(k)
    } else {
        find_spec_from(specs, name, k + 1)
    }
}

/// The spec for `name`, if one is stored.
pub open spec fn spec_get(specs: Seq<CompletionSpec>, name: Seq<char>) -> Option<CompletionSpec> {
    match find_spec_from(specs, name, 0) {
        Some(k) => Some(specs[k]),
        None => None,
    }
}

/// The store after adding `spec`: it replaces the spec of the same name, if any.
pub open spec fn spec_insert(specs: Seq<CompletionSpec>, spec: CompletionSpec) -> Seq<CompletionSpec> {
    match find_spec_from(specs, spec.name@, 0) {
        Some(k) => specs.update(k, spec),
        None => specs.push(spec),
    }
}

/// A found index lies within the sequence.
pub proof fn lemma_find_spec_bounds(specs: Seq<CompletionSpec>, name: Seq<char>, k: int)
    ensures
        find_spec_from(specs, name, k) matches Some(x) ==> k <= x < specs.len() && specs[x].name@ == name,
    decreases specs.len() - k,
{
    if 0 <= k < specs.len() && specs[k].name@ != name {
        lemma_find_spec_bounds(specs, name, k + 1);
    }
}

impl SpecStore {
    /// An empty store.
    pub fn new() -> (s: Self)
        ensures
            s@ == Seq::<CompletionSpec>::empty(),
    {
        SpecStore { specs: Vec::new() }
    }

    fn find(&self, name: &str) -> (r: Option<usize>)
        ensures
            r matches Some(x) ==> find_spec_from(self@, name@, 0) == Some(x as int),
            r is None ==> find_spec_from(self@, name@, 0) is None,
    {
        let n = self.specs.len();
        let mut k: usize = 0;
        while k < n
            invariant
                n == self.specs@.len(),
                k <= n,
                find_spec_from(self@, name@, 0) == find_spec_from(self@, name@, k as int),
            decreases n - k,
        {
            if str_eq(self.specs[k].name.as_str(), name) {
                return Some(k);
            }
            k = k + 1;
        }
        None
    }

    /// Adds a spec, replacing the one with the same name.
    pub fn insert(&mut self, spec: CompletionSpec)
        ensures
            final(self)@ == spec_insert(old(self)@, spec),
    {
        match self.find(spec.name.as_str()) {
            Some(k) => {
                proof {
                    lemma_find_spec_bounds(self@, spec.name@, 0);
                }
                self.specs.set(k, spec);
            },
            None => {
                self.specs.push(spec);
            },
        }
    }

    /// The spec for `command`, if any.
    pub fn get(&self, command: &str) -> (r: Option<&CompletionSpec>)
        ensures
            match spec_get(self@, command@) {
                Some(s) => r is Some && *r.unwrap() == s,
                None => r is None,
            },
    {
        proof {
            lemma_find_spec_bounds(self@, command@, 0);
        }
        match self.find(command) {
            Some(k) => Some(&self.specs[k]),
            None => None,
        }
    }
}

/// The store after adding the specs of `list` in order.
pub open spec fn insert_all(specs: Seq<CompletionSpec>, list: Seq<CompletionSpec>) -> Seq<CompletionSpec>
    decreases list.len(),
{
    if list.len() == 0 {
        specs
    } else {
        spec_insert(insert_all(specs, list.drop_last()), list.last())
    }
}

/// The last spec of `list` named `name`, if any.
pub open spec fn last_named(list: Seq<CompletionSpec>, name: Seq<char>) -> Option<CompletionSpec>
    decreases list.len(),
{
    if list.len() == 0 {
        None
    } else if list.last().name@ == name {
        Some(list.last())
    } else {
        last_named(list.drop_last(), name)
    }
}

impl SpecStore {
    /// A store holding the given specs, added in order (a later spec
    /// replaces an earlier one of the same name).
    pub fn from_specs(list: Vec<CompletionSpec>) -> (s: Self)
        ensures
            s@ == insert_all(Seq::empty(), list@),
    {
        let mut store = SpecStore::new();
        let ghost lv = list@;
        let mut rest = list;
        let n = rest.len();
        let mut i: usize = 0;
        while rest.len() > 0
            invariant
                i + rest@.len() == n,
                n == lv.len(),
                rest@ == lv.skip(i as int),
                store@ == insert_all(Seq::empty(), lv.take(i as int)),
            decreases rest@.len(),
        {
            let spec = rest.remove(0);
            proof {
                assert(spec == lv[i as int]);
                assert(lv.take(i + 1).drop_last() =~= lv.take(i as int));
                assert(lv.take(i + 1).last() == lv[i as int]);
                assert(rest@ =~= lv.skip(i + 1));
            }
            store.insert(spec);
            i = i + 1;
        }
        proof {
            assert(lv.take(n as int) =~= lv);
        }
        store
    }
}

/// Adding a spec leaves what is stored under any other name.
proof fn lemma_insert_other_name(specs: Seq<CompletionSpec>, spec: CompletionSpec, name: Seq<char>)
    requires
        spec.name@ != name,
    ensures
        spec_get(spec_insert(specs, spec), name) == spec_get(specs, name),
{
    lemma_find_spec_bounds(specs, spec.name@, 0);
    lemma_find_spec_bounds(specs, name, 0);
    match find_spec_from(specs, spec.name@, 0) {
        Some(k) => lemma_find_other_after_update(specs, spec, k, name, 0),
        None => lemma_find_other_after_push(specs, spec, name, 0),
    }
}

/// Updating a spec of another name does not move the first match of `name`.
proof fn lemma_find_other_after_update(specs: Seq<CompletionSpec>, spec: CompletionSpec, k: int, name: Seq<char>, j: int)
    requires
        0 <= k < specs.len(),
        specs[k].name@ == spec.name@,
        spec.name@ != name,
        0 <= j,
    ensures
        find_spec_from(specs.update(k, spec), name, j) == find_spec_from(specs, name, j),
    decreases specs.len() - j,
{
    if j < specs.len() {
        assert(specs.update(k, spec)[j].name@ == specs[j].name@);
        lemma_find_other_after_update(specs, spec, k, name, j + 1);
    }
}

/// Pushing a spec of another name does not change the matches of `name`.
proof fn lemma_find_other_after_push(specs: Seq<CompletionSpec>, spec: CompletionSpec, name: Seq<char>, j: int)
    requires
        spec.name@ != name,
        0 <= j,
    ensures
        find_spec_from(specs.push(spec), name, j) == find_spec_from(specs, name, j),
    decreases specs.len() + 1 - j,
{
    if j < specs.len() {
        assert(specs.push(spec)[j] == specs[j]);
        lemma_find_other_after_push(specs, spec, name, j + 1);
    } else if j == specs.len() {
        assert(specs.push(spec)[j] == spec);
        assert(find_spec_from(specs.push(spec), name, j + 1) is None);
    }
}

/// A store filled from a list of specs (as loading a directory fills it)
/// gives, for each name, the last spec of the list with that name, and
/// nothing for a name no spec has.
pub proof fn law_get_after_loading(list: Seq<CompletionSpec>, name: Seq<char>)
    ensures
        spec_get(insert_all(Seq::empty(), list), name) == last_named(list, name),
    decreases list.len(),
{
    if list.len() > 0 {
        law_get_after_loading(list.drop_last(), name);
        let before = insert_all(Seq::empty(), list.drop_last());
        if list.last().name@ == name {
            law_get_after_insert(before, list.last());
        } else {
            lemma_insert_other_name(before, list.last(), name);
        }
    }
}

/// Reading a stored spec gives back the spec last added under that name.
pub proof fn law_get_after_insert(specs: Seq<CompletionSpec>, spec: CompletionSpec)
    ensures
        spec_get(spec_insert(specs, spec), spec.name@) == Some(spec),
{
    lemma_find_spec_bounds(specs, spec.name@, 0);
    match find_spec_from(specs, spec.name@, 0) {
        Some(k) => {
            lemma_find_first_after_update(specs, spec, k, 0);
        },
        None => {
            lemma_find_none_then_push(specs, spec, 0);
        },
    }
}

/// Replacing the first match keeps it the first match.
proof fn lemma_find_first_after_update(specs: Seq<CompletionSpec>, spec: CompletionSpec, k: int, j: int)
    requires
        0 <= j <= k < specs.len(),
        find_spec_from(specs, spec.name@, j) == Some(k),
    ensures
        find_spec_from(specs.update(k, spec), spec.name@, j) == Some(k),
    decreases k - j,
{
    if j < k {
        lemma_find_first_after_update(specs, spec, k, j + 1);
    }
}

/// With no match, the pushed spec is the first match.
proof fn lemma_find_none_then_push(specs: Seq<CompletionSpec>, spec: CompletionSpec, j: int)
    requires
        0 <= j <= specs.len(),
        find_spec_from(specs, spec.name@, j) is None,
    ensures
        find_spec_from(specs.push(spec), spec.name@, j) == Some(specs.len() as int),
    decreases specs.len() - j,
{
    if j < specs.len() {
        lemma_find_none_then_push(specs, spec, j + 1);
    }
}

/// The specs loaded from a directory, with a message for each spec file
/// that could not be loaded.
pub struct SpecLoadResult {
    pub store: SpecStore,
    pub errors: Vec<String>,
}

/// The one warning for a load in which `failed` specs could not be loaded.
pub open spec fn spec_load_warning(failed: nat) -> Option<Seq<char>> {
    if failed == 0 {
        None
    } else {
        Some(spec_decimal(failed) + " spec(s) failed to load, run ghost-complete validate-specs for details"@)
    }
}

impl SpecLoadResult {
    /// The summary warning for the specs that failed to load (none when all
    /// loaded).
    pub fn warning(&self) -> (r: Option<String>)
        ensures
            match r {
                Some(w) => spec_load_warning(self.errors@.len() as nat) == Some(w@),
                None => spec_load_warning(self.errors@.len() as nat) is None,
            },
    {
        let n = self.errors.len();
        if n == 0 {
            return None;
        }
        let mut v: Vec<char> = Vec::new();
        push_decimal(&mut v, n);
        push_str_chars(&mut v, " spec(s) failed to load, run ghost-complete validate-specs for details");
        Some(string_from_chars(v.as_slice()))
    }
}

/// Which sources the engine consults for a context.
pub enum Route {
    /// Command position: commands and history.
    CommandPosition,
    /// Filesystem only (after a redirect, for a path-like word, or when no
    /// spec applies).
    Filesystem,
    /// The completion spec of the command.
    Spec(CompletionSpec),
}

/// The engine's flags and data that a result depends on.
pub struct EngineModel {
    pub specs: Seq<CompletionSpec>,
    pub history: Seq<Seq<char>>,
    pub max_results: usize,
    pub commands: bool,
    pub history_on: bool,
    pub filesystem: bool,
    pub specs_on: bool,
    pub git: bool,
}

/// The route a context takes: command position first, then redirects, then
/// the command's spec (when specs are enabled and one exists, whatever the
/// word looks like), else the filesystem.
pub open spec fn spec_route(e: EngineModel, ctx: SpecContext) -> Route {
    if ctx.word_index == 0 {
        Route::CommandPosition
    } else if ctx.in_redirect {
        Route::Filesystem
    } else if e.specs_on && ctx.command is Some && spec_get(e.specs, ctx.command.unwrap()) is Some {
        Route::Spec(spec_get(e.specs, ctx.command.unwrap()).unwrap())
    } else {
        Route::Filesystem
    }
}

/// What the caller must fetch for a context.
pub struct SuggestNeeds {
    /// Commands from `$PATH`.
    pub commands: bool,
    /// Filesystem entries for the current word.
    pub filesystem: bool,
    /// Only directories among those entries.
    pub folders_only: bool,
    /// Generator types (such as `git_branches`) whose results are wanted, in order.
    pub generators: Vec<String>,
}

/// The results of the outside sources for a context.
pub struct Fetched {
    pub commands: Vec<Suggestion>,
    /// Filesystem entries (directories only when [`SuggestNeeds::folders_only`]).
    pub filesystem: Vec<Suggestion>,
    /// One result list per generator of [`SuggestNeeds::generators`], in order
    /// (empty for a generator that is unknown or failed).
    pub git: Vec<Vec<Suggestion>>,
}

/// The outside results as models.
pub open spec fn git_view(g: Seq<Vec<Suggestion>>) -> Seq<Seq<SpecSuggestion>> {
    g.map_values(|v: Vec<Suggestion>| suggestions_view(v@))
}

/// The git results for generators `0..k`, concatenated.
pub open spec fn git_concat(g: Seq<Seq<SpecSuggestion>>, k: int) -> Seq<SpecSuggestion>
    decreases k,
{
    if k <= 0 {
        Seq::empty()
    } else {
        git_concat(g, k - 1) + (if k - 1 < g.len() { g[k - 1] } else { Seq::empty() })
    }
}

/// Some seq when the flag is on, empty otherwise.
pub open spec fn if_on<T>(on: bool, s: Seq<T>) -> Seq<T> {
    if on { s } else { Seq::empty() }
}

/// The candidates a context gathers, in order, before ranking.
pub open spec fn spec_candidates(
    e: EngineModel,
    ctx: SpecContext,
    commands: Seq<SpecSuggestion>,
    filesystem: Seq<SpecSuggestion>,
    git: Seq<Seq<SpecSuggestion>>,
) -> Seq<SpecSuggestion> {
    match spec_route(e, ctx) {
        Route::CommandPosition => if_on(e.commands, commands)
            + if_on(e.history_on, e.history.map_values(|h: Seq<char>| history_suggestion(h))),
        Route::Filesystem => if_on(e.filesystem, filesystem),
        Route::Spec(spec) => {
            let (subs, opts, gens, wants_files, wants_folders, in_option_arg) = spec_resolve(
                spec,
                ctx.args,
                ctx.preceding_flag,
            );
            if_on(!in_option_arg, subs + opts) + if_on(e.git, git_concat(git, gens.len() as int))
                + if_on((wants_files || wants_folders) && e.filesystem, filesystem)
        },
    }
}

/// What the engine asks the caller to fetch for a context: commands,
/// filesystem entries, whether only directories, and the generators.
pub open spec fn spec_needs(e: EngineModel, ctx: SpecContext) -> (bool, bool, bool, Seq<Seq<char>>) {
    match spec_route(e, ctx) {
        Route::CommandPosition => (e.commands, false, false, Seq::empty()),
        Route::Filesystem => (false, e.filesystem, false, Seq::empty()),
        Route::Spec(spec) => {
            let (_, _, gens, wants_files, wants_folders, _) = spec_resolve(spec, ctx.args, ctx.preceding_flag);
            (
                false,
                (wants_files || wants_folders) && e.filesystem,
                wants_folders && !wants_files && e.filesystem,
                if e.git { gens } else { Seq::empty() },
            )
        },
    }
}

/// Combines and ranks the candidates of the enabled sources.
pub struct SuggestionEngine {
    spec_store: SpecStore,
    history_provider: HistoryProvider,
    max_results: usize,
    providers_commands: bool,
    providers_history: bool,
    providers_filesystem: bool,
    providers_specs: bool,
    providers_git: bool,
}

impl View for SuggestionEngine {
    type V = EngineModel;

    closed spec fn view(&self) -> EngineModel {
        EngineModel {
            specs: self.spec_store@,
            history: self.history_provider@,
            max_results: self.max_results,
            commands: self.providers_commands,
            history_on: self.providers_history,
            filesystem: self.providers_filesystem,
            specs_on: self.providers_specs,
            git: self.providers_git,
        }
    }
}

impl SuggestionEngine {
    /// An engine over the given specs and history, with every source enabled
    /// and the default number of results.
    pub fn new(spec_store: SpecStore, history_provider: HistoryProvider) -> (e: Self)
        ensures
            e@ == (EngineModel {
                specs: spec_store@,
                history: history_provider@,
                max_results: DEFAULT_MAX_RESULTS,
                commands: true,
                history_on: true,
                filesystem: true,
                specs_on: true,
                git: true,
            }),
    {
        SuggestionEngine {
            spec_store,
            history_provider,
            max_results: DEFAULT_MAX_RESULTS,
            providers_commands: true,
            providers_history: true,
            providers_filesystem: true,
            providers_specs: true,
            providers_git: true,
        }
    }

    /// The same engine with another result limit, source switches, and the
    /// history reloaded (from the history file's bytes, when they could be
    /// read) with at most `max_history_entries` entries.
    #[allow(clippy::too_many_arguments)]
    pub fn with_suggest_config(
        self,
        max_results: usize,
        max_history_entries: usize,
        history_bytes: Option<&[u8]>,
        commands: bool,
        history: bool,
        filesystem: bool,
        specs: bool,
        git: bool,
    ) -> (e: Self)
        ensures
            e@ == (EngineModel {
                specs: self@.specs,
                history: match history_bytes {
                    Some(b) => spec_parse_and_dedup(spec_utf8_lossy(b@), max_history_entries as nat),
                    None => Seq::empty(),
                },
                max_results,
                commands,
                history_on: history,
                filesystem,
                specs_on: specs,
                git,
            }),
    {
        let history_provider = HistoryProvider::load(history_bytes, max_history_entries);
        SuggestionEngine {
            spec_store: self.spec_store,
            history_provider,
            max_results,
            providers_commands: commands,
            providers_history: history,
            providers_filesystem: filesystem,
            providers_specs: specs,
            providers_git: git,
        }
    }
}


/// Appends copies of `src` to `dst`.
fn extend_cloned(dst: &mut Vec<Suggestion>, src: &Vec<Suggestion>)
    ensures
        suggestions_view(final(dst)@) == suggestions_view(old(dst)@) + suggestions_view(src@),
{
    let ghost start = suggestions_view(dst@);
    let n = src.len();
    for i in 0..n
        invariant
            n == src@.len(),
            suggestions_view(dst@) == start + suggestions_view(src@).take(i as int),
    {
        let ghost prev = suggestions_view(dst@);
        dst.push(clone_suggestion(&src[i]));
        proof {
            assert(suggestions_view(dst@) =~= prev.push(src@[i as int]@));
            assert(suggestions_view(src@).take(i + 1) =~= suggestions_view(src@).take(i as int).push(src@[i as int]@));
        }
    }
    proof {
        assert(suggestions_view(src@).take(n as int) =~= suggestions_view(src@));
    }
}

/// Appends `src` to `dst`, consuming it.
fn extend_moved(dst: &mut Vec<Suggestion>, src: Vec<Suggestion>)
    ensures
        suggestions_view(final(dst)@) == suggestions_view(old(dst)@) + suggestions_view(src@),
{
    let mut src = src;
    let ghost sv = src@;
    dst.append(&mut src);
    proof {
        assert(suggestions_view(dst@) =~= suggestions_view(old(dst)@) + suggestions_view(sv));
    }
}

impl SuggestionEngine {
    /// The completion spec that applies past command position and redirects.
    fn spec_for(&self, ctx: &CommandContext) -> (r: Option<&CompletionSpec>)
        requires
            ctx.word_index != 0,
            !ctx.in_redirect,
        ensures
            match spec_route(self@, ctx@) {
                Route::Spec(s) => r is Some && *r.unwrap() == s,
                _ => r is None,
            },
    {
        if !self.providers_specs {
            return None;
        }
        match &ctx.command {
            Some(command) => self.spec_store.get(command.as_str()),
            None => None,
        }
    }

    /// Which outside sources the caller must fetch for `ctx` before
    /// [`SuggestionEngine::suggest_sync`].
    pub fn needs(&self, ctx: &CommandContext) -> (r: SuggestNeeds)
        ensures
            (r.commands, r.filesystem, r.folders_only, strings_view(r.generators@)) == spec_needs(self@, ctx@),
    {
        if ctx.word_index == 0 {
            let r = SuggestNeeds {
                commands: self.providers_commands,
                filesystem: false,
                folders_only: false,
                generators: Vec::new(),
            };
            assert(strings_view(r.generators@) =~= Seq::<Seq<char>>::empty());
            return r;
        }
        if ctx.in_redirect {
            let r = SuggestNeeds {
                commands: false,
                filesystem: self.providers_filesystem,
                folders_only: false,
                generators: Vec::new(),
            };
            assert(strings_view(r.generators@) =~= Seq::<Seq<char>>::empty());
            return r;
        }
        match self.spec_for(ctx) {
            Some(spec) => {
                let res = resolve_spec(spec, ctx);
                let generators = if self.providers_git {
                    res.generators
                } else {
                    let empty: Vec<String> = Vec::new();
                    assert(strings_view(empty@) =~= Seq::<Seq<char>>::empty());
                    empty
                };
                SuggestNeeds {
                    commands: false,
                    filesystem: (res.wants_filepaths || res.wants_folders_only) && self.providers_filesystem,
                    folders_only: res.wants_folders_only && !res.wants_filepaths && self.providers_filesystem,
                    generators,
                }
            },
            None => {
                let r = SuggestNeeds {
                    commands: false,
                    filesystem: self.providers_filesystem,
                    folders_only: false,
                    generators: Vec::new(),
                };
                assert(strings_view(r.generators@) =~= Seq::<Seq<char>>::empty());
                r
            },
        }
    }

    /// Suggestions for `ctx`: the candidates of the enabled sources (see
    /// [`spec_candidates`]) ranked against the word being typed.
    pub fn suggest_sync(&self, ctx: &CommandContext, fetched: &Fetched) -> (r: Vec<Suggestion>)
        ensures
            suggestions_view(r@) == spec_rank(
                ctx@.current_word,
                spec_candidates(
                    self@,
                    ctx@,
                    suggestions_view(fetched.commands@),
                    suggestions_view(fetched.filesystem@),
                    git_view(fetched.git@),
                ),
                self@.max_results as int,
            ),
    {
        let ghost cmds = suggestions_view(fetched.commands@);
        let ghost fs = suggestions_view(fetched.filesystem@);
        let ghost git = git_view(fetched.git@);
        let mut candidates: Vec<Suggestion> = Vec::new();
        assert(suggestions_view(candidates@) =~= Seq::<SpecSuggestion>::empty());
        if ctx.word_index == 0 {
            if self.providers_commands {
                extend_cloned(&mut candidates, &fetched.commands);
            }
            if self.providers_history {
                let hist = self.history_provider.provide(ctx, "");
                extend_moved(&mut candidates, hist);
            }
            proof {
                assert(suggestions_view(candidates@) =~= spec_candidates(self@, ctx@, cmds, fs, git));
            }
            return rank(ctx.current_word.as_str(), candidates, self.max_results);
        }
        if ctx.in_redirect {
            if self.providers_filesystem {
                extend_cloned(&mut candidates, &fetched.filesystem);
            }
            proof {
                assert(suggestions_view(candidates@) =~= spec_candidates(self@, ctx@, cmds, fs, git));
            }
            return rank(ctx.current_word.as_str(), candidates, self.max_results);
        }
        match self.spec_for(ctx) {
            Some(spec) => {
                let res = resolve_spec(spec, ctx);
                let ghost gens = strings_view(res.generators@);
                if !res.in_option_arg {
                    extend_moved(&mut candidates, res.subcommands);
                    extend_moved(&mut candidates, res.options);
                }
                if self.providers_git {
                    let ng = res.generators.len();
                    let ghost base = suggestions_view(candidates@);
                    for k in 0..ng
                        invariant
                            ng == gens.len(),
                            git == git_view(fetched.git@),
                            suggestions_view(candidates@) == base + git_concat(git, k as int),
                    {
                        let ghost prev = suggestions_view(candidates@);
                        if k < fetched.git.len() {
                            extend_cloned(&mut candidates, &fetched.git[k]);
                        }
                        proof {
                            assert(suggestions_view(candidates@) =~= prev + (if k < git.len() { git[k as int] } else { Seq::empty() }));
                        }
                    }
                }
                if (res.wants_filepaths || res.wants_folders_only) && self.providers_filesystem {
                    extend_cloned(&mut candidates, &fetched.filesystem);
                }
                proof {
                    assert(suggestions_view(candidates@) =~= spec_candidates(self@, ctx@, cmds, fs, git));
                }
                rank(ctx.current_word.as_str(), candidates, self.max_results)
            },
            None => {
                if self.providers_filesystem {
                    extend_cloned(&mut candidates, &fetched.filesystem);
                }
                proof {
                    assert(suggestions_view(candidates@) =~= spec_candidates(self@, ctx@, cmds, fs, git));
                }
                rank(ctx.current_word.as_str(), candidates, self.max_results)
            },
        }
    }
}

} // verus!

verus! {

/// A disabled source contributes nothing: what it fetched does not change
/// the candidates.
pub proof fn law_disabled_sources_ignored(
    e: EngineModel,
    ctx: SpecContext,
    commands: Seq<SpecSuggestion>,
    commands2: Seq<SpecSuggestion>,
    filesystem: Seq<SpecSuggestion>,
    filesystem2: Seq<SpecSuggestion>,
    git: Seq<Seq<SpecSuggestion>>,
    git2: Seq<Seq<SpecSuggestion>>,
)
    ensures
        !e.commands ==> spec_candidates(e, ctx, commands, filesystem, git) == spec_candidates(
            e,
            ctx,
            commands2,
            filesystem,
            git,
        ),
        !e.filesystem ==> spec_candidates(e, ctx, commands, filesystem, git) == spec_candidates(
            e,
            ctx,
            commands,
            filesystem2,
            git,
        ),
        !e.git ==> spec_candidates(e, ctx, commands, filesystem, git) == spec_candidates(
            e,
            ctx,
            commands,
            filesystem,
            git2,
        ),
{
}

/// At command position the candidates are the commands, then the history
/// entries (each enabled source in that order); elsewhere no command or
/// history candidate is offered.
pub proof fn law_commands_only_at_command_position(
    e: EngineModel,
    ctx: SpecContext,
    commands: Seq<SpecSuggestion>,
    filesystem: Seq<SpecSuggestion>,
    git: Seq<Seq<SpecSuggestion>>,
)
    ensures
        ctx.word_index == 0 ==> spec_candidates(e, ctx, commands, filesystem, git) == if_on(e.commands, commands)
            + if_on(e.history_on, e.history.map_values(|h: Seq<char>| history_suggestion(h))),
        ctx.word_index != 0 ==> spec_candidates(e, ctx, commands, filesystem, git) == spec_candidates(
            e,
            ctx,
            Seq::empty(),
            filesystem,
            git,
        ),
{
}

/// Over every context and every set of enabled sources and fetched lists:
/// the engine returns at most `max_results` suggestions; for an empty word
/// they are the first candidates in order; otherwise they come ranked, and
/// each is a candidate of an enabled source for this context that matches
/// the word, carrying its match score.
pub proof fn law_suggestions_are_ranked_candidates(
    e: EngineModel,
    ctx: SpecContext,
    commands: Seq<SpecSuggestion>,
    filesystem: Seq<SpecSuggestion>,
    git: Seq<Seq<SpecSuggestion>>,
)
    ensures
        ({
            let cands = spec_candidates(e, ctx, commands, filesystem, git);
            let r = spec_rank(ctx.current_word, cands, e.max_results as int);
            &&& r.len() <= e.max_results
            &&& ctx.current_word.len() == 0 ==> r == cands.take(
                if cands.len() <= e.max_results { cands.len() as int } else { e.max_results as int },
            )
            &&& ctx.current_word.len() > 0 ==> rank_sorted(r)
            &&& ctx.current_word.len() > 0 ==> forall|k: int| 0 <= k < r.len()
                ==> matched_candidate(ctx.current_word, cands, #[trigger] r[k])
        }),
{
    law_rank_ordered_and_bounded(
        ctx.current_word,
        spec_candidates(e, ctx, commands, filesystem, git),
        e.max_results as nat,
    );
}

/// A suggestion source is one the engine may use for a context: commands
/// and history only when enabled and at command position, the filesystem,
/// specs and git only when enabled.
pub open spec fn source_allowed(e: EngineModel, ctx: SpecContext, src: SuggestionSource) -> bool {
    match src {
        SuggestionSource::Commands => e.commands && ctx.word_index == 0,
        SuggestionSource::History => e.history_on && ctx.word_index == 0,
        SuggestionSource::Filesystem => e.filesystem,
        SuggestionSource::Spec => e.specs_on,
        SuggestionSource::Git => e.git,
    }
}

/// Every suggestion of `s` has the given source.
pub open spec fn all_from(s: Seq<SpecSuggestion>, src: SuggestionSource) -> bool {
    forall|k: int| 0 <= k < s.len() ==> (#[trigger] s[k]).source == src
}

/// Every option suggestion comes from the spec.
proof fn lemma_options_from_spec(opts: Seq<OptionSpec>)
    ensures
        all_from(all_option_suggestions(opts), SuggestionSource::Spec),
    decreases opts.len(),
{
    if opts.len() > 0 {
        lemma_options_from_spec(opts.drop_last());
        let prev = all_option_suggestions(opts.drop_last());
        let last = option_suggestions(opts.last());
        assert forall|k: int| 0 <= k < (prev + last).len() implies (#[trigger] (prev + last)[k]).source
            == SuggestionSource::Spec by {
            if k >= prev.len() {
                assert((prev + last)[k] == last[k - prev.len()]);
            }
        }
    }
}

/// The joined git results come from git when each list does.
proof fn lemma_git_concat_from_git(g: Seq<Seq<SpecSuggestion>>, k: int)
    requires
        forall|i: int| 0 <= i < g.len() ==> all_from(#[trigger] g[i], SuggestionSource::Git),
    ensures
        all_from(git_concat(g, k), SuggestionSource::Git),
    decreases k,
{
    if k > 0 {
        lemma_git_concat_from_git(g, k - 1);
        let prev = git_concat(g, k - 1);
        let last: Seq<SpecSuggestion> = if k - 1 < g.len() { g[k - 1] } else { Seq::empty() };
        assert forall|j: int| 0 <= j < (prev + last).len() implies (#[trigger] (prev + last)[j]).source
            == SuggestionSource::Git by {
            if j >= prev.len() {
                assert((prev + last)[j] == last[j - prev.len()]);
            }
        }
    }
}

/// Every candidate for a context comes from a source the engine may use
/// for it, given that the fetched lists carry their own source.
proof fn lemma_candidates_allowed(
    e: EngineModel,
    ctx: SpecContext,
    commands: Seq<SpecSuggestion>,
    filesystem: Seq<SpecSuggestion>,
    git: Seq<Seq<SpecSuggestion>>,
)
    requires
        all_from(commands, SuggestionSource::Commands),
        all_from(filesystem, SuggestionSource::Filesystem),
        forall|i: int| 0 <= i < git.len() ==> all_from(#[trigger] git[i], SuggestionSource::Git),
    ensures
        forall|k: int| 0 <= k < spec_candidates(e, ctx, commands, filesystem, git).len()
            ==> source_allowed(e, ctx, (#[trigger] spec_candidates(e, ctx, commands, filesystem, git)[k]).source),
{
    let c = spec_candidates(e, ctx, commands, filesystem, git);
    match spec_route(e, ctx) {
        Route::CommandPosition => {
            let a = if_on(e.commands, commands);
            let h = if_on(e.history_on, e.history.map_values(|x: Seq<char>| history_suggestion(x)));
            assert forall|k: int| 0 <= k < c.len() implies source_allowed(e, ctx, (#[trigger] c[k]).source) by {
                if k < a.len() {
                    assert(c[k] == a[k]);
                } else {
                    assert(c[k] == h[k - a.len()]);
                }
            }
        },
        Route::Filesystem => {},
        Route::Spec(spec) => {
            let (subs, opts, gens, wf, wd, in_arg) = spec_resolve(spec, ctx.args, ctx.preceding_flag);
            lemma_options_from_spec(walk_args(
                ctx.args,
                0,
                SpecPos { subs: spec.subcommands@, opts: spec.options@, args: spec.args@ },
            ).opts);
            lemma_git_concat_from_git(git, gens.len() as int);
            let p1 = if_on(!in_arg, subs + opts);
            let p2 = if_on(e.git, git_concat(git, gens.len() as int));
            let p3 = if_on((wf || wd) && e.filesystem, filesystem);
            assert(c == p1 + p2 + p3);
            assert forall|k: int| 0 <= k < c.len() implies source_allowed(e, ctx, (#[trigger] c[k]).source) by {
                if k < p1.len() {
                    assert(c[k] == p1[k]);
                    if k < subs.len() {
                        assert((subs + opts)[k] == subs[k]);
                    } else {
                        assert((subs + opts)[k] == opts[k - subs.len()]);
                    }
                } else if k < p1.len() + p2.len() {
                    assert(c[k] == p2[k - p1.len()]);
                } else {
                    assert(c[k] == p3[k - p1.len() - p2.len()]);
                }
            }
        },
    }
}

/// Whatever the context and the enabled sources, every suggestion the engine
/// returns comes from a source it may use there: no `$PATH` command unless
/// commands are enabled and the word is the command, no history entry unless
/// history is enabled and the word is the command, no file, spec or git
/// suggestion unless that source is enabled (given that the fetched lists
/// carry their own source, as the listing functions make them).
pub proof fn law_results_from_enabled_sources(
    e: EngineModel,
    ctx: SpecContext,
    commands: Seq<SpecSuggestion>,
    filesystem: Seq<SpecSuggestion>,
    git: Seq<Seq<SpecSuggestion>>,
)
    requires
        all_from(commands, SuggestionSource::Commands),
        all_from(filesystem, SuggestionSource::Filesystem),
        forall|i: int| 0 <= i < git.len() ==> all_from(#[trigger] git[i], SuggestionSource::Git),
    ensures
        forall|k: int| 0 <= k < spec_rank(ctx.current_word, spec_candidates(e, ctx, commands, filesystem, git), e.max_results as int).len()
            ==> source_allowed(
                e,
                ctx,
                (#[trigger] spec_rank(ctx.current_word, spec_candidates(e, ctx, commands, filesystem, git), e.max_results as int)[k]).source,
            ),
{
    let c = spec_candidates(e, ctx, commands, filesystem, git);
    let r = spec_rank(ctx.current_word, c, e.max_results as int);
    lemma_candidates_allowed(e, ctx, commands, filesystem, git);
    law_rank_ordered_and_bounded(ctx.current_word, c, e.max_results as nat);
    assert forall|k: int| 0 <= k < r.len() implies source_allowed(e, ctx, (#[trigger] r[k]).source) by {
        if ctx.current_word.len() == 0 {
            assert(r[k] == c[k]);
        } else {
            assert(matched_candidate(ctx.current_word, c, r[k]));
            let x = choose|x: SpecSuggestion| #[trigger] c.contains(x) && spec_fuzzy_score(ctx.current_word, x.text)
                == Some(r[k].score) && r[k] == (SpecSuggestion { score: r[k].score, ..x });
            let w = choose|w: int| 0 <= w < c.len() && c[w] == x;
            assert(source_allowed(e, ctx, c[w].source));
        }
    }
}

} // verus!
