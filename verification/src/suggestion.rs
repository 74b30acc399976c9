//! Completion candidates shared by the engine, the ranking and the popup.

use vstd::prelude::*;

use crate::context::opt_string_view;

verus! {

/// What a suggestion completes; shown as a one-letter gutter in the popup.
#[derive(Debug, Clone, Copy, PartialEq, Eq, Structural)]
pub enum SuggestionKind {
    Command,
    Subcommand,
    Flag,
    FilePath,
    Directory,
    GitBranch,
    GitTag,
    GitRemote,
    History,
}

/// Which provider produced a suggestion.
#[derive(Debug, Clone, Copy, PartialEq, Eq, Structural)]
pub enum SuggestionSource {
    Spec,
    Commands,
    History,
    Filesystem,
    Git,
}

/// A completion candidate.
#[derive(Debug, Clone, PartialEq, Eq)]
pub struct Suggestion {
    pub text: String,
    pub description: Option<String>,
    pub kind: SuggestionKind,
    pub source: SuggestionSource,
    pub score: u32,
}

/// Mathematical model of a [`Suggestion`].
pub struct SpecSuggestion {
    pub text: Seq<char>,
    pub description: Option<Seq<char>>,
    pub kind: SuggestionKind,
    pub source: SuggestionSource,
    pub score: u32,
}

impl View for Suggestion {
    type V = SpecSuggestion;

    open spec fn view(&self) -> SpecSuggestion {
        SpecSuggestion {
            text: self.text@,
            description: opt_string_view(self.description),
            kind: self.kind,
            source: self.source,
            score: self.score,
        }
    }
}

/// The models of a sequence of suggestions.
pub open spec fn suggestions_view(v: Seq<Suggestion>) -> Seq<SpecSuggestion> {
    v.map_values(|s: Suggestion| s@)
}

/// A copy of an optional string.
pub fn clone_opt_string(o: &Option<String>) -> (r: Option<String>)
    ensures
        opt_string_view(r) == opt_string_view(*o),
{
    match o {
        Some(s) => Some(s.clone()),
        None => None,
    }
}

/// A copy of a suggestion.
pub fn clone_suggestion(s: &Suggestion) -> (r: Suggestion)
    ensures
        r@ == s@,
{
    Suggestion {
        text: s.text.clone(),
        description: clone_opt_string(&s.description),
        kind: s.kind,
        source: s.source,
        score: s.score,
    }
}

} // verus!
