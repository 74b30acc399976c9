//! Fuzzy ranking of suggestions against the word being typed.

use vstd::prelude::*;

use nucleo::pattern::{AtomKind, CaseMatching, Normalization, Pattern};
use nucleo::{Config, Matcher, Utf32String};

use crate::suggestion::{clone_suggestion, suggestions_view, SpecSuggestion, Suggestion, SuggestionSource};
use crate::text::chars_of;

verus! {

/// Default number of ranked results kept.
pub const DEFAULT_MAX_RESULTS: usize = 50;

/// The score nucleo's fuzzy matcher gives `text` for the pattern `query`
/// (smart case, smart normalization, fuzzy atoms), or None when it does not match.
pub uninterp spec fn spec_fuzzy_score(query: Seq<char>, text: Seq<char>) -> Option<u32>;

/// Scores `text` against `query` with `nucleo`: a `Pattern` built with smart
/// case matching, smart normalization and fuzzy atoms, matched by a `Matcher`
/// with the default configuration. Trusted to return the named score of
/// exactly these two strings; what the score is, is left unsaid.
#[verifier::external_body]
fn fuzzy_score(query: &str, text: &str) -> (r: Option<u32>)
    ensures
        r == spec_fuzzy_score(query@, text@),
{
    let pattern = Pattern::new(query, CaseMatching::Smart, Normalization::Smart, AtomKind::Fuzzy);
    let mut matcher = Matcher::new(Config::DEFAULT);
    let haystack = Utf32String::from(text);
    pattern.score(haystack.slice(..), &mut matcher)
}

/// Lexicographic order on character sequences (as `str` orders them).
pub open spec fn seq_lt(a: Seq<char>, b: Seq<char>) -> bool
    decreases a.len(),
{
    if a.len() == 0 {
        b.len() > 0
    } else if b.len() == 0 {
        false
    } else if a[0] != b[0] {
        a[0] < b[0]
    } else {
        seq_lt(a.drop_first(), b.drop_first())
    }
}

/// The suggestion comes from the shell history.
pub open spec fn from_history(a: SpecSuggestion) -> bool {
    a.source == SuggestionSource::History
}

/// `a` ranks before `b`: history suggestions after all others; within each
/// group, higher score first, then by text.
pub open spec fn ranks_before(a: SpecSuggestion, b: SpecSuggestion) -> bool {
    (!from_history(a) && from_history(b)) || (from_history(a) == from_history(b) && (a.score > b.score
        || (a.score == b.score && seq_lt(a.text, b.text))))
}

/// Index of the first element of `sorted` that `x` ranks before.
pub open spec fn insert_pos(sorted: Seq<SpecSuggestion>, x: SpecSuggestion, k: int) -> int
    decreases sorted.len() - k,
{
    if k < 0 || k >= sorted.len() || ranks_before(x, sorted[k]) {
        k
    } else {
        insert_pos(sorted, x, k + 1)
    }
}

/// Stable sort by rank (insertion sort: each item goes after every item it
/// does not rank before).
pub open spec fn sort_ranked(s: Seq<SpecSuggestion>) -> Seq<SpecSuggestion>
    decreases s.len(),
{
    if s.len() == 0 {
        Seq::empty()
    } else {
        let sorted = sort_ranked(s.drop_last());
        sorted.insert(insert_pos(sorted, s.last(), 0), s.last())
    }
}

/// The suggestions that match `query`, each carrying its score, in order.
pub open spec fn scored(query: Seq<char>, s: Seq<SpecSuggestion>) -> Seq<SpecSuggestion>
    decreases s.len(),
{
    if s.len() == 0 {
        Seq::empty()
    } else {
        let prev = scored(query, s.drop_last());
        match spec_fuzzy_score(query, s.last().text) {
            Some(sc) => prev.push(SpecSuggestion { score: sc, ..s.last() }),
            None => prev,
        }
    }
}

/// The first `n` items (all when there are fewer).
pub open spec fn truncate<T>(s: Seq<T>, n: int) -> Seq<T> {
    if s.len() <= n { s } else { s.take(n) }
}

/// Ranking: an empty query keeps the first `max_results`; otherwise the
/// suggestions that fuzzy-match, scored, sorted (history suggestions after
/// the others; within each group by score, high first, then text), the first
/// `max_results` of them.
pub open spec fn spec_rank(query: Seq<char>, s: Seq<SpecSuggestion>, max_results: int) -> Seq<SpecSuggestion> {
    if query.len() == 0 {
        truncate(s, max_results)
    } else {
        truncate(sort_ranked(scored(query, s)), max_results)
    }
}

/// Whether `a` sorts before `b` as strings.
pub(crate) fn text_lt(a: &String, b: &String) -> (r: bool)
    ensures
        r == seq_lt(a@, b@),
{
    let x = chars_of(a.as_str());
    let y = chars_of(b.as_str());
    let mut i: usize = 0;
    assert(x@.skip(0) =~= x@);
    assert(y@.skip(0) =~= y@);
    while i < x.len() && i < y.len() && x[i] == y[i]
        invariant
            i <= x@.len(),
            i <= y@.len(),
            x@ == a@,
            y@ == b@,
            seq_lt(a@, b@) == seq_lt(x@.skip(i as int), y@.skip(i as int)),
        decreases x@.len() - i,
    {
        proof {
            assert(x@.skip(i as int).drop_first() =~= x@.skip(i + 1));
            assert(y@.skip(i as int).drop_first() =~= y@.skip(i + 1));
        }
        i = i + 1;
    }
    proof {
        if i < x@.len() {
            assert(x@.skip(i as int)[0] == x@[i as int]);
        }
        if i < y@.len() {
            assert(y@.skip(i as int)[0] == y@[i as int]);
        }
    }
    if i == x.len() {
        i < y.len()
    } else if i == y.len() {
        false
    } else {
        x[i] < y[i]
    }
}

/// Whether `a` ranks before `b`.
fn rank_before(a: &Suggestion, b: &Suggestion) -> (r: bool)
    ensures
        r == ranks_before(a@, b@),
{
    let ha = a.source == SuggestionSource::History;
    let hb = b.source == SuggestionSource::History;
    (!ha && hb) || (ha == hb && (a.score > b.score || (a.score == b.score && text_lt(&a.text, &b.text))))
}

/// Keeps the first `n` items.
fn truncate_vec(v: &mut Vec<Suggestion>, n: usize)
    ensures
        suggestions_view(final(v)@) == truncate(suggestions_view(old(v)@), n as int),
{
    if v.len() > n {
        v.truncate(n);
        assert(suggestions_view(v@) =~= suggestions_view(old(v)@).take(n as int));
    }
}

/// Ranks suggestions against the word being typed (see [`spec_rank`]).
pub fn rank(query: &str, suggestions: Vec<Suggestion>, max_results: usize) -> (r: Vec<Suggestion>)
    ensures
        suggestions_view(r@) == spec_rank(query@, suggestions_view(suggestions@), max_results as int),
{
    let qchars = chars_of(query);
    if qchars.len() == 0 {
        let mut s = suggestions;
        truncate_vec(&mut s, max_results);
        return s;
    }
    let ghost sv = suggestions_view(suggestions@);
    // Score and filter.
    let mut kept: Vec<Suggestion> = Vec::new();
    let n = suggestions.len();
    for i in 0..n
        invariant
            n == suggestions@.len(),
            sv == suggestions_view(suggestions@),
            suggestions_view(kept@) == scored(query@, sv.take(i as int)),
    {
        let s = &suggestions[i];
        proof {
            assert(sv.take(i + 1).drop_last() =~= sv.take(i as int));
            assert(sv.take(i + 1).last() == s@);
        }
        match fuzzy_score(query, s.text.as_str()) {
            Some(sc) => {
                let mut c = clone_suggestion(s);
                c.score = sc;
                let ghost prev = kept@;
                kept.push(c);
                proof {
                    assert(suggestions_view(kept@) =~= suggestions_view(prev).push(SpecSuggestion { score: sc, ..s@ }));
                }
            },
            None => {},
        }
    }
    proof {
        assert(sv.take(n as int) =~= sv);
    }
    // Stable insertion sort by rank.
    let ghost kv = suggestions_view(kept@);
    let mut sorted: Vec<Suggestion> = Vec::new();
    assert(suggestions_view(sorted@) =~= sort_ranked(kv.take(0)));
    let m = kept.len();
    for i in 0..m
        invariant
            m == kept@.len(),
            kv == suggestions_view(kept@),
            suggestions_view(sorted@) == sort_ranked(kv.take(i as int)),
    {
        let x = &kept[i];
        let ghost sorted_v = suggestions_view(sorted@);
        let len = sorted.len();
        let mut p: usize = 0;
        while p < len && !rank_before(x, &sorted[p])
            invariant
                p <= len,
                len == sorted@.len(),
                sorted_v == suggestions_view(sorted@),
                insert_pos(sorted_v, x@, 0) == insert_pos(sorted_v, x@, p as int),
            decreases len - p,
        {
            p = p + 1;
        }
        let c = clone_suggestion(x);
        sorted.insert(p, c);
        proof {
            assert(kv.take(i + 1).drop_last() =~= kv.take(i as int));
            assert(kv.take(i + 1).last() == x@);
            assert(suggestions_view(sorted@) =~= sorted_v.insert(p as int, x@));
        }
    }
    proof {
        assert(kv.take(m as int) =~= kv);
    }
    truncate_vec(&mut sorted, max_results);
    sorted
}

} // verus!

verus! {

/// No sequence sorts before itself.
pub(crate) proof fn lemma_seq_lt_irreflexive(a: Seq<char>)
    ensures
        !seq_lt(a, a),
    decreases a.len(),
{
    if a.len() > 0 {
        lemma_seq_lt_irreflexive(a.drop_first());
    }
}

/// Two sequences do not sort before each other.
pub(crate) proof fn lemma_seq_lt_asymmetric(a: Seq<char>, b: Seq<char>)
    ensures
        !(seq_lt(a, b) && seq_lt(b, a)),
    decreases a.len(),
{
    if a.len() > 0 && b.len() > 0 && a[0] == b[0] {
        lemma_seq_lt_asymmetric(a.drop_first(), b.drop_first());
    }
}

/// The order on sequences is transitive.
pub(crate) proof fn lemma_seq_lt_transitive(a: Seq<char>, b: Seq<char>, c: Seq<char>)
    requires
        seq_lt(a, b),
        seq_lt(b, c),
    ensures
        seq_lt(a, c),
    decreases a.len(),
{
    if a.len() > 0 && b.len() > 0 && c.len() > 0 && a[0] == b[0] && b[0] == c[0] {
        lemma_seq_lt_transitive(a.drop_first(), b.drop_first(), c.drop_first());
    }
}

/// Two different sequences are ordered one way or the other.
pub(crate) proof fn lemma_seq_lt_total(a: Seq<char>, b: Seq<char>)
    ensures
        a == b || seq_lt(a, b) || seq_lt(b, a),
    decreases a.len(),
{
    if a.len() > 0 && b.len() > 0 && a[0] == b[0] {
        lemma_seq_lt_total(a.drop_first(), b.drop_first());
        if a.drop_first() == b.drop_first() {
            assert(a =~= seq![a[0]] + a.drop_first());
            assert(b =~= seq![b[0]] + b.drop_first());
        }
    } else if a.len() == 0 && b.len() == 0 {
        assert(a =~= b);
    }
}

/// Ranking is a strict order: asymmetric and transitive.
proof fn lemma_ranks_before_order(a: SpecSuggestion, b: SpecSuggestion, c: SpecSuggestion)
    ensures
        !(ranks_before(a, b) && ranks_before(b, a)),
        ranks_before(a, b) && ranks_before(b, c) ==> ranks_before(a, c),
{
    lemma_seq_lt_asymmetric(a.text, b.text);
    if ranks_before(a, b) && ranks_before(b, c) && from_history(a) == from_history(b)
        && from_history(b) == from_history(c) && a.score == b.score && b.score == c.score {
        lemma_seq_lt_transitive(a.text, b.text, c.text);
    }
}

/// No later item ranks before an earlier one.
pub open spec fn rank_sorted(s: Seq<SpecSuggestion>) -> bool {
    forall|i: int, j: int| 0 <= i < j < s.len() ==> !ranks_before(#[trigger] s[j], #[trigger] s[i])
}

/// The insertion position lies within the sequence, every item before it is
/// not outranked by `x`, and `x` outranks the item at it (if any).
proof fn lemma_insert_pos(sorted: Seq<SpecSuggestion>, x: SpecSuggestion, k: int)
    requires
        0 <= k <= sorted.len(),
    ensures
        k <= insert_pos(sorted, x, k) <= sorted.len(),
        forall|i: int| k <= i < insert_pos(sorted, x, k) ==> !ranks_before(x, #[trigger] sorted[i]),
        insert_pos(sorted, x, k) < sorted.len() ==> ranks_before(x, sorted[insert_pos(sorted, x, k)]),
    decreases sorted.len() - k,
{
    if k < sorted.len() && !ranks_before(x, sorted[k]) {
        lemma_insert_pos(sorted, x, k + 1);
    }
}

/// Sorting orders the items and keeps only items it was given.
proof fn lemma_sort_ranked(s: Seq<SpecSuggestion>)
    ensures
        rank_sorted(sort_ranked(s)),
        sort_ranked(s).len() == s.len(),
        forall|k: int| 0 <= k < sort_ranked(s).len() ==> s.contains(#[trigger] sort_ranked(s)[k]),
    decreases s.len(),
{
    if s.len() > 0 {
        let prev = s.drop_last();
        lemma_sort_ranked(prev);
        let sorted = sort_ranked(prev);
        let x = s.last();
        lemma_insert_pos(sorted, x, 0);
        let p = insert_pos(sorted, x, 0);
        let t = sorted.insert(p, x);
        assert forall|i: int, j: int| 0 <= i < j < t.len() implies !ranks_before(#[trigger] t[j], #[trigger] t[i]) by {
            if j < p {
                assert(t[i] == sorted[i] && t[j] == sorted[j]);
            } else if j == p {
                assert(t[i] == sorted[i]);
                assert(!ranks_before(x, sorted[i]));
            } else if i < p {
                assert(t[i] == sorted[i] && t[j] == sorted[j - 1]);
            } else if i == p {
                assert(t[j] == sorted[j - 1]);
                lemma_ranks_before_order(sorted[j - 1], x, sorted[p]);
                if j - 1 > p {
                    assert(!ranks_before(sorted[j - 1], sorted[p]));
                }
            } else {
                assert(t[i] == sorted[i - 1] && t[j] == sorted[j - 1]);
            }
        }
        assert forall|k: int| 0 <= k < t.len() implies s.contains(#[trigger] t[k]) by {
            if k < p {
                assert(t[k] == sorted[k]);
                assert(prev.contains(sorted[k]));
                let w = choose|w: int| 0 <= w < prev.len() && prev[w] == sorted[k];
                assert(s[w] == prev[w]);
            } else if k == p {
                assert(s[s.len() - 1] == x);
            } else {
                assert(t[k] == sorted[k - 1]);
                assert(prev.contains(sorted[k - 1]));
                let w = choose|w: int| 0 <= w < prev.len() && prev[w] == sorted[k - 1];
                assert(s[w] == prev[w]);
            }
        }
    }
}

/// `x` is a candidate of `s` that matches `query`, carrying its match score.
pub open spec fn matched_candidate(query: Seq<char>, s: Seq<SpecSuggestion>, x: SpecSuggestion) -> bool {
    exists|c: SpecSuggestion|
        #[trigger] s.contains(c) && spec_fuzzy_score(query, c.text) == Some(x.score)
            && x == (SpecSuggestion { score: x.score, ..c })
}

/// A candidate of a prefix is a candidate of the whole.
proof fn lemma_matched_candidate_grow(query: Seq<char>, s: Seq<SpecSuggestion>, x: SpecSuggestion)
    requires
        s.len() > 0,
        matched_candidate(query, s.drop_last(), x),
    ensures
        matched_candidate(query, s, x),
{
    let prev = s.drop_last();
    let c = choose|c: SpecSuggestion|
        #[trigger] prev.contains(c) && spec_fuzzy_score(query, c.text) == Some(x.score)
            && x == (SpecSuggestion { score: x.score, ..c });
    let w = choose|w: int| 0 <= w < prev.len() && prev[w] == c;
    assert(s[w] == prev[w]);
    assert(s.contains(c));
}

/// Every scored item is an item of the input, fuzzy-matched, carrying its score.
proof fn lemma_scored(query: Seq<char>, s: Seq<SpecSuggestion>)
    ensures
        forall|k: int| 0 <= k < scored(query, s).len() ==> matched_candidate(query, s, #[trigger] scored(query, s)[k]),
    decreases s.len(),
{
    if s.len() > 0 {
        let prev = s.drop_last();
        lemma_scored(query, prev);
        let sp = scored(query, prev);
        let r = scored(query, s);
        assert forall|k: int| 0 <= k < r.len() implies matched_candidate(query, s, #[trigger] r[k]) by {
            if k < sp.len() {
                assert(r[k] == sp[k]);
                lemma_matched_candidate_grow(query, s, sp[k]);
            } else {
                let c = s.last();
                assert(s[s.len() - 1] == c);
                assert(s.contains(c));
                match spec_fuzzy_score(query, c.text) {
                    Some(score) => {
                        assert(r[k] == (SpecSuggestion { score, ..c }));
                    },
                    None => {
                        assert(r == sp);
                    },
                }
            }
        }
    }
}

/// Ranking returns at most `max_results` suggestions. With an empty query
/// they are the first candidates, in order; otherwise they are ordered (no
/// suggestion outranks one before it), and each is a candidate that matches
/// the query, carrying its match score.
pub proof fn law_rank_ordered_and_bounded(query: Seq<char>, s: Seq<SpecSuggestion>, max_results: nat)
    ensures
        spec_rank(query, s, max_results as int).len() <= max_results,
        query.len() == 0 ==> spec_rank(query, s, max_results as int) == s.take(
            if s.len() <= max_results { s.len() as int } else { max_results as int },
        ),
        query.len() > 0 ==> rank_sorted(spec_rank(query, s, max_results as int)),
        query.len() > 0 ==> forall|k: int| 0 <= k < spec_rank(query, s, max_results as int).len()
            ==> matched_candidate(query, s, #[trigger] spec_rank(query, s, max_results as int)[k]),
{
    if query.len() == 0 {
        if s.len() <= max_results {
            assert(s.take(s.len() as int) =~= s);
        }
    } else {
        let sc = scored(query, s);
        lemma_sort_ranked(sc);
        lemma_scored(query, s);
        let so = sort_ranked(sc);
        let r = spec_rank(query, s, max_results as int);
        assert forall|k: int| 0 <= k < r.len() implies matched_candidate(query, s, #[trigger] r[k]) by {
            assert(r[k] == so[k]);
            assert(sc.contains(so[k]));
            let w = choose|w: int| 0 <= w < sc.len() && sc[w] == so[k];
            assert(matched_candidate(query, s, sc[w]));
        }
        assert forall|i: int, j: int| 0 <= i < j < r.len() implies !ranks_before(#[trigger] r[j], #[trigger] r[i]) by {
            assert(r[i] == so[i] && r[j] == so[j]);
        }
    }
}

/// History suggestions come after all others: once a ranked list reaches a
/// history suggestion, every later one comes from history too.
pub proof fn law_history_after_other_sources(query: Seq<char>, s: Seq<SpecSuggestion>, max_results: nat)
    requires
        query.len() > 0,
    ensures
        forall|i: int, j: int|
            0 <= i < j < spec_rank(query, s, max_results as int).len()
                && from_history(#[trigger] spec_rank(query, s, max_results as int)[i])
                ==> from_history(#[trigger] spec_rank(query, s, max_results as int)[j]),
{
    law_rank_ordered_and_bounded(query, s, max_results);
    let r = spec_rank(query, s, max_results as int);
    assert forall|i: int, j: int| 0 <= i < j < r.len() && from_history(#[trigger] r[i]) implies from_history(
        #[trigger] r[j],
    ) by {
        assert(!ranks_before(r[j], r[i]));
    }
}

} // verus!
