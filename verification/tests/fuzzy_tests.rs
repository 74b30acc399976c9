use ghost_complete::fuzzy::{rank, DEFAULT_MAX_RESULTS};
use ghost_complete::suggestion::{Suggestion, SuggestionKind, SuggestionSource};

fn make(text: &str) -> Suggestion {
    Suggestion {
        text: text.to_string(),
        description: None,
        kind: SuggestionKind::Command,
        source: SuggestionSource::Commands,
        score: 0,
    }
}

#[test]
fn test_empty_query_returns_all() {
    let items: Vec<Suggestion> = (0..10).map(|i| make(&format!("item{i}"))).collect();
    let result = rank("", items, DEFAULT_MAX_RESULTS);
    assert_eq!(result.len(), 10);
}

#[test]
fn test_fuzzy_match_filters() {
    let items = vec![make("checkout"), make("cherry-pick"), make("zzzzz")];
    let result = rank("che", items, DEFAULT_MAX_RESULTS);
    assert!(result.iter().any(|s| s.text == "checkout"));
    assert!(result.iter().any(|s| s.text == "cherry-pick"));
    assert!(!result.iter().any(|s| s.text == "zzzzz"));
}

#[test]
fn test_exact_prefix_scores_higher() {
    let items = vec![make("achievement"), make("checkout")];
    let result = rank("check", items, DEFAULT_MAX_RESULTS);
    assert!(!result.is_empty());
    assert_eq!(result[0].text, "checkout");
}

#[test]
fn test_no_matches_returns_empty() {
    let items = vec![make("alpha"), make("beta"), make("gamma")];
    let result = rank("zzzzxxx", items, DEFAULT_MAX_RESULTS);
    assert!(result.is_empty());
}

#[test]
fn test_max_results_cap() {
    let items: Vec<Suggestion> = (0..100).map(|i| make(&format!("item{i}"))).collect();
    let result = rank("item", items, DEFAULT_MAX_RESULTS);
    assert!(result.len() <= DEFAULT_MAX_RESULTS);
}

#[test]
fn test_custom_max_results() {
    let items: Vec<Suggestion> = (0..100).map(|i| make(&format!("item{i}"))).collect();
    let result = rank("item", items, 5);
    assert!(result.len() <= 5);
}

#[test]
fn test_scores_are_set() {
    let items = vec![make("checkout"), make("cherry-pick")];
    let result = rank("ch", items, DEFAULT_MAX_RESULTS);
    for s in &result {
        assert!(s.score > 0, "score should be > 0 after ranking");
    }
}

#[test]
fn rank_orders_by_score_then_text() {
    let items: Vec<Suggestion> = vec![make("item3"), make("item1"), make("item2")];
    let result = rank("item", items, DEFAULT_MAX_RESULTS);
    assert_eq!(result.len(), 3);
    for w in result.windows(2) {
        assert!(w[0].score > w[1].score || (w[0].score == w[1].score && w[0].text < w[1].text));
    }
}

#[test]
fn rank_empty_query_keeps_order_and_truncates() {
    let items: Vec<Suggestion> = vec![make("b"), make("a"), make("c")];
    let result = rank("", items, 2);
    let texts: Vec<&str> = result.iter().map(|s| s.text.as_str()).collect();
    assert_eq!(texts, vec!["b", "a"]);
}

#[test]
fn rank_puts_history_after_other_sources() {
    let mut hist = make("checkout");
    hist.source = SuggestionSource::History;
    let items = vec![hist, make("check-ignore"), make("cherry-pick")];
    let result = rank("ch", items, DEFAULT_MAX_RESULTS);
    assert_eq!(result.len(), 3);
    assert_eq!(result[2].text, "checkout");
    assert_eq!(result[2].source, SuggestionSource::History);
    assert!(result[0].score >= result[1].score);
}
