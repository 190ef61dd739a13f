use clis::ranking::compute_filtered;


// --- score_fuzzy tests ---

#[test]
fn lib_empty_query_returns_all() {
    let items = vec!["foo", "bar", "baz"];
    let filtered = compute_filtered(&items, "", |s: &&str| s.to_string());
    assert_eq!(filtered, vec![0, 1, 2]);
}

#[test]
fn lib_filter_matches() {
    let items = vec!["apple", "banana", "apricot"];
    let filtered = compute_filtered(&items, "ap", |s: &&str| s.to_string());
    assert!(!filtered.is_empty());
    assert!(filtered.contains(&0)); // apple
    assert!(filtered.contains(&2)); // apricot
}

#[test]
fn lib_filter_no_match() {
    let items = vec!["apple", "banana"];
    let filtered = compute_filtered(&items, "zzzzz", |s: &&str| s.to_string());
    assert!(filtered.is_empty());
}
