use clis::learn::concept::{compute_current_interval, extract_wikilinks, split_frontmatter_text};

#[test]
fn extract_wikilinks_finds_links() {
    let text = "See [[Token Bucket]] and [[Leaky Bucket]] for details.";
    let links = extract_wikilinks(text);
    assert_eq!(links, vec!["Token Bucket", "Leaky Bucket"]);
}

#[test]
fn extract_wikilinks_empty() {
    assert!(extract_wikilinks("no links here").is_empty());
}

#[test]
fn extract_wikilinks_edge_cases() {
    assert!(extract_wikilinks("[[]]").is_empty());
    assert_eq!(extract_wikilinks("[[[a]]"), vec!["[a"]);
    assert_eq!(extract_wikilinks("[[a]b]] [[c]]"), vec!["c"]);
    assert_eq!(extract_wikilinks("[[multi\nline]]"), vec!["multi\nline"]);
    assert!(extract_wikilinks("[[open").is_empty());
}

#[test]
fn frontmatter_split_with_yaml() {
    let (yaml, body) = split_frontmatter_text("---\nterm: X\n---\nBody.\n");
    assert_eq!(yaml, Some("\nterm: X".to_string()));
    assert_eq!(body, "Body.\n");
}

#[test]
fn frontmatter_split_without_yaml() {
    let (yaml, body) = split_frontmatter_text("Just notes.\n");
    assert!(yaml.is_none());
    assert_eq!(body, "Just notes.\n");
    // an opening fence without a closing one is all body
    let (yaml, body) = split_frontmatter_text("---\nterm: X\n");
    assert!(yaml.is_none());
    assert_eq!(body, "---\nterm: X\n");
}

#[test]
fn frontmatter_split_leading_whitespace_and_no_body() {
    let (yaml, body) = split_frontmatter_text("  \n---\na: 1\n---");
    assert_eq!(yaml, Some("\na: 1".to_string()));
    assert_eq!(body, "");
}

#[test]
fn current_interval_from_dates() {
    assert_eq!(compute_current_interval(Some("2025-01-10"), Some("2025-01-13")), 3);
    assert_eq!(compute_current_interval(Some("2025-01-13"), Some("2025-01-13")), 1);
    assert_eq!(compute_current_interval(Some("2025-01-13"), Some("2025-01-10")), 1);
    assert_eq!(compute_current_interval(None, Some("2025-01-13")), 1);
    assert_eq!(compute_current_interval(Some("bad"), Some("2025-01-13")), 1);
    assert_eq!(compute_current_interval(Some("2024-12-31"), Some("2025-03-01")), 60);
}

#[test]
fn concept_fields_from_frontmatter() {
    let raw = "---\nterm: Token Bucket\ndomain: Systems\ntags: [a, 3, b]\n_review_count: 4\n_last_reviewed: '2025-01-10'\n_next_review: '2025-01-16'\n---\nSee [[Leaky Bucket]].\n";
    let f = clis::learn::fields::concept_fields(raw);
    assert_eq!(f.term.as_deref(), Some("Token Bucket"));
    assert_eq!(f.domain.as_deref(), Some("Systems"));
    assert_eq!(f.tags, Some(vec!["a".to_string(), "b".to_string()]));
    assert_eq!(f.review_count, 4);
    assert_eq!(f.current_interval, 6);
    assert_eq!(f.next_review.as_deref(), Some("2025-01-16"));
    assert_eq!(f.last_prompt_type, None);
    assert_eq!(f.body, "See [[Leaky Bucket]].\n");
    assert_eq!(f.wikilinks, vec!["Leaky Bucket"]);
    let bare = clis::learn::fields::concept_fields("Just notes.\n");
    assert_eq!(bare.term, None);
    assert_eq!(bare.review_count, 0);
    assert_eq!(bare.current_interval, 1);
    assert!(clis::learn::fields::has_field(raw, "_review_count"));
    assert!(!clis::learn::fields::has_field(raw, "_mastery"));
}

#[test]
fn vault_config_from_settings_text() {
    let c = clis::learn::fields::vault_config_from(Some("{\"defaultReviewCount\": 8, \"defaultDomain\": \"Systems\"}"));
    assert_eq!(c.default_review_count, 8);
    assert_eq!(c.default_domain.as_deref(), Some("Systems"));
    let d = clis::learn::fields::vault_config_from(Some("not json"));
    assert_eq!(d.default_review_count, 5);
    assert_eq!(d.default_domain, None);
    let e = clis::learn::fields::vault_config_from(None);
    assert_eq!(e.default_review_count, 5);
}
