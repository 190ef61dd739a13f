use clis::learn::frontmatter::{initial_fields, is_system_key, note_document, writable_updates, FieldValue};
use clis::learn::select::{
    find_by_stem, is_due, needs_refining, next_review_date, pick_prompt_type, prompt_choices,
    review_item, select_due,
};

fn vault() -> Vec<(Option<String>, Option<String>)> {
    vec![
        (Some("2025-01-13".into()), Some("Systems".into())),
        (Some("2025-01-10".into()), Some("Systems".into())),
        (Some("2025-02-01".into()), Some("Frontend".into())),
    ]
}

#[test]
fn returns_due_concepts() {
    assert_eq!(select_due(&vault(), None, "2025-01-15").len(), 2);
}

#[test]
fn excludes_future_concepts() {
    assert_eq!(select_due(&vault(), None, "2025-01-12"), vec![1]);
}

#[test]
fn filters_by_domain() {
    assert_eq!(select_due(&vault(), Some("Systems"), "2025-01-15"), vec![0, 1]);
    assert_eq!(select_due(&vault(), Some("Frontend"), "2025-01-15"), Vec::<usize>::new());
}

#[test]
fn concepts_with_no_frontmatter_are_due() {
    let v = vec![(None, None)];
    assert_eq!(select_due(&v, None, "2025-01-15"), vec![0]);
    assert!(is_due(None, "2025-01-15"));
    assert!(is_due(Some("2025-01-15"), "2025-01-15"));
    assert!(!is_due(Some("2025-01-16"), "2025-01-15"));
}

#[test]
fn prompt_choices_skip_last_asked() {
    assert_eq!(prompt_choices(None), vec!["definition", "decision", "contrast", "context", "consequence"]);
    assert_eq!(prompt_choices(Some("contrast")), vec!["definition", "decision", "context", "consequence"]);
    assert_eq!(pick_prompt_type(Some("definition"), 0), "decision");
    assert_eq!(pick_prompt_type(Some("definition"), 4), "decision");
    assert_eq!(pick_prompt_type(Some("definition"), 5), "contrast");
    assert_eq!(pick_prompt_type(None, 7), "contrast");
}

#[test]
fn review_item_asks_about_term() {
    let item = review_item("/v/Concepts/TB.md", Some("Token Bucket"), "TB", "context");
    assert_eq!(item.concept_term, "Token Bucket");
    assert_eq!(item.prompt, "Explain your understanding of Token Bucket.");
    let item = review_item("/v/Concepts/TB.md", None, "TB", "context");
    assert_eq!(item.concept_term, "TB");
    assert_eq!(item.prompt, "Explain your understanding of TB.");
    assert_eq!(item.prompt_type, "context");
    assert_eq!(item.concept_path, "/v/Concepts/TB.md");
}

#[test]
fn refine_selection() {
    assert!(needs_refining(None, false, None, false, false));
    assert!(needs_refining(None, true, None, false, false));
    assert!(!needs_refining(None, true, None, false, true));
    assert!(needs_refining(None, false, None, false, true));
    assert!(needs_refining(Some("Systems"), true, Some("Systems"), true, true));
    assert!(!needs_refining(Some("Systems"), false, None, false, false));
}

#[test]
fn find_by_stem_matches_file_name() {
    let paths = vec!["/v/Concepts/a/Leaky Bucket.md".to_string(), "/v/Concepts/Token Bucket.md".to_string()];
    assert_eq!(find_by_stem(&paths, "Token Bucket"), Some("/v/Concepts/Token Bucket.md".to_string()));
    assert_eq!(find_by_stem(&paths, "Token"), None);
}

#[test]
fn next_review_date_adds_interval() {
    assert_eq!(next_review_date("2025-01-15", 4, 2), Some("2025-01-18".to_string()));
    assert_eq!(next_review_date("2025-01-31", 5, 1), Some("2025-02-02".to_string()));
    assert_eq!(next_review_date("not a date", 4, 2), None);
}

#[test]
fn system_fields_only() {
    assert!(is_system_key("_mastery"));
    assert!(!is_system_key("term"));
    assert!(!is_system_key(""));
    let keys = vec!["_mastery".to_string(), "term".to_string(), "_next_review".to_string()];
    assert_eq!(writable_updates(&keys), vec![0, 2]);
}

#[test]
fn initial_fields_fill_what_is_missing() {
    let all = initial_fields(false, false, false, "2025-01-15");
    assert_eq!(
        all,
        vec![
            ("_mastery".to_string(), FieldValue::Int(0)),
            ("_review_count".to_string(), FieldValue::Int(0)),
            ("_next_review".to_string(), FieldValue::Text("2025-01-15".to_string())),
        ]
    );
    assert!(initial_fields(true, true, true, "2025-01-15").is_empty());
    assert_eq!(initial_fields(true, false, true, "x"), vec![("_review_count".to_string(), FieldValue::Int(0))]);
}

#[test]
fn note_document_frames_frontmatter() {
    assert_eq!(note_document("term: Test\n", "Body.\n"), "---\nterm: Test\n---\nBody.\n");
    assert_eq!(note_document("a: 1\n\n", ""), "---\na: 1\n---\n");
}
