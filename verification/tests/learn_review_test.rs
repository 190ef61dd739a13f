use clis::learn::review::{parse_answered_reviews, parse_graded_items, parse_review_session, scores_fit_check};

const SAMPLE_REVIEW: &str = r#"---
type: review-session
date: 2025-01-15
---

# Daily Recall — 2025-01-15

### Token Bucket
Prompt Type: contrast
Prompt: How does this differ from Leaky Bucket?

My answer:
Token bucket allows bursts while leaky bucket smooths traffic.

Score: 4
Feedback: Good comparison, missed queue depth.
Hint: Consider how each handles burst traffic differently.
Next review: 6 day(s)

### Leaky Bucket
Prompt Type: definition
Prompt: Explain your understanding of Leaky Bucket.

My answer:


Score:
Feedback:
Hint:
Next review:
"#;

#[test]
fn parse_review_session_extracts_all_items() {
    let items = parse_review_session(SAMPLE_REVIEW);
    assert_eq!(items.len(), 2);
    assert_eq!(items[0].term, "Token Bucket");
    assert_eq!(items[1].term, "Leaky Bucket");
}

#[test]
fn parse_answered_reviews_filters_empty() {
    let items = parse_answered_reviews(SAMPLE_REVIEW);
    assert_eq!(items.len(), 1);
    assert_eq!(items[0].term, "Token Bucket");
}

#[test]
fn parse_graded_items_extracts_scored() {
    let items = parse_graded_items(SAMPLE_REVIEW);
    assert_eq!(items.len(), 1);
    assert_eq!(items[0].term, "Token Bucket");
    assert_eq!(items[0].score, 4);
    assert_eq!(items[0].feedback, "Good comparison, missed queue depth.");
}

#[test]
fn parse_review_session_reads_prompt_and_answer() {
    let items = parse_review_session(SAMPLE_REVIEW);
    assert_eq!(items[0].prompt_type, "contrast");
    assert_eq!(items[0].prompt, "How does this differ from Leaky Bucket?");
    assert_eq!(items[0].answer, "Token bucket allows bursts while leaky bucket smooths traffic.");
    assert_eq!(items[1].prompt_type, "definition");
    assert_eq!(items[1].answer, "");
}

#[test]
fn empty_fields_take_the_next_line() {
    // `Feedback:` with nothing after it reads on, across the newline.
    let note = "### A\nScore: 3\nFeedback:\nHint: think\n";
    let items = parse_graded_items(note);
    assert_eq!(items.len(), 1);
    assert_eq!(items[0].score, 3);
    assert_eq!(items[0].feedback, "Hint: think");
    assert_eq!(items[0].hint, "think");
}

#[test]
fn score_skips_a_blank_score_line() {
    let note = "### A\nScore:\nFeedback: x\nScore: 5\n";
    let items = parse_graded_items(note);
    assert_eq!(items[0].score, 5);
}

#[test]
fn text_before_the_first_section_is_ignored() {
    let note = "# Title\nScore: 1\n### \n### B\nPrompt: why?\n";
    let items = parse_review_session(note);
    // the heading with no term is skipped
    assert_eq!(items.len(), 1);
    assert_eq!(items[0].term, "B");
    assert_eq!(items[0].prompt, "why?");
    assert!(parse_graded_items(note).is_empty());
}

#[test]
fn no_sections_no_items() {
    assert!(parse_review_session("just text").is_empty());
    assert!(parse_review_session("").is_empty());
}

#[test]
fn scores_fit_check_finds_oversized_scores() {
    assert!(scores_fit_check("### A\nScore: 4294967295\n"));
    assert!(!scores_fit_check("### A\nScore: 4294967296\n"));
    assert!(scores_fit_check("Score: 99999999999\n### A\nScore:\n"));
    assert!(scores_fit_check("no sections"));
}
