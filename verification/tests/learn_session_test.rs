use clis::learn::review::{parse_answered_reviews, parse_graded_items, parse_review_session};
use clis::learn::schedule::next_interval_days;
use clis::learn::session::{fill_grades_text, render_review_session, render_review_session_at};
use clis::learn::types::{Grade, ReviewItem, VaultConfig};

fn item() -> ReviewItem {
    ReviewItem {
        concept_path: "Concepts/Test.md".into(),
        concept_term: "Test".into(),
        prompt_type: "definition".into(),
        prompt: "Explain Test.".into(),
    }
}

#[test]
fn render_review_session_has_structure() {
    let items = vec![item()];
    let output = render_review_session(&items, "2025-01-15");
    assert!(output.contains("# Daily Recall — 2025-01-15"));
    assert!(output.contains("### Test"));
    assert!(output.contains("Prompt Type: definition"));
    assert!(output.contains("Score:"));
    assert!(output.contains("My answer:"));
}

#[test]
fn render_review_session_exact_text() {
    let output = render_review_session_at(&[item()], "2025-01-15", "NOW");
    assert_eq!(
        output,
        "---\ntype: review-session\ndate: 2025-01-15\ngenerated_at: NOW\n---\n\n# Daily Recall — 2025-01-15\n\n### Test\nPrompt Type: definition\nPrompt: Explain Test.\n\nMy answer:\n\n\nScore:\nFeedback:\nHint:\nNext review:\n"
    );
}

fn grade(path: &str, feedback: &str) -> Grade {
    Grade {
        concept_path: path.into(),
        score: 4,
        feedback: feedback.into(),
        hint: "Consider queue depth.".into(),
        next_review_days: 6,
    }
}

#[test]
fn fill_grades_replaces_placeholders() {
    let content = "---\ntype: review-session\n---\n\n### Token Bucket\nPrompt Type: contrast\nPrompt: How does it differ?\n\nMy answer:\nBurst vs smooth.\n\nScore:\nFeedback:\nHint:\nNext review:\n";
    let grades = vec![grade("Concepts/Token Bucket.md", "Good answer.")];
    let out = fill_grades_text(content, &grades);
    assert!(out.contains("Score: 4"));
    assert!(out.contains("Feedback: Good answer."));
    assert!(out.contains("Hint: Consider queue depth."));
    assert!(out.contains("Next review: 6 day(s)"));
}

#[test]
fn fill_grades_keeps_ungraded_sections_and_prefix() {
    let content = "head\n### A\nScore:\n### B\nScore:\n";
    let out = fill_grades_text(content, &[grade("x/B.md", "ok")]);
    // the blank field takes its line end with it
    assert_eq!(out, "head\n### A\nScore:\n### B\nScore: 4");
}

#[test]
fn fill_grades_without_sections_is_unchanged() {
    let content = "no sections here\nScore:\n";
    assert_eq!(fill_grades_text(content, &[grade("a.md", "x")]), content);
}

#[test]
fn fill_grades_expands_dollar_references() {
    let content = "### A\nFeedback:\n";
    // `$$` is a dollar; `$0` is the blank field that was matched; other
    // references are empty.
    let out = fill_grades_text(content, &[grade("A.md", "costs $$5, was [$0], $x, ${1}!")]);
    assert_eq!(out, "### A\nFeedback: costs $5, was [Feedback:\n], , !");
}

#[test]
fn vault_config_defaults() {
    let c = VaultConfig::default();
    assert_eq!(c.default_review_count, 5);
    assert!(c.default_domain.is_none());
}

#[test]
fn grade_flow_on_session_text() {
    let items = vec![ReviewItem {
        concept_path: "/vault/Concepts/Token Bucket.md".into(),
        concept_term: "Token Bucket".into(),
        prompt_type: "contrast".into(),
        prompt: "How does Token Bucket differ from Leaky Bucket?".into(),
    }];
    let content = render_review_session_at(&items, "2025-01-15", "2025-01-15T08:00:00+00:00");
    assert!(parse_graded_items(&content).is_empty());
    assert!(parse_answered_reviews(&content).is_empty());

    let with_answer = content.replace(
        "My answer:\n\n\nScore:",
        "My answer:\nToken bucket allows bursts, leaky bucket smooths.\n\nScore:",
    );
    assert_eq!(parse_answered_reviews(&with_answer).len(), 1);

    let interval = next_interval_days(4, 2);
    assert_eq!(interval, 3);
    let grades = vec![Grade {
        concept_path: "/vault/Concepts/Token Bucket.md".into(),
        score: 4,
        feedback: "Good comparison.".into(),
        hint: "Consider queue depth.".into(),
        next_review_days: interval,
    }];
    let filled = fill_grades_text(&with_answer, &grades);
    let graded = parse_graded_items(&filled);
    assert_eq!(graded.len(), 1);
    assert_eq!(graded[0].term, "Token Bucket");
    assert_eq!(graded[0].score, 4);
    assert_eq!(graded[0].feedback, "Good comparison.");
    assert_eq!(graded[0].hint, "Consider queue depth.");
    assert!(filled.contains("Next review: 3 day(s)"));
}

#[test]
fn rendered_session_reads_back() {
    let items = vec![
        ReviewItem {
            concept_path: "/v/Concepts/A.md".into(),
            concept_term: " Token Bucket ".into(),
            prompt_type: "contrast".into(),
            prompt: "How does it differ?".into(),
        },
        ReviewItem {
            concept_path: "/v/Concepts/B.md".into(),
            concept_term: "Leaky Bucket".into(),
            prompt_type: " definition".into(),
            prompt: "Explain your understanding of Leaky Bucket.".into(),
        },
    ];
    let text = render_review_session_at(&items, "2025-01-15", "2025-01-15T08:00:00+00:00");
    let read = parse_review_session(&text);
    assert_eq!(read.len(), 2);
    assert_eq!(read[0].term, "Token Bucket");
    assert_eq!(read[0].prompt_type, "contrast");
    assert_eq!(read[0].prompt, "How does it differ?");
    assert_eq!(read[0].answer, "");
    assert_eq!(read[1].term, "Leaky Bucket");
    assert_eq!(read[1].prompt_type, "definition");
    assert_eq!(read[1].prompt, "Explain your understanding of Leaky Bucket.");
    assert!(parse_graded_items(&text).is_empty());
}

#[test]
fn filling_a_section_followed_by_another_joins_them() {
    let items = vec![
        ReviewItem {
            concept_path: "/v/Concepts/A.md".into(),
            concept_term: "A".into(),
            prompt_type: "contrast".into(),
            prompt: "Q1".into(),
        },
        ReviewItem {
            concept_path: "/v/Concepts/B.md".into(),
            concept_term: "B".into(),
            prompt_type: "definition".into(),
            prompt: "Q2".into(),
        },
    ];
    let text = render_review_session_at(&items, "2025-01-15", "now");
    let grades = vec![Grade {
        concept_path: "/v/Concepts/A.md".into(),
        score: 4,
        feedback: "ok".into(),
        hint: "h".into(),
        next_review_days: 3,
    }];
    let filled = fill_grades_text(&text, &grades);
    // The blank `Next review:` field takes the empty line after it, so the
    // next heading follows on the same line.
    assert!(filled.contains("Next review: 3 day(s)### B\n"));
    let graded = parse_graded_items(&filled);
    assert_eq!(graded.len(), 1);
    assert_eq!(graded[0].term, "A");
    assert_eq!(graded[0].score, 4);
}

#[test]
fn grades_read_back_after_a_multi_line_answer() {
    let items = vec![ReviewItem {
        concept_path: "/vault/Concepts/Token Bucket.md".into(),
        concept_term: "Token Bucket".into(),
        prompt_type: "contrast".into(),
        prompt: "How does it differ?".into(),
    }];
    let content = render_review_session_at(&items, "2025-01-15", "now");
    let answered = content.replace(
        "My answer:\n\n\nScore:",
        "My answer:\nSure, it allows bursts.\nHence the name.\n\nScore:",
    );
    let grades = vec![Grade {
        concept_path: "/vault/Concepts/Token Bucket.md".into(),
        score: 5,
        feedback: "Spot on.".into(),
        hint: "None needed.".into(),
        next_review_days: 4,
    }];
    let graded = parse_graded_items(&fill_grades_text(&answered, &grades));
    assert_eq!(graded.len(), 1);
    assert_eq!(graded[0].term, "Token Bucket");
    assert_eq!(graded[0].score, 5);
    assert_eq!(graded[0].feedback, "Spot on.");
    assert_eq!(graded[0].hint, "None needed.");
}
