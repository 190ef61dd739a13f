use clis::learn::commands::{commands, CONCEPT_REFINE, REVIEW_GENERATE, REVIEW_GRADE};


#[test]
fn all_commands_have_non_empty_content() {
    for cmd in commands() {
        assert!(!cmd.filename.is_empty());
        assert!(!cmd.content.is_empty());
        assert!(cmd.filename.ends_with(".md"));
    }
}

#[test]
fn commands_reference_learn_cli() {
    assert!(REVIEW_GENERATE.contains("learn review generate"));
    assert!(REVIEW_GRADE.contains("learn review grade"));
    assert!(CONCEPT_REFINE.contains("learn concept refine"));
}
