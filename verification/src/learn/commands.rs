//! The slash-command templates that `learn init` writes into a vault, to be
//! run as `/project:review-generate` and the like.

use vstd::prelude::*;

verus! {

/// Generates today's review session and helps answer it.
pub const REVIEW_GENERATE: &'static str = r#"Generate today's review session and help me answer.

Steps:
1. Run `learn review generate --vault $ARGUMENTS` (use current directory if no argument given)
2. Read the generated review file (Reviews/YYYY-MM-DD.md)
3. For each concept in the session:
   - Read the concept note from Concepts/
   - Write a thoughtful answer in the "My answer:" section based on the concept's content
   - The answer should demonstrate understanding, not just repeat the note verbatim
4. Print a summary of how many concepts were reviewed and which prompt types were used
"#;

/// Grades today's review session answers.
pub const REVIEW_GRADE: &'static str = r#"Grade today's review session answers.

Steps:
1. Run `learn review grade --vault $ARGUMENTS` to check for answered items (use current directory if no argument given)
2. If there are answered items awaiting grades, read the review file (Reviews/YYYY-MM-DD.md)
3. For each answered item:
   - Read the corresponding concept note from Concepts/
   - Compare the answer against the concept content
   - Assign a score (0-5):
     - 5: Perfect recall, demonstrates deep understanding
     - 4: Good recall with minor gaps
     - 3: Partial recall, key ideas present but incomplete
     - 2: Weak recall, significant gaps
     - 1: Barely relevant response
     - 0: No meaningful answer or completely wrong
   - Write concise feedback explaining the score
   - Write a hint for next time if score < 5
   - Fill in Score, Feedback, and Hint fields in the review file
4. Run `learn review grade --vault $ARGUMENTS` again to update concept frontmatter with new mastery scores
5. Print a summary of scores and any concepts that need extra attention (score < 3)
"#;

/// Refines unclassified concept notes.
pub const CONCEPT_REFINE: &'static str = r#"Refine unclassified concept notes with term, domain, and tags.

Steps:
1. Run `learn concept refine --vault $ARGUMENTS` to list notes that need refinement (use current directory if no argument given)
2. For each unclassified note:
   - Read the note content
   - Propose appropriate YAML frontmatter fields:
     - `term`: A clear, canonical name for the concept
     - `domain`: The subject area (e.g., "Systems", "Databases", "Networking")
     - `tags`: 2-4 topic tags as a YAML list
   - Identify any [[wikilinks]] to other concepts that should be added to the note body
3. Show the proposed changes and ask for confirmation before writing
4. For confirmed changes, add the frontmatter fields to each note
   - Only add user-owned fields (term, domain, tags) — never modify _system fields
   - Preserve existing note body content exactly as-is
5. Print a summary of how many notes were refined
"#;

/// A command file: its name and content.
pub struct CommandTemplate {
    pub filename: &'static str,
    pub content: &'static str,
}

/// The command files, in the order they are written.
pub fn commands() -> (r: Vec<CommandTemplate>)
    ensures
        r@.len() == 3,
        r@[0].filename@ == "review-generate.md"@ && r@[0].content@ == REVIEW_GENERATE@,
        r@[1].filename@ == "review-grade.md"@ && r@[1].content@ == REVIEW_GRADE@,
        r@[2].filename@ == "concept-refine.md"@ && r@[2].content@ == CONCEPT_REFINE@,
{
    let mut v: Vec<CommandTemplate> = Vec::new();
    v.push(CommandTemplate { filename: "review-generate.md", content: REVIEW_GENERATE });
    v.push(CommandTemplate { filename: "review-grade.md", content: REVIEW_GRADE });
    v.push(CommandTemplate { filename: "concept-refine.md", content: CONCEPT_REFINE });
    v
}

} // verus!
