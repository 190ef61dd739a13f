//! The spaced-repetition learning tool: review scheduling, the templates it
//! scaffolds, and the reading and filling of review session notes.

pub mod schedule;
pub mod types;
pub mod commands;
pub mod review;
pub mod concept;
pub mod session;
pub mod select;
pub mod frontmatter;
pub mod readback;
pub mod fields;
