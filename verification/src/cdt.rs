//! The workspace navigator: scanning results, cleaning, conflicts across
//! worktrees, the activity timeline and the interactive picker's state.

pub mod scanner;
pub mod clean;
pub mod conflicts;
pub mod timeline;
pub mod tui;
pub mod setup;
pub mod cache;
