//! Verified core of a small family of terminal tools: a workspace navigator,
//! a clipboard history manager, and a spaced-repetition learning CLI.

pub mod text;
pub mod ranking;
pub mod rippy;
pub mod tui_core;
pub mod cdt;
pub mod learn;
pub mod cli_core;
