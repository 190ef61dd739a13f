//! The clipboard history manager: configuration, content tags, terminal
//! launching, the watcher's decisions and listing of entries.

pub mod config;
pub mod tag;
pub mod terminal;
pub mod watcher;
pub mod entries;
pub mod tui;
pub mod hotkey;
pub mod service;
