//! A verified core for a local file-organization tool: scanning filters,
//! extension classification, duplicate and similar-image grouping, move
//! planning with conflict resolution, and a bounded undo history.

pub mod classifier;
pub mod cleaner;
pub mod config;
pub mod content;
pub mod duplicates;
pub mod error;
pub mod filters;
pub mod history;
pub mod metadata;
pub mod organizer;
pub mod scanner;
pub mod stats;
pub mod strutil;
pub mod template;
pub mod timeutil;
pub mod ui;
