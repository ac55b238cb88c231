//! A terminal view of git diffs.
pub mod commit;
pub mod config;
pub mod diff;
pub mod names;
pub mod text;
pub mod ui;
