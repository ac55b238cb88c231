//! The screen: its state, what keys and the mouse do to it, and what it shows.
pub mod actions;
pub mod align;
pub mod cache;
pub mod clipboard;
pub mod decide;
pub mod dirs;
pub mod draw;
pub mod files;
pub mod fit;
pub mod flows;
pub mod frame;
pub mod grammar;
pub mod journeys;
pub mod keys;
pub mod laws;
pub mod layout;
pub mod modals;
pub mod mouse;
pub mod pane;
pub mod panels;
pub mod press;
pub mod rebase;
pub mod screen;
pub mod select;
pub mod settle;
pub mod shown;
pub mod start;
pub mod syntax;
pub mod task;
pub mod theme;
pub mod tree;
pub mod types;
pub mod watch;
pub mod width;

pub use grammar::is_valid_syntax_theme;
pub use start::UiDefaults;
pub use types::ViewMode;
