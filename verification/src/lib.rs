//! The tab model and state file of a small browser shell.
pub mod text;
pub mod escape;
pub mod url;
pub mod browser;
pub mod state_file;
pub mod shell;
pub mod platform;
