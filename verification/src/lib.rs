//! The verified logic of fig-lite's inline shell completion and of the
//! desktop app's handling of shell hooks.
pub mod completion;
pub mod inline;
pub mod pattern;
pub mod prompt;
pub mod remote_hook;
pub mod settings;
pub mod text;
