//! Unified-diff parsing, per-file review state and cursor navigation for an
//! interactive terminal changeset browser.

pub mod align;
pub mod app;
pub mod display;
pub mod model;
pub mod navigation;
pub mod parser;
pub mod review;
pub mod rows;
pub mod text;
pub mod vcs;
