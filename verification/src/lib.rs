//! Whitespace normalisation for file trees: rule resolution from cascading
//! per-directory configuration, glob-based exclusion, and the text transform
//! itself, each with a machine-checked contract.

pub mod config;
pub mod ec;
pub mod editorconfig;
pub mod find;
pub mod format;
pub mod globs;
pub mod paths;
pub mod runner;
pub mod text;
