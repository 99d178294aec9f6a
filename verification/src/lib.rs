//! Library core of a component installer: a registry repository holds a
//! manifest of installable items; installing an item resolves its internal
//! dependency closure, asks the project's package manager for its external
//! dependencies, and copies its files to alias-resolved target paths.

pub mod cli;
pub mod commands;
pub mod dependencies;
pub mod errors;
pub mod git;
pub mod manifest;
