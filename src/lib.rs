//! Generates a project's ignore file: detects the technologies a directory tree
//! uses, composes their templates into one deduplicated, sectioned block, and
//! merges that block into an existing file without touching the rest of it.

pub mod compose;
pub mod config;
pub mod detect;
pub mod managed;
pub mod sync;
pub mod tagset;
pub mod templates;
pub mod text;
