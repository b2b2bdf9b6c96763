//! A small recursive-search core: literal and regex pattern matching over
//! lines of text, directory-entry filtering, traversal over a tree model,
//! and result formatting with semantic output roles.

pub mod bytes;
pub mod cli;
pub mod config;
pub mod datetime;
pub mod filter;
pub mod format;
pub mod lines;
pub mod matcher;
pub mod rx;
pub mod search;
pub mod walk;
