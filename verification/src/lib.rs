//! Finding ELF binaries in a directory tree.
//!
//! The crate classifies files by their leading bytes, walks a directory tree
//! one observation at a time, and decides what a command-line front end
//! prints, runs and reports. It performs no input or output itself: callers
//! hand in what they read and carry out what is asked of them.

pub mod dispatch;
pub mod magic;
pub mod replay;
pub mod scan;
pub mod tree;
pub mod words;
