//! Determines which third-party packages a tree of Python source files
//! depends on: scans import statements, separates local and standard-library
//! modules from external ones, applies explicit install hints and a
//! user-supplied name mapping, and produces a deterministic, sorted,
//! duplicate-free package list.

pub mod bytes;
pub mod fstree;
pub mod laws;
pub mod manifest;
pub mod mapping;
pub mod resolve;
pub mod scanner;
pub mod stdlib;
