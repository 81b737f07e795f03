//! Symbol lookup for codebases: compiles a search term into a pattern for a
//! line-oriented search tool, turns the tool's output into ranked hits, and
//! synthesizes import statements from matched import lines.

pub mod ag;
pub mod args;
pub mod fmt;
pub mod index;
pub mod number;
pub mod search;
pub mod sort;
pub mod text;
