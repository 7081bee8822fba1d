//! Verified core of `rt`, a task runner that turns Ruby task files into a
//! discoverable command line: argument validation, metadata merging, tool
//! catalogs, run results and the text rt prints.
pub mod text;
pub mod json;
pub mod metadata;
pub mod error;
pub mod output;
pub mod args;
pub mod sort;
pub mod runner;
pub mod tool_catalog;
pub mod run_result;
pub mod ruby;
pub mod project;
pub mod cache;
pub mod cli;
