//! `fi`: the logic of a developer workflow tool that ties an issue tracker to
//! a git workflow: branch-name templates and their parsing, hook selection,
//! output parsing of git and gh, and the decisions of the PR flow.
use vstd::prelude::*;

pub mod text;
pub mod template;
pub mod config;
pub mod commands;
pub mod git;
pub mod order;
pub mod completions;
pub mod jira;

verus! {

} // verus!
