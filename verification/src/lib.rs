//! Decides how a stack of local commits is submitted as GitHub pull requests: which commits are
//! out of date, which branches and pull requests have to be made, and what every pull request
//! says about the stacks it is part of.
//!
//! The library makes the decisions and states them in contracts. Talking to `gh`, to git and to
//! the user is left to the program around it.

pub mod action_laws;
pub mod body_laws;
pub mod client;
pub mod client_laws;
pub mod commits;
pub mod create;
pub mod create_laws;
pub mod creation_laws;
pub mod creation_run;
pub mod decode;
pub mod forge;
pub mod formatter;
pub mod head_laws;
pub mod lookup_laws;
pub mod mark_laws;
pub mod oid;
pub mod query_laws;
pub mod render_laws;
pub mod run_laws;
pub mod status;
pub mod status_laws;
pub mod table_laws;
pub mod text;
pub mod text_laws;
pub mod types;
pub mod update;
pub mod view_laws;
pub mod visit_laws;

pub use commits::StackCommits;
