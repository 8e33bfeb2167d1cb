//! A directory-driven command dispatcher: a tree of scripts on disk is offered
//! as a tree of namespaced commands.
//!
//! This crate holds the rules of the dispatcher: how arguments are matched
//! against the script tree, how the header of a script is read, and how the
//! command line for a script is written. It touches no file and starts no
//! process: where a file, a directory or a process is needed, it says so in
//! a request and continues from the answer.

pub mod commands;
pub mod directory;
pub mod script;
pub mod text;
pub mod types;
