//! The commands of the dispatcher.

pub mod builtins;
pub mod complete;
pub mod help;
