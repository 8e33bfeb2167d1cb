//! What is shared by the commands.

use vstd::prelude::*;

verus! {

/// What a command line is wanted for.
#[derive(Clone, Copy, Debug, PartialEq, Eq, Structural)]
pub enum CommandType {
    /// The script is to be run.
    Execute,
    /// The script is to be asked for completion candidates.
    Completion,
}

} // verus!
