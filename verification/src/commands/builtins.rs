//! The commands that the dispatcher answers itself.

use crate::text::view_all;
use vstd::prelude::*;

verus! {

/// A command that the dispatcher answers itself, not through a script.
#[derive(Debug)]
pub struct Builtin {
    pub name: String,
    /// What the help says of it.
    pub help_text: String,
}

/// A builtin as a value.
pub struct BuiltinView {
    pub name: Seq<char>,
    pub help_text: Seq<char>,
}

impl View for Builtin {
    type V = BuiltinView;

    open spec fn view(&self) -> BuiltinView {
        BuiltinView { name: self.name@, help_text: self.help_text@ }
    }
}

/// The names of the given builtins.
pub open spec fn builtin_names(builtins: Seq<BuiltinView>) -> Seq<Seq<char>> {
    Seq::new(builtins.len(), |i: int| builtins[i].name)
}

/// Whether `name` is the name of one of `builtins`.
pub fn is_builtin(builtins: &Vec<Builtin>, name: &String) -> (found: bool)
    ensures
        found == builtin_names(view_all(builtins@)).contains(name@),
{
    let mut i: usize = 0;
    while i < builtins.len()
        invariant
            i <= builtins.len(),
            forall|k: int| 0 <= k < i ==> builtin_names(view_all(builtins@))[k] != name@,
        decreases builtins.len() - i,
    {
        if builtins[i].name == *name {
            assert(builtin_names(view_all(builtins@))[i as int] == name@);
            return true;
        }
        i += 1;
    }
    false
}

} // verus!
