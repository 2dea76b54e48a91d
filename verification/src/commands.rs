//! The free text that follows a command.

use vstd::prelude::*;

verus! {

/// The argument text of a command, as the user typed it.
#[derive(Clone, Debug)]
pub struct Args(pub String);

impl Args {
    /// The arguments of a command from the text behind its name.
    pub fn from_str(s: &str) -> (r: Args)
        ensures
            r.0@ == s@,
    {
        Args(s.to_owned())
    }

    /// The text as the user typed it.
    pub fn text(&self) -> (r: String)
        ensures
            r@ == self.0@,
    {
        self.0.clone()
    }
}

} // verus!
