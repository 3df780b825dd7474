//! The operating system that the program runs on.

use vstd::prelude::*;

verus! {

/// The operating system that the program runs on.
#[derive(Debug, Clone, Copy, PartialEq, Eq, Structural)]
pub enum Platform {
    Linux,
    MacOs,
    Windows,
    Other,
}

impl Platform {
    /// The text between two components of a path.
    pub open spec fn sep(self) -> Seq<char> {
        if self is Windows {
            "\\"@
        } else {
            "/"@
        }
    }

    /// The text between two components of a path.
    pub fn separator(&self) -> (r: &'static str)
        ensures
            r@ == self.sep(),
    {
        match self {
            Platform::Windows => "\\",
            _ => "/",
        }
    }
}

} // verus!
