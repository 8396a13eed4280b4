//! The languages the trainer ships resources for.

use vstd::prelude::*;

verus! {

/// A selectable language; each one names its per-language resources.
#[derive(Clone, Copy, PartialEq, Eq, Structural, Debug)]
pub enum Languages {
    Georgian,
    Russian,
}

impl Languages {
    /// The resource code of the language, used to look up its corpus and
    /// alphabet.
    pub fn code(self) -> (r: &'static str)
        ensures
            self is Georgian ==> r@ == "georgian"@,
            self is Russian ==> r@ == "russian"@,
    {
        match self {
            Languages::Georgian => "georgian",
            Languages::Russian => "russian",
        }
    }

    /// The flag shown beside the language in the selector.
    pub fn emoji(self) -> (r: &'static str)
        ensures
            self is Georgian ==> r@ == "\u{1F1EC}\u{1F1EA}"@,
            self is Russian ==> r@ == "\u{1F1F7}\u{1F1FA}"@,
    {
        match self {
            Languages::Georgian => "\u{1F1EC}\u{1F1EA}",
            Languages::Russian => "\u{1F1F7}\u{1F1FA}",
        }
    }
}

} // verus!
