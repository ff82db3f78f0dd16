//! Look of the user interface.
use vstd::prelude::*;

verus! {

/// Colour theme of the user interface.
#[derive(Clone, Copy, Debug, PartialEq, Eq, Structural)]
pub enum Theme {
    Light,
    Dark,
}

impl Theme {
    /// Every theme, in the order offered.
    pub fn all() -> (r: [Theme; 2])
        ensures
            r@ == seq![Theme::Light, Theme::Dark],
    {
        let r = [Theme::Light, Theme::Dark];
        assert(r@ =~= seq![Theme::Light, Theme::Dark]);
        r
    }
}

impl Default for Theme {
    fn default() -> (r: Theme)
        ensures
            r == Theme::Dark,
    {
        Theme::Dark
    }
}

} // verus!
