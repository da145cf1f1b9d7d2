//! Colours, which the simulation carries and never reads.
use crate::utils::fixed::Fixed;
use vstd::prelude::*;

verus! {

/// Red, green, blue and opacity, each meant to lie between zero and one.
#[derive(Clone, Copy, Debug, PartialEq, Eq, Structural)]
pub struct Colour {
    pub red: Fixed,
    pub green: Fixed,
    pub blue: Fixed,
    pub alpha: Fixed,
}

impl Colour {
    /// The colour with these channels.
    pub fn new(red: Fixed, green: Fixed, blue: Fixed, alpha: Fixed) -> (r: Colour)
        ensures
            r == (Colour { red, green, blue, alpha }),
    {
        Colour { red, green, blue, alpha }
    }
}

} // verus!
