use vstd::prelude::*;

verus! {

/// The seven colors a board cell can be filled with; each piece kind paints
/// its cells in one fixed color.
#[derive(Clone, Copy, Debug, PartialEq, Eq, Structural)]
pub enum TileColor {
    Red,
    Orange,
    Yellow,
    Green,
    Cyan,
    Blue,
    Purple,
}

} // verus!
