//! Coordinates in a document and the extent of the visible window.

use vstd::prelude::*;

verus! {

/// A place in a document: `x` counts grapheme clusters from the start of a
/// line, `y` counts lines from the top. Both start at zero. A position is
/// never checked against a document by itself; whoever uses it does that.
#[derive(Clone, Copy, Debug, PartialEq, Eq, Structural)]
pub struct Position {
    pub x: usize,
    pub y: usize,
}

impl Default for Position {
    /// The top left corner.
    fn default() -> (p: Position)
        ensures
            p == (Position { x: 0, y: 0 }),
    {
        Position { x: 0, y: 0 }
    }
}

/// The extent of the visible window, in character cells.
#[derive(Clone, Copy, Debug, PartialEq, Eq, Structural)]
pub struct Size {
    pub w: u16,
    pub h: u16,
}

} // verus!
