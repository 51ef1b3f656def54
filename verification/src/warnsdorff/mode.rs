use vstd::prelude::*;
use crate::board_pos::BoardPos;
use crate::move_graph::Direction;

verus! {

/// The structural constraint a tile is solved under.
#[derive(Clone, Copy, PartialEq, Eq, Structural, Debug)]
pub enum StructureMode {
    /// A closed cycle; the flag excludes the origin corner from the tile.
    Closed(bool),
    /// An open tour between the two fixed boundary squares chosen by the
    /// merge direction.
    Stretched(Direction),
}

/// What a free search is given: the excluded squares and where to begin.
pub struct BasicInput {
    pub dead_squares: Vec<BoardPos>,
    pub start: BoardPos,
}

/// How a board or tile is to be solved.
pub enum Mode {
    /// Arbitrary shape, free search.
    Basic(BasicInput),
    /// A tile solved under a structural constraint so it can be spliced.
    Structured(StructureMode),
    /// A tiny tile with no structural constraint.
    Freeform,
}

} // verus!
