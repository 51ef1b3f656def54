use vstd::prelude::*;
use crate::board::matrix2d::Matrix2D;
use crate::board_pos::BoardPos;
use crate::board_size::BoardSize;
use crate::move_graph::node::Node;

verus! {

/// Storage of a move graph: owned, or borrowed through a transform.
/// The borrowed variants record the source storage together with the view's
/// reversal and, for sections, the clip rectangle.
pub enum MoveGraphData<'a> {
    Direct(Matrix2D<Node>),
    Ref(&'a Matrix2D<Node>),
    ReverseRef(&'a Matrix2D<Node>),
    Section(&'a Matrix2D<Node>, BoardPos, BoardSize),
    ReverseSection(&'a Matrix2D<Node>, BoardPos, BoardSize),
}

} // verus!
