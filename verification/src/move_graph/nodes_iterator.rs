use vstd::prelude::*;
use crate::board::matrix2d::Matrix2DIterator;
use crate::board_pos::BoardPos;
use crate::move_graph::node::Node;
use crate::move_graph::node_ref::NodeRef;

verus! {

/// A cursor over a window of a graph's storage that hands out node handles,
/// reversed when the graph it came from reads reversed.
pub struct NodesIterator<'a> {
    pub iter: Matrix2DIterator<'a, Node>,
    pub is_reversed: bool,
}

impl<'a> NodesIterator<'a> {
    pub open spec fn wf(&self) -> bool {
        self.iter.wf()
    }

    /// The same cursor with the reversal toggled.
    pub fn reverse(self) -> (r: Self)
        ensures
            r.iter == self.iter,
            r.is_reversed == !self.is_reversed,
    {
        NodesIterator { iter: self.iter, is_reversed: !self.is_reversed }
    }

    /// Yield a handle on the cell under the cursor and advance, or report
    /// the window exhausted.
    pub fn next(&mut self) -> (r: Option<NodeRef<'a>>)
        requires
            old(self).wf(),
        ensures
            final(self).is_reversed == old(self).is_reversed,
            final(self).wf(),
            final(self).iter.matrix == old(self).iter.matrix,
            final(self).iter.start == old(self).iter.start,
            final(self).iter.size == old(self).iter.size,
            old(self).iter.row == old(self).iter.start.row + old(self).iter.size.height || old(
                self,
            ).iter.size.width == 0 ==> r is None && final(self).iter == old(self).iter,
            old(self).iter.row < old(self).iter.start.row + old(self).iter.size.height && old(
                self,
            ).iter.size.width > 0 ==> r is Some && r.unwrap().spec_node() == ({
                let stored = old(self).iter.matrix.spec_at(
                    BoardPos { col: old(self).iter.col, row: old(self).iter.row },
                );
                if old(self).is_reversed {
                    stored.spec_reversed()
                } else {
                    stored
                }
            }) && (if old(self).iter.col + 1 == old(self).iter.start.col + old(
                self,
            ).iter.size.width {
                final(self).iter.col == old(self).iter.start.col && final(self).iter.row == old(
                    self,
                ).iter.row + 1
            } else {
                final(self).iter.col == old(self).iter.col + 1 && final(self).iter.row == old(
                    self,
                ).iter.row
            }),
    {
        let result = self.iter.next();
        match result {
            None => None,
            Some(node) => if self.is_reversed {
                Some(NodeRef::Reverse(node))
            } else {
                Some(NodeRef::Direct(node))
            },
        }
    }
}

} // verus!
