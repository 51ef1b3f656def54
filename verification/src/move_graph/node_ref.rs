use vstd::prelude::*;
use crate::board_pos::BoardPos;
use crate::move_graph::node::Node;
use crate::move_graph::node::{spec_offset_pos, spec_offset_opt, offset_fits, offset_opt_fits};

verus! {

/// A read-only handle on a node that applies the enclosing view's reversal
/// transparently: through `Reverse`, the roles of `next` and `prev` swap.
pub enum NodeRef<'a> {
    Direct(&'a Node),
    Reverse(&'a Node),
}

impl<'a> NodeRef<'a> {
    /// The node as this handle presents it.
    pub open spec fn spec_node(&self) -> Node {
        match self {
            NodeRef::Direct(node) => **node,
            NodeRef::Reverse(node) => node.spec_reversed(),
        }
    }

    pub fn pos(&self) -> (r: BoardPos)
        ensures
            r == self.spec_node().pos,
    {
        match self {
            NodeRef::Direct(node) => node.pos(),
            NodeRef::Reverse(node) => node.pos(),
        }
    }

    pub fn next(&self) -> (r: Option<BoardPos>)
        ensures
            r == self.spec_node().next,
    {
        match self {
            NodeRef::Direct(node) => node.next(),
            NodeRef::Reverse(node) => node.prev(),
        }
    }

    pub fn prev(&self) -> (r: Option<BoardPos>)
        ensures
            r == self.spec_node().prev,
    {
        match self {
            NodeRef::Direct(node) => node.prev(),
            NodeRef::Reverse(node) => node.next(),
        }
    }

    /// The same handle with the reversal toggled.
    pub fn reverse(self) -> (r: Self)
        ensures
            r.spec_node() == self.spec_node().spec_reversed(),
    {
        match self {
            NodeRef::Direct(node) => NodeRef::Reverse(node),
            NodeRef::Reverse(node) => NodeRef::Direct(node),
        }
    }

    /// A translated owned copy of the node as presented.
    pub fn clone_with_offset(&self, offset: BoardPos) -> (r: Node)
        requires
            offset_fits(self.spec_node().pos, offset),
            offset_opt_fits(self.spec_node().next, offset),
            offset_opt_fits(self.spec_node().prev, offset),
            forall|i: int|
                0 <= i < self.spec_node().edges@.len() ==> offset_fits(
                    #[trigger] self.spec_node().edges@[i],
                    offset,
                ),
        ensures
            r.pos == spec_offset_pos(self.spec_node().pos, offset),
            r.next == spec_offset_opt(self.spec_node().next, offset),
            r.prev == spec_offset_opt(self.spec_node().prev, offset),
            r.edges@.len() == self.spec_node().edges@.len(),
            forall|i: int|
                0 <= i < self.spec_node().edges@.len() ==> r.edges@[i] == spec_offset_pos(
                    #[trigger] self.spec_node().edges@[i],
                    offset,
                ),
    {
        match self {
            NodeRef::Direct(node) => node.clone_with_offset(offset),
            NodeRef::Reverse(node) => {
                proof {
                    assert(node.edges == self.spec_node().edges);
                }
                node.clone_with_offset(offset).reverse()
            },
        }
    }
}

} // verus!
