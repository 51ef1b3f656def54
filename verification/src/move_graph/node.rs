use vstd::prelude::*;
use crate::board_pos::BoardPos;

verus! {

/// One square's cell in a move graph: its own coordinate, the precomputed
/// in-bounds knight-move neighbours, and the two optional tour links.
pub struct Node {
    pub pos: BoardPos,
    pub edges: Vec<BoardPos>,
    pub next: Option<BoardPos>,
    pub prev: Option<BoardPos>,
}

/// `p` translated by `o`, with the coordinates added componentwise.
pub open spec fn spec_offset_pos(p: BoardPos, o: BoardPos) -> BoardPos {
    BoardPos { col: (p.col + o.col) as u32, row: (p.row + o.row) as u32 }
}

/// An optional position translated by `o`.
pub open spec fn spec_offset_opt(p: Option<BoardPos>, o: BoardPos) -> Option<BoardPos> {
    match p {
        Some(q) => Some(spec_offset_pos(q, o)),
        None => None,
    }
}

/// The translation stays within the coordinate type.
pub open spec fn offset_fits(p: BoardPos, o: BoardPos) -> bool {
    p.col + o.col <= u32::MAX && p.row + o.row <= u32::MAX
}

pub open spec fn offset_opt_fits(p: Option<BoardPos>, o: BoardPos) -> bool {
    match p {
        Some(q) => offset_fits(q, o),
        None => true,
    }
}

fn offset_pos(p: BoardPos, o: BoardPos) -> (r: BoardPos)
    requires
        offset_fits(p, o),
    ensures
        r == spec_offset_pos(p, o),
{
    BoardPos { col: p.col + o.col, row: p.row + o.row }
}

impl Node {
    /// The same node with the two tour links exchanged.
    pub open spec fn spec_reversed(&self) -> Node {
        Node { pos: self.pos, edges: self.edges, next: self.prev, prev: self.next }
    }

    pub fn next(&self) -> (r: Option<BoardPos>)
        ensures
            r == self.next,
    {
        self.next
    }

    pub fn prev(&self) -> (r: Option<BoardPos>)
        ensures
            r == self.prev,
    {
        self.prev
    }

    pub fn pos(&self) -> (r: BoardPos)
        ensures
            r == self.pos,
    {
        self.pos
    }

    pub fn next_mut(&mut self) -> (r: &mut Option<BoardPos>)
        ensures
            *r == old(self).next,
            final(self).pos == old(self).pos,
            final(self).edges == old(self).edges,
            final(self).prev == old(self).prev,
            final(self).next == *final(r),
    {
        &mut self.next
    }

    pub fn prev_mut(&mut self) -> (r: &mut Option<BoardPos>)
        ensures
            *r == old(self).prev,
            final(self).pos == old(self).pos,
            final(self).edges == old(self).edges,
            final(self).next == old(self).next,
            final(self).prev == *final(r),
    {
        &mut self.prev
    }

    pub fn edges(&self) -> (r: &Vec<BoardPos>)
        ensures
            r@ == self.edges@,
    {
        &self.edges
    }

    /// A copy of the node with `next` and `prev` exchanged.
    pub fn reverse(&self) -> (r: Node)
        ensures
            r.pos == self.pos,
            r.edges@ == self.edges@,
            r.next == self.prev,
            r.prev == self.next,
    {
        Node { pos: self.pos, edges: copy_positions(&self.edges), next: self.prev, prev: self.next }
    }

    /// Exchange `next` and `prev` in place.
    pub fn reverse_in_place(&mut self)
        ensures
            final(self).pos == old(self).pos,
            final(self).edges == old(self).edges,
            final(self).next == old(self).prev,
            final(self).prev == old(self).next,
    {
        let next = self.next;
        self.next = self.prev;
        self.prev = next;
    }

    pub fn new(pos: BoardPos, edges: Vec<BoardPos>) -> (r: Node)
        ensures
            r.pos == pos,
            r.edges == edges,
            r.next is None,
            r.prev is None,
    {
        Node { pos, edges, next: None, prev: None }
    }

    /// A copy of the node translated by `offset`.
    pub fn clone_with_offset(&self, offset: BoardPos) -> (r: Node)
        requires
            offset_fits(self.pos, offset),
            offset_opt_fits(self.next, offset),
            offset_opt_fits(self.prev, offset),
            forall|i: int| 0 <= i < self.edges@.len() ==> offset_fits(#[trigger] self.edges@[i], offset),
        ensures
            r.pos == spec_offset_pos(self.pos, offset),
            r.next == spec_offset_opt(self.next, offset),
            r.prev == spec_offset_opt(self.prev, offset),
            r.edges@.len() == self.edges@.len(),
            forall|i: int|
                0 <= i < self.edges@.len() ==> r.edges@[i] == spec_offset_pos(
                    #[trigger] self.edges@[i],
                    offset,
                ),
    {
        let mut edges: Vec<BoardPos> = Vec::new();
        let n = self.edges.len();
        let mut i: usize = 0;
        while i < n
            invariant
                i <= n,
                n == self.edges@.len(),
                edges@.len() == i,
                forall|k: int| 0 <= k < n ==> offset_fits(#[trigger] self.edges@[k], offset),
                forall|k: int|
                    0 <= k < i ==> edges@[k] == spec_offset_pos(#[trigger] self.edges@[k], offset),
            decreases n - i,
        {
            edges.push(offset_pos(self.edges[i], offset));
            i = i + 1;
        }
        let next = match self.next {
            Some(p) => Some(offset_pos(p, offset)),
            None => None,
        };
        let prev = match self.prev {
            Some(p) => Some(offset_pos(p, offset)),
            None => None,
        };
        Node { pos: offset_pos(self.pos, offset), edges, next, prev }
    }
}

/// An elementwise copy of a list of positions.
fn copy_positions(v: &Vec<BoardPos>) -> (r: Vec<BoardPos>)
    ensures
        r@ == v@,
{
    let mut r: Vec<BoardPos> = Vec::new();
    let n = v.len();
    let mut i: usize = 0;
    while i < n
        invariant
            i <= n,
            n == v@.len(),
            r@ =~= v@.subrange(0, i as int),
        decreases n - i,
    {
        r.push(v[i]);
        i = i + 1;
    }
    proof {
        assert(r@ =~= v@);
    }
    r
}

} // verus!
