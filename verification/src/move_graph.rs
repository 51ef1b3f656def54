use vstd::prelude::*;
use crate::board::matrix2d::Matrix2D;
use crate::board_pos::{BoardPos, spec_is_knight_move, abs_diff};
use crate::board_size::BoardSize;

pub mod node;
pub mod node_ref;
pub mod move_graph_data;
pub mod nodes_iterator;

pub use node::Node;
pub use node_ref::NodeRef;
pub use move_graph_data::MoveGraphData;
pub use nodes_iterator::NodesIterator;
use node::{spec_offset_pos, spec_offset_opt};
use crate::board_pos::{spec_flip_pos, spec_flip_opt};

verus! {

/// The axis along which two tiles sit side by side.
#[derive(Clone, Copy, PartialEq, Eq, Structural, Debug, Hash)]
pub enum Direction {
    Horizontal,
    Vertical,
}

impl Direction {
    pub fn from_bool(is_vertical: bool) -> (r: Direction)
        ensures
            r == if is_vertical {
                Direction::Vertical
            } else {
                Direction::Horizontal
            },
    {
        if is_vertical {
            Direction::Vertical
        } else {
            Direction::Horizontal
        }
    }

    pub open spec fn spec_opposite(self) -> Direction {
        match self {
            Direction::Horizontal => Direction::Vertical,
            Direction::Vertical => Direction::Horizontal,
        }
    }

    pub fn opposite(self) -> (r: Self)
        ensures
            r == self.spec_opposite(),
    {
        match self {
            Direction::Horizontal => Direction::Vertical,
            Direction::Vertical => Direction::Horizontal,
        }
    }

    pub fn is_vertical(self) -> (r: bool)
        ensures
            r == (self == Direction::Vertical),
    {
        matches!(self, Direction::Vertical)
    }

    pub fn is_horizontal(self) -> (r: bool)
        ensures
            r == (self == Direction::Horizontal),
    {
        matches!(self, Direction::Horizontal)
    }
}

/// A grid of knight-move nodes. The `Direct` variant owns its storage and
/// alone may be mutated; the other variants are zero-copy views onto another
/// graph's storage, read through an optional reversal and an optional
/// rectangular clip. Composing views collapses: a view of a view stores the
/// combined transform, never a chain.
pub struct MoveGraph<'a> {
    pub width: u32,
    pub height: u32,
    pub nodes: MoveGraphData<'a>,
}

/// Does `q` lie in the `w` x `h` rectangle anchored at `offset`?
pub open spec fn spec_in_rect(q: BoardPos, offset: BoardPos, w: u32, h: u32) -> bool {
    offset.col <= q.col < offset.col + w && offset.row <= q.row < offset.row + h
}

/// After inserting `g` into `pre` at `offset`, the target square of `p`
/// carries `p`'s links translated by `offset`; its own coordinate and edge
/// list are untouched.
pub open spec fn section_inserted<'a, 'b, 'c>(
    pre: MoveGraph<'a>,
    post: MoveGraph<'b>,
    g: MoveGraph<'c>,
    offset: BoardPos,
    p: BoardPos,
) -> bool {
    let tp = spec_offset_pos(p, offset);
    let dst = post.spec_node(tp);
    let src = g.spec_node(p);
    &&& dst.next == spec_offset_opt(src.next, offset)
    &&& dst.prev == spec_offset_opt(src.prev, offset)
    &&& dst.pos == pre.spec_node(tp).pos
    &&& dst.edges == pre.spec_node(tp).edges
}

/// `ws` records the walk the numbering followed: pairwise-distinct squares
/// chained by `next` in `g`, the square visited `k`th carrying the number
/// `k + 1` on the board, and every square off the walk carrying 0.
pub open spec fn numbering_ok<'a>(g: MoveGraph<'a>, b: crate::board::Board, ws: Seq<BoardPos>) -> bool {
    &&& ws.no_duplicates()
    &&& forall|i: int| 0 <= i < ws.len() ==> g.spec_in_range(#[trigger] ws[i])
    &&& forall|i: int|
        0 <= i < ws.len() - 1 ==> (#[trigger] g.spec_node(ws[i])).next == Some(ws[i + 1])
    &&& forall|i: int| 0 <= i < ws.len() ==> b.spec_at(#[trigger] ws[i]) == i + 1
    &&& forall|p: BoardPos| b.spec_in_range(p) && !ws.contains(p) ==> #[trigger] b.spec_at(p) == 0
}

/// A square the backward walk may stop at: one with no real predecessor
/// (no `prev`, the self-pointing root sentinel, or a `prev` leaving the
/// board), or the origin itself once a cycle has closed.
pub open spec fn chain_head<'a>(g: MoveGraph<'a>, c: BoardPos) -> bool {
    match g.spec_node(c).prev {
        None => true,
        Some(q) => q == c || c == (BoardPos { col: 0, row: 0 }) || !g.spec_in_range(q),
    }
}

/// A backward walk from the origin along `prev`, ending at the numbering's
/// root.
pub open spec fn back_walk_ok<'a>(g: MoveGraph<'a>, back: Seq<BoardPos>, root: BoardPos) -> bool {
    &&& back.len() >= 1
    &&& back[0] == (BoardPos { col: 0, row: 0 })
    &&& back[back.len() - 1] == root
    &&& forall|i: int| 0 <= i < back.len() ==> g.spec_in_range(#[trigger] back[i])
    &&& forall|i: int|
        0 <= i < back.len() - 1 ==> (#[trigger] g.spec_node(back[i])).prev == Some(back[i + 1])
}

/// On a board with at least one square, the numbering walk is pinned: it
/// is nonempty; its root is a chain head that the backward walk reached
/// from the origin along `prev`; and it extends until `next` runs out,
/// leaves the board, revisits a numbered square, or the board is full.
pub open spec fn numbering_complete<'a>(
    g: MoveGraph<'a>,
    b: crate::board::Board,
    ws: Seq<BoardPos>,
) -> bool {
    &&& numbering_ok(g, b, ws)
    &&& ws.len() >= 1
    &&& chain_head(g, ws[0])
    &&& exists|back: Seq<BoardPos>| #[trigger] back_walk_ok(g, back, ws[0])
    &&& match g.spec_node(ws[ws.len() - 1]).next {
        None => true,
        Some(q) => !g.spec_in_range(q) || ws.contains(q) || ws.len() == g.width as int
            * g.height as int,
    }
}

/// The coordinate deltas of a single knight move.
pub open spec fn is_knight_delta(dc: int, dr: int) -> bool {
    (abs_diff(dc, 0) == 1 && abs_diff(dr, 0) == 2) || (abs_diff(dc, 0) == 2 && abs_diff(dr, 0)
        == 1)
}

/// Every listed neighbour is an in-bounds knight move from `p`.
pub open spec fn edges_ok(s: Seq<BoardPos>, p: BoardPos, width: u32, height: u32) -> bool {
    forall|i: int|
        0 <= i < s.len() ==> spec_is_knight_move(p, #[trigger] s[i]) && s[i].col < width
            && s[i].row < height
}

/// The list holds exactly the in-bounds knight moves from `p`, each once.
pub open spec fn edges_exact(s: Seq<BoardPos>, p: BoardPos, width: u32, height: u32) -> bool {
    &&& edges_ok(s, p, width, height)
    &&& s.no_duplicates()
    &&& forall|q: BoardPos|
        spec_is_knight_move(p, q) && q.col < width && q.row < height ==> s.contains(q)
}

/// `dst` is `src` copied with everything positional translated by `offset`:
/// its own coordinate, every listed neighbour, and both tour links.
pub open spec fn node_translated(dst: Node, src: Node, offset: BoardPos) -> bool {
    &&& dst.pos == spec_offset_pos(src.pos, offset)
    &&& dst.next == spec_offset_opt(src.next, offset)
    &&& dst.prev == spec_offset_opt(src.prev, offset)
    &&& dst.edges@ == src.edges@.map_values(|e: BoardPos| spec_offset_pos(e, offset))
}

/// A node holds its own coordinate, empty links, and exactly the in-bounds
/// knight-move neighbours of its square.
pub open spec fn fresh_node_ok(n: Node, p: BoardPos, width: u32, height: u32) -> bool {
    &&& n.pos == p
    &&& n.next is None
    &&& n.prev is None
    &&& edges_exact(n.edges@, p, width, height)
}

/// Append the square a knight move away, when it lies on the board and is
/// not already listed.
fn push_edge(edges: &mut Vec<BoardPos>, pos: BoardPos, dc: i64, dr: i64, size: BoardSize)
    requires
        is_knight_delta(dc as int, dr as int),
        old(edges)@.no_duplicates(),
        edges_ok(old(edges)@, pos, size.width, size.height),
    ensures
        edges_ok(final(edges)@, pos, size.width, size.height),
        final(edges)@.no_duplicates(),
        forall|x: BoardPos| old(edges)@.contains(x) ==> final(edges)@.contains(x),
        ({
            let t = crate::board_pos::spec_translate(
                pos,
                dc as int,
                dr as int,
                size.width as int,
                size.height as int,
            );
            t is Some ==> final(edges)@.contains(t.unwrap())
        }),
{
    let ghost pre = edges@;
    if let Some(p) = pos.try_translate_on_board(dc, dr, size) {
        if !edge_list_contains(edges, p) {
            edges.push(p);
            proof {
                assert(edges@[edges@.len() - 1] == p);
                assert(edges@.contains(p));
                assert forall|i: int, j: int|
                    0 <= i < edges@.len() && 0 <= j < edges@.len() && i != j implies edges@[i]
                    != edges@[j] by {
                    if i < pre.len() && j < pre.len() {
                        assert(pre[i] != pre[j]);
                    } else if j == pre.len() && i < pre.len() {
                        if edges@[i] == p {
                            assert(pre.contains(p)) by {
                                assert(pre[i] == p);
                            }
                        }
                    } else if i == pre.len() && j < pre.len() {
                        if edges@[j] == p {
                            assert(pre.contains(p)) by {
                                assert(pre[j] == p);
                            }
                        }
                    }
                }
                assert forall|x: BoardPos| pre.contains(x) implies edges@.contains(x) by {
                    let k = choose|k: int| 0 <= k < pre.len() && pre[k] == x;
                    assert(edges@[k] == x);
                }
            }
        }
    }
}

/// Is the square already listed as a neighbour?
fn edge_list_contains(v: &Vec<BoardPos>, x: BoardPos) -> (r: bool)
    ensures
        r == v@.contains(x),
{
    let n = v.len();
    let mut i: usize = 0;
    while i < n
        invariant
            i <= n,
            n == v@.len(),
            forall|k: int| 0 <= k < i ==> v@[k] != x,
        decreases n - i,
    {
        if v[i] == x {
            return true;
        }
        i = i + 1;
    }
    proof {
        if v@.contains(x) {
            let k = choose|k: int| 0 <= k < v@.len() && v@[k] == x;
        }
    }
    false
}

/// All in-bounds knight-move neighbours of a square, each exactly once.
#[verifier::rlimit(100)]
fn knight_edges(pos: BoardPos, size: BoardSize) -> (r: Vec<BoardPos>)
    ensures
        edges_exact(r@, pos, size.width, size.height),
{
    let mut edges: Vec<BoardPos> = Vec::new();
    push_edge(&mut edges, pos, 2, 1, size);
    push_edge(&mut edges, pos, 2, -1, size);
    push_edge(&mut edges, pos, -2, 1, size);
    push_edge(&mut edges, pos, -2, -1, size);
    push_edge(&mut edges, pos, 1, 2, size);
    push_edge(&mut edges, pos, 1, -2, size);
    push_edge(&mut edges, pos, -1, 2, size);
    push_edge(&mut edges, pos, -1, -2, size);
    proof {
        assert forall|q: BoardPos|
            spec_is_knight_move(pos, q) && q.col < size.width && q.row < size.height implies
            edges@.contains(q) by {
            let dc = q.col as int - pos.col as int;
            let dr = q.row as int - pos.row as int;
            assert(crate::board_pos::spec_translate(
                pos,
                dc,
                dr,
                size.width as int,
                size.height as int,
            ) == Some(q));
            assert((dc == 2 && dr == 1) || (dc == 2 && dr == -1) || (dc == -2 && dr == 1) || (dc
                == -2 && dr == -1) || (dc == 1 && dr == 2) || (dc == 1 && dr == -2) || (dc == -1
                && dr == 2) || (dc == -1 && dr == -2));
        }
    }
    edges
}

impl<'a> MoveGraph<'a> {
    pub open spec fn is_direct(&self) -> bool {
        self.nodes is Direct
    }

    /// The storage this graph reads, whether owned or borrowed.
    pub open spec fn src(&self) -> Matrix2D<Node> {
        match self.nodes {
            MoveGraphData::Direct(m) => m,
            MoveGraphData::Ref(m) => *m,
            MoveGraphData::ReverseRef(m) => *m,
            MoveGraphData::Section(m, _, _) => *m,
            MoveGraphData::ReverseSection(m, _, _) => *m,
        }
    }

    /// Where this graph's origin sits inside the storage.
    pub open spec fn view_offset(&self) -> BoardPos {
        match self.nodes {
            MoveGraphData::Section(_, start, _) => start,
            MoveGraphData::ReverseSection(_, start, _) => start,
            _ => BoardPos { col: 0, row: 0 },
        }
    }

    /// Does reading through this graph swap `next` and `prev`?
    pub open spec fn view_reversed(&self) -> bool {
        match self.nodes {
            MoveGraphData::ReverseRef(_) => true,
            MoveGraphData::ReverseSection(_, _, _) => true,
            _ => false,
        }
    }

    pub open spec fn wf(&self) -> bool {
        &&& self.src().wf()
        &&& self.view_offset().col + self.width <= self.src().w
        &&& self.view_offset().row + self.height <= self.src().h
        &&& match self.nodes {
            MoveGraphData::Direct(m) => m.w == self.width && m.h == self.height,
            MoveGraphData::Ref(m) => m.w == self.width && m.h == self.height,
            MoveGraphData::ReverseRef(m) => m.w == self.width && m.h == self.height,
            MoveGraphData::Section(_, _, size) => size.width == self.width && size.height
                == self.height,
            MoveGraphData::ReverseSection(_, _, size) => size.width == self.width && size.height
                == self.height,
        }
    }

    pub open spec fn spec_in_range(&self, pos: BoardPos) -> bool {
        pos.col < self.width && pos.row < self.height
    }

    /// The node this graph presents at `pos`, after the view's transform.
    pub open spec fn spec_node(&self, pos: BoardPos) -> Node {
        let stored = self.src().spec_at(spec_offset_pos(pos, self.view_offset()));
        if self.view_reversed() {
            stored.spec_reversed()
        } else {
            stored
        }
    }

    /// Every link points at a square of this graph.
    pub open spec fn opt_in_range(&self, o: Option<BoardPos>) -> bool {
        match o {
            Some(q) => self.spec_in_range(q),
            None => true,
        }
    }

    pub open spec fn links_in_range(&self) -> bool {
        forall|p: BoardPos|
            self.spec_in_range(p) ==> self.opt_in_range(#[trigger] self.spec_node(p).next)
                && self.opt_in_range(self.spec_node(p).prev)
    }

    /// Every node's own coordinate and every listed neighbour lie on this
    /// graph.
    pub open spec fn cells_in_range(&self) -> bool {
        forall|p: BoardPos|
            self.spec_in_range(p) ==> {
                let n = #[trigger] self.spec_node(p);
                &&& n.pos.col < self.width
                &&& n.pos.row < self.height
                &&& forall|i: int|
                    0 <= i < n.edges@.len() ==> (#[trigger] n.edges@[i]).col < self.width
                        && n.edges@[i].row < self.height
            }
    }

    /// An owning graph of `width` x `height` fresh nodes: each knows its own
    /// coordinate and its in-bounds knight-move neighbours; no links are set.
    #[verifier::loop_isolation(false)]
    pub fn new(width: u32, height: u32) -> (r: MoveGraph<'static>)
        requires
            width as int * height as int <= usize::MAX,
        ensures
            r.wf(),
            r.is_direct(),
            r.width == width,
            r.height == height,
            forall|p: BoardPos|
                r.spec_in_range(p) ==> fresh_node_ok(#[trigger] r.spec_node(p), p, width, height),
    {
        let size = BoardSize { width, height };
        let mut m: Matrix2D<Node> = Matrix2D::new(
            width,
            height,
            || Node { pos: BoardPos { col: 0, row: 0 }, edges: Vec::new(), next: None, prev: None },
        );
        let mut col: u32 = 0;
        while col < width
            invariant
                col <= width,
                m.wf(),
                m.w == width,
                m.h == height,
                forall|q: BoardPos|
                    q.col < col && q.row < height ==> fresh_node_ok(
                        #[trigger] m.spec_at(q),
                        q,
                        width,
                        height,
                    ),
            decreases width - col,
        {
            let mut row: u32 = 0;
            while row < height
                invariant
                    col < width,
                    row <= height,
                    m.wf(),
                    m.w == width,
                    m.h == height,
                    forall|q: BoardPos|
                        q.col < col && q.row < height ==> fresh_node_ok(
                            #[trigger] m.spec_at(q),
                            q,
                            width,
                            height,
                        ),
                    forall|q: BoardPos|
                        q.col == col && q.row < row ==> fresh_node_ok(
                            #[trigger] m.spec_at(q),
                            q,
                            width,
                            height,
                        ),
                decreases height - row,
            {
                let pos = BoardPos { col, row };
                let edges = knight_edges(pos, size);
                let node = Node { pos, edges, next: None, prev: None };
                proof {
                    assert(fresh_node_ok(node, pos, width, height));
                }
                let cell = m.at_mut(pos);
                *cell = node;
                proof {
                    assert(m.spec_at(pos) == node);
                }
                row = row + 1;
            }
            col = col + 1;
        }
        MoveGraph { width, height, nodes: MoveGraphData::Direct(m) }
    }

    /// A graph presenting every node with `next` and `prev` exchanged.
    /// On a view this is free; on the owning variant every node is rewritten
    /// so that later reads stay cheap.
    pub fn reverse(self) -> (r: Self)
        requires
            self.wf(),
        ensures
            r.wf(),
            r.width == self.width,
            r.height == self.height,
            r.is_direct() == self.is_direct(),
            forall|p: BoardPos|
                self.spec_in_range(p) ==> {
                    let a = self.spec_node(p);
                    let b = #[trigger] r.spec_node(p);
                    b.pos == a.pos && b.next == a.prev && b.prev == a.next && b.edges@ == a.edges@
                },
    {
        let width = self.width;
        let height = self.height;
        match self.nodes {
            MoveGraphData::Direct(matrix) => {
                let ghost m0 = matrix;
                let reverse_node = |node: &Node| -> (res: Node)
                    ensures
                        res.pos == node.pos,
                        res.next == node.prev,
                        res.prev == node.next,
                        res.edges@ == node.edges@,
                    { node.reverse() };
                let r = MoveGraph {
                    width,
                    height,
                    nodes: MoveGraphData::Direct(matrix.map(reverse_node)),
                };
                proof {
                    assert forall|p: BoardPos| r.spec_in_range(p) implies {
                        let a = (MoveGraph { width, height, nodes: MoveGraphData::Direct(m0) }).spec_node(p);
                        let b = #[trigger] r.spec_node(p);
                        b.pos == a.pos && b.next == a.prev && b.prev == a.next && b.edges@
                            == a.edges@
                    } by {
                        m0.lemma_index_in_bounds(p);
                    }
                }
                r
            },
            MoveGraphData::Ref(data) => MoveGraph {
                width,
                height,
                nodes: MoveGraphData::ReverseRef(data),
            },
            MoveGraphData::ReverseRef(data) => MoveGraph {
                width,
                height,
                nodes: MoveGraphData::Ref(data),
            },
            MoveGraphData::Section(data, start, sz) => MoveGraph {
                width,
                height,
                nodes: MoveGraphData::ReverseSection(data, start, sz),
            },
            MoveGraphData::ReverseSection(data, start, sz) => MoveGraph {
                width,
                height,
                nodes: MoveGraphData::Section(data, start, sz),
            },
        }
    }

    pub fn width(&self) -> (r: u32)
        ensures
            r == self.width,
    {
        self.width
    }

    pub fn height(&self) -> (r: u32)
        ensures
            r == self.height,
    {
        self.height
    }

    /// A zero-copy view of this graph. A view of a view collapses to a view
    /// of the original storage.
    pub fn ref_to(&'a self) -> (r: MoveGraph<'a>)
        requires
            self.wf(),
        ensures
            r.wf(),
            r.width == self.width,
            r.height == self.height,
            !r.is_direct(),
            forall|p: BoardPos| self.spec_in_range(p) ==> r.spec_node(p) == self.spec_node(p),
    {
        let nodes = match &self.nodes {
            MoveGraphData::Direct(m) => MoveGraphData::Ref(m),
            MoveGraphData::Ref(m) => MoveGraphData::Ref(*m),
            MoveGraphData::ReverseRef(m) => MoveGraphData::ReverseRef(*m),
            MoveGraphData::Section(m, start, size) => MoveGraphData::Section(*m, *start, *size),
            MoveGraphData::ReverseSection(m, start, size) => MoveGraphData::ReverseSection(
                *m,
                *start,
                *size,
            ),
        };
        MoveGraph { width: self.width, height: self.height, nodes }
    }

    pub fn node(&self, pos: BoardPos) -> (r: NodeRef<'_>)
        requires
            self.wf(),
            self.spec_in_range(pos),
        ensures
            r.spec_node() == self.spec_node(pos),
    {
        match &self.nodes {
            MoveGraphData::Direct(m) => NodeRef::Direct(m.at(pos)),
            MoveGraphData::Ref(m) => NodeRef::Direct(m.at(pos)),
            MoveGraphData::ReverseRef(m) => NodeRef::Reverse(m.at(pos)),
            MoveGraphData::Section(m, start, _) => NodeRef::Direct(
                m.at(BoardPos { col: pos.col + start.col, row: pos.row + start.row }),
            ),
            MoveGraphData::ReverseSection(m, start, _) => NodeRef::Reverse(
                m.at(BoardPos { col: pos.col + start.col, row: pos.row + start.row }),
            ),
        }
    }

    /// Mutable access to a node. Only the owning variant supports this;
    /// a view cannot be written through.
    pub fn node_mut(&mut self, pos: BoardPos) -> (r: &mut Node)
        requires
            old(self).wf(),
            old(self).is_direct(),
            old(self).spec_in_range(pos),
        ensures
            *r == old(self).spec_node(pos),
            final(self).width == old(self).width,
            final(self).height == old(self).height,
            final(self).is_direct(),
            final(self).wf(),
            final(self).spec_node(pos) == *final(r),
            forall|q: BoardPos|
                old(self).spec_in_range(q) && q != pos ==> final(self).spec_node(q) == old(
                    self,
                ).spec_node(q),
    {
        match &mut self.nodes {
            MoveGraphData::Direct(m) => m.at_mut(pos),
            _ => vstd::pervasive::unreached(),
        }
    }

    /// A cursor over this graph's squares, reversed when the graph reads
    /// reversed.
    pub fn nodes(&'a self) -> (r: NodesIterator<'a>)
        requires
            self.wf(),
        ensures
            r.wf(),
            *r.iter.matrix == self.src(),
            r.iter.start == self.view_offset(),
            r.iter.size == (BoardSize { width: self.width, height: self.height }),
            r.iter.col == self.view_offset().col,
            r.iter.row == self.view_offset().row,
            r.is_reversed == self.view_reversed(),
    {
        match &self.nodes {
            MoveGraphData::Direct(m) => NodesIterator { iter: m.iter(), is_reversed: false },
            MoveGraphData::Ref(m) => NodesIterator { iter: m.iter(), is_reversed: false },
            MoveGraphData::ReverseRef(m) => NodesIterator { iter: m.iter(), is_reversed: true },
            MoveGraphData::Section(m, start, size) => NodesIterator {
                iter: m.iter_section(*start, *size),
                is_reversed: false,
            },
            MoveGraphData::ReverseSection(m, start, size) => NodesIterator {
                iter: m.iter_section(*start, *size),
                is_reversed: true,
            },
        }
    }

    /// Copy the `next`/`prev` links (and only those) of every node of a
    /// solved tile into this graph, translated to sit at `offset`.
    #[verifier::loop_isolation(false)]
    pub fn insert_section(&mut self, graph: &MoveGraph<'_>, offset: BoardPos)
        requires
            old(self).wf(),
            old(self).is_direct(),
            graph.wf(),
            graph.links_in_range(),
            offset.col + graph.width <= old(self).width,
            offset.row + graph.height <= old(self).height,
        ensures
            final(self).wf(),
            final(self).is_direct(),
            final(self).width == old(self).width,
            final(self).height == old(self).height,
            forall|p: BoardPos|
                graph.spec_in_range(p) ==> #[trigger] section_inserted(
                    *old(self),
                    *final(self),
                    *graph,
                    offset,
                    p,
                ),
            forall|q: BoardPos|
                old(self).spec_in_range(q) && !spec_in_rect(q, offset, graph.width, graph.height)
                    ==> final(self).spec_node(q) == old(self).spec_node(q),
    {
        let mut col: u32 = 0;
        while col < graph.width
            invariant
                col <= graph.width,
                self.wf(),
                self.is_direct(),
                self.width == old(self).width,
                self.height == old(self).height,
                forall|p: BoardPos|
                    graph.spec_in_range(p) && p.col < col ==> #[trigger] section_inserted(
                        *old(self),
                        *self,
                        *graph,
                        offset,
                        p,
                    ),
                forall|q: BoardPos|
                    old(self).spec_in_range(q) && !(spec_in_rect(
                        q,
                        offset,
                        graph.width,
                        graph.height,
                    ) && q.col - offset.col < col) ==> self.spec_node(q) == old(self).spec_node(q),
            decreases graph.width - col,
        {
            let mut row: u32 = 0;
            while row < graph.height
                invariant
                    col < graph.width,
                    row <= graph.height,
                    self.wf(),
                    self.is_direct(),
                    self.width == old(self).width,
                    self.height == old(self).height,
                    forall|p: BoardPos|
                        graph.spec_in_range(p) && (p.col < col || (p.col == col && p.row < row))
                            ==> #[trigger] section_inserted(
                            *old(self),
                            *self,
                            *graph,
                            offset,
                            p,
                        ),
                    forall|q: BoardPos|
                        old(self).spec_in_range(q) && !(spec_in_rect(
                            q,
                            offset,
                            graph.width,
                            graph.height,
                        ) && (q.col - offset.col < col || (q.col - offset.col == col && q.row
                            - offset.row < row))) ==> self.spec_node(q) == old(self).spec_node(q),
                decreases graph.height - row,
            {
                let p = BoardPos { col, row };
                let src = graph.node(p);
                let next = match src.next() {
                    Some(q) => Some(BoardPos { col: q.col + offset.col, row: q.row + offset.row }),
                    None => None,
                };
                let prev = match src.prev() {
                    Some(q) => Some(BoardPos { col: q.col + offset.col, row: q.row + offset.row }),
                    None => None,
                };
                let tp = BoardPos { col: col + offset.col, row: row + offset.row };
                let ghost mid = *self;
                let target = self.node_mut(tp);
                *target.next_mut() = next;
                *target.prev_mut() = prev;
                proof {
                    assert(tp == spec_offset_pos(p, offset));
                    assert(section_inserted(*old(self), *self, *graph, offset, p));
                    assert forall|p2: BoardPos|
                        graph.spec_in_range(p2) && (p2.col < col || (p2.col == col && p2.row
                            < row)) implies #[trigger] section_inserted(
                        *old(self),
                        *self,
                        *graph,
                        offset,
                        p2,
                    ) by {
                        assert(section_inserted(*old(self), mid, *graph, offset, p2));
                        assert(spec_offset_pos(p2, offset) != tp);
                        assert(mid.spec_node(spec_offset_pos(p2, offset)) == self.spec_node(
                            spec_offset_pos(p2, offset),
                        ));
                    }
                }
                row = row + 1;
            }
            col = col + 1;
        }
    }

    /// Exchange `next` and `prev` in place for every square of the given
    /// rectangle; everything outside it stays as it was.
    #[verifier::loop_isolation(false)]
    pub fn reverse_section(&mut self, pos: BoardPos, size: BoardSize)
        requires
            old(self).wf(),
            old(self).is_direct(),
            pos.col + size.width <= old(self).width,
            pos.row + size.height <= old(self).height,
        ensures
            final(self).wf(),
            final(self).is_direct(),
            final(self).width == old(self).width,
            final(self).height == old(self).height,
            forall|q: BoardPos|
                old(self).spec_in_range(q) && spec_in_rect(q, pos, size.width, size.height) ==> {
                    let a = old(self).spec_node(q);
                    let b = #[trigger] final(self).spec_node(q);
                    b.pos == a.pos && b.edges == a.edges && b.next == a.prev && b.prev == a.next
                },
            forall|q: BoardPos|
                old(self).spec_in_range(q) && !spec_in_rect(q, pos, size.width, size.height)
                    ==> final(self).spec_node(q) == old(self).spec_node(q),
    {
        let mut col: u32 = pos.col;
        while col < pos.col + size.width
            invariant
                pos.col <= col <= pos.col + size.width,
                self.wf(),
                self.is_direct(),
                self.width == old(self).width,
                self.height == old(self).height,
                forall|q: BoardPos|
                    old(self).spec_in_range(q) && spec_in_rect(q, pos, size.width, size.height)
                        && q.col < col ==> {
                        let a = old(self).spec_node(q);
                        let b = #[trigger] self.spec_node(q);
                        b.pos == a.pos && b.edges == a.edges && b.next == a.prev && b.prev == a.next
                    },
                forall|q: BoardPos|
                    old(self).spec_in_range(q) && !(spec_in_rect(q, pos, size.width, size.height)
                        && q.col < col) ==> self.spec_node(q) == old(self).spec_node(q),
            decreases pos.col + size.width - col,
        {
            let mut row: u32 = pos.row;
            while row < pos.row + size.height
                invariant
                    pos.col <= col < pos.col + size.width,
                    pos.row <= row <= pos.row + size.height,
                    self.wf(),
                    self.is_direct(),
                    self.width == old(self).width,
                    self.height == old(self).height,
                    forall|q: BoardPos|
                        old(self).spec_in_range(q) && spec_in_rect(q, pos, size.width, size.height)
                            && (q.col < col || (q.col == col && q.row < row)) ==> {
                            let a = old(self).spec_node(q);
                            let b = #[trigger] self.spec_node(q);
                            b.pos == a.pos && b.edges == a.edges && b.next == a.prev && b.prev
                                == a.next
                        },
                    forall|q: BoardPos|
                        old(self).spec_in_range(q) && !(spec_in_rect(
                            q,
                            pos,
                            size.width,
                            size.height,
                        ) && (q.col < col || (q.col == col && q.row < row))) ==> self.spec_node(q)
                            == old(self).spec_node(q),
                decreases pos.row + size.height - row,
            {
                let target = self.node_mut(BoardPos { col, row });
                target.reverse_in_place();
                row = row + 1;
            }
            col = col + 1;
        }
    }

    /// A new owning graph holding both tiles side by side: `other` is placed
    /// to the right of (`Horizontal`) or below (`Vertical`) `self`, and every
    /// node is copied with its coordinate, edge list and links translated by
    /// its tile's placement offset. The dimension across the merge axis must
    /// match.
    #[verifier::rlimit(100)]
    #[verifier::loop_isolation(false)]
    pub fn combine(self, other: MoveGraph<'_>, direction: Direction) -> (r: MoveGraph<'static>)
        requires
            self.wf(),
            other.wf(),
            self.links_in_range(),
            other.links_in_range(),
            self.cells_in_range(),
            other.cells_in_range(),
            direction == Direction::Horizontal ==> self.height == other.height && self.width
                + other.width <= u32::MAX,
            direction == Direction::Vertical ==> self.width == other.width && self.height
                + other.height <= u32::MAX,
            (self.width as int + other.width as int) * (self.height as int + other.height as int)
                <= usize::MAX,
        ensures
            r.wf(),
            r.is_direct(),
            direction == Direction::Horizontal ==> r.width == self.width + other.width && r.height
                == self.height,
            direction == Direction::Vertical ==> r.width == self.width && r.height == self.height
                + other.height,
            forall|p: BoardPos|
                self.spec_in_range(p) ==> node_translated(
                    #[trigger] r.spec_node(p),
                    self.spec_node(p),
                    BoardPos { col: 0, row: 0 },
                ),
            forall|p: BoardPos|
                #![trigger other.spec_node(p)]
                other.spec_in_range(p) ==> {
                    let offset = if direction == Direction::Horizontal {
                        BoardPos { col: self.width, row: 0 }
                    } else {
                        BoardPos { col: 0, row: self.height }
                    };
                    node_translated(
                        r.spec_node(spec_offset_pos(p, offset)),
                        other.spec_node(p),
                        offset,
                    )
                },
    {
        let (width, height, offset) = match direction {
            Direction::Horizontal => (
                self.width + other.width,
                self.height,
                BoardPos { col: self.width, row: 0 },
            ),
            Direction::Vertical => (
                self.width,
                self.height + other.height,
                BoardPos { col: 0, row: self.height },
            ),
        };
        assert(width as int * height as int <= usize::MAX) by (nonlinear_arith)
            requires
                width as int <= self.width as int + other.width as int,
                height as int <= self.height as int + other.height as int,
                width >= 0,
                height >= 0,
                (self.width as int + other.width as int) * (self.height as int + other.height
                    as int) <= usize::MAX,
        ;
        let zero = BoardPos { col: 0, row: 0 };
        let mut res = MoveGraph::new(width, height);
        // copy this tile's nodes in place
        let mut col: u32 = 0;
        while col < self.width
            invariant
                col <= self.width,
                res.wf(),
                res.is_direct(),
                res.width == width,
                res.height == height,
                forall|p: BoardPos|
                    self.spec_in_range(p) && p.col < col ==> node_translated(
                        #[trigger] res.spec_node(p),
                        self.spec_node(p),
                        zero,
                    ),
            decreases self.width - col,
        {
            let mut row: u32 = 0;
            while row < self.height
                invariant
                    col < self.width,
                    row <= self.height,
                    res.wf(),
                    res.is_direct(),
                    res.width == width,
                    res.height == height,
                    forall|p: BoardPos|
                        self.spec_in_range(p) && (p.col < col || (p.col == col && p.row < row))
                            ==> node_translated(
                            #[trigger] res.spec_node(p),
                            self.spec_node(p),
                            zero,
                        ),
                decreases self.height - row,
            {
                let p = BoardPos { col, row };
                let node = self.node(p).clone_with_offset(zero);
                proof {
                    assert(node.edges@ =~= self.spec_node(p).edges@.map_values(
                        |e: BoardPos| spec_offset_pos(e, zero),
                    ));
                }
                let ghost mid = res;
                let target = res.node_mut(p);
                *target = node;
                proof {
                    assert(node_translated(res.spec_node(p), self.spec_node(p), zero));
                    assert forall|p2: BoardPos|
                        self.spec_in_range(p2) && (p2.col < col || (p2.col == col && p2.row < row))
                            implies node_translated(
                        #[trigger] res.spec_node(p2),
                        self.spec_node(p2),
                        zero,
                    ) by {
                        assert(p2 != p);
                        assert(res.spec_node(p2) == mid.spec_node(p2));
                    }
                }
                row = row + 1;
            }
            col = col + 1;
        }
        // copy the other tile's nodes, translated to sit beside this one
        let mut col: u32 = 0;
        while col < other.width
            invariant
                col <= other.width,
                res.wf(),
                res.is_direct(),
                res.width == width,
                res.height == height,
                forall|p: BoardPos|
                    self.spec_in_range(p) ==> node_translated(
                        #[trigger] res.spec_node(p),
                        self.spec_node(p),
                        zero,
                    ),
                forall|p: BoardPos|
                    #![trigger other.spec_node(p)]
                    other.spec_in_range(p) && p.col < col ==> node_translated(
                        res.spec_node(spec_offset_pos(p, offset)),
                        other.spec_node(p),
                        offset,
                    ),
            decreases other.width - col,
        {
            let mut row: u32 = 0;
            while row < other.height
                invariant
                    col < other.width,
                    row <= other.height,
                    res.wf(),
                    res.is_direct(),
                    res.width == width,
                    res.height == height,
                    forall|p: BoardPos|
                        self.spec_in_range(p) ==> node_translated(
                            #[trigger] res.spec_node(p),
                            self.spec_node(p),
                            zero,
                        ),
                    forall|p: BoardPos|
                        #![trigger other.spec_node(p)]
                        other.spec_in_range(p) && (p.col < col || (p.col == col && p.row < row))
                            ==> node_translated(
                            res.spec_node(spec_offset_pos(p, offset)),
                            other.spec_node(p),
                            offset,
                        ),
                decreases other.height - row,
            {
                let p = BoardPos { col, row };
                let node = other.node(p).clone_with_offset(offset);
                proof {
                    assert(node.edges@ =~= other.spec_node(p).edges@.map_values(
                        |e: BoardPos| spec_offset_pos(e, offset),
                    ));
                }
                let tp = BoardPos { col: col + offset.col, row: row + offset.row };
                proof {
                    assert(tp == spec_offset_pos(p, offset));
                    assert(res.spec_in_range(tp));
                }
                let ghost mid = res;
                let target = res.node_mut(tp);
                *target = node;
                proof {
                    assert(node_translated(res.spec_node(tp), other.spec_node(p), offset));
                    assert forall|p2: BoardPos| self.spec_in_range(p2) implies node_translated(
                        #[trigger] res.spec_node(p2),
                        self.spec_node(p2),
                        zero,
                    ) by {
                        assert(p2 != tp);
                        assert(res.spec_node(p2) == mid.spec_node(p2));
                    }
                    assert forall|p2: BoardPos|
                        #![trigger other.spec_node(p2)]
                        other.spec_in_range(p2) && (p2.col < col || (p2.col == col && p2.row
                            < row)) implies node_translated(
                        res.spec_node(spec_offset_pos(p2, offset)),
                        other.spec_node(p2),
                        offset,
                    ) by {
                        assert(spec_offset_pos(p2, offset) != tp);
                        assert(res.spec_node(spec_offset_pos(p2, offset)) == mid.spec_node(
                            spec_offset_pos(p2, offset),
                        ));
                    }
                }
                row = row + 1;
            }
            col = col + 1;
        }
        res
    }

    /// Walk the linked tour recorded in this graph and number the squares
    /// it visits, 1 first. The walk backs up from the origin along `prev`
    /// to the tour's root — a square with no real predecessor, or the
    /// origin again once a cycle closes — then follows `next`, numbering
    /// each square until a link runs out or revisits. Squares with neither
    /// link set are recorded as dead.
    #[verifier::rlimit(60)]
    pub fn to_board(self) -> (r: crate::board::Board)
        requires
            self.wf(),
        ensures
            r.wf(),
            r.data.w == self.width,
            r.data.h == self.height,
            forall|p: BoardPos|
                self.spec_in_range(p) ==> #[trigger] r.spec_dead(p) == (self.spec_node(p).next
                    is None && self.spec_node(p).prev is None),
            exists|ws: Seq<BoardPos>| #[trigger] numbering_ok(self, r, ws),
            self.width >= 1 && self.height >= 1 ==> exists|ws: Seq<BoardPos>|
                #[trigger] numbering_complete(self, r, ws),
    {
        proof {
            assert(self.width as int * self.height as int <= usize::MAX) by (nonlinear_arith)
                requires
                    self.src().wf(),
                    self.src().w as int * self.src().h as int <= usize::MAX,
                    self.width <= self.src().w,
                    self.height <= self.src().h,
                    self.width >= 0,
                    self.height >= 0,
            ;
        }
        // collect the excluded squares: those with neither link set
        let mut dead_list: Vec<BoardPos> = Vec::new();
        let mut col: u32 = 0;
        while col < self.width
            invariant
                self.wf(),
                col <= self.width,
                forall|p: BoardPos|
                    self.spec_in_range(p) && p.col < col ==> dead_list@.contains(p) == ((
                    #[trigger] self.spec_node(p)).next is None && self.spec_node(p).prev is None),
                forall|i: int|
                    0 <= i < dead_list@.len() ==> self.spec_in_range(#[trigger] dead_list@[i])
                        && dead_list@[i].col < col,
            decreases self.width - col,
        {
            let mut row: u32 = 0;
            while row < self.height
                invariant
                    self.wf(),
                    col < self.width,
                    row <= self.height,
                    forall|p: BoardPos|
                        self.spec_in_range(p) && (p.col < col || (p.col == col && p.row < row))
                            ==> dead_list@.contains(p) == ((#[trigger] self.spec_node(p)).next
                            is None && self.spec_node(p).prev is None),
                    forall|i: int|
                        0 <= i < dead_list@.len() ==> self.spec_in_range(#[trigger] dead_list@[i])
                            && (dead_list@[i].col < col || (dead_list@[i].col == col
                            && dead_list@[i].row < row)),
                decreases self.height - row,
            {
                let p = BoardPos { col, row };
                let node = self.node(p);
                let ghost pre = dead_list@;
                if node.next().is_none() && node.prev().is_none() {
                    dead_list.push(p);
                }
                proof {
                    assert forall|q: BoardPos|
                        self.spec_in_range(q) && (q.col < col || (q.col == col && q.row < row + 1))
                            implies dead_list@.contains(q) == ((#[trigger] self.spec_node(q)).next
                        is None && self.spec_node(q).prev is None) by {
                        crate::tour::lemma_contains_grow(pre, dead_list@, q, p);
                    }
                }
                row = row + 1;
            }
            col = col + 1;
        }
        let ghost dl = dead_list@;
        let fresh = crate::board::Board::new(self.width, self.height, 0);
        let ghost fresh0 = fresh;
        let mut board = fresh.with_dead_squares(dead_list);
        let ghost b_pre = board;
        let ghost bd = board.dead;
        if self.width == 0 || self.height == 0 {
            proof {
                let ws = Seq::<BoardPos>::empty();
                assert(numbering_ok(self, board, ws));
            }
            return board;
        }
        // back up to the tour's root
        let origin = BoardPos { col: 0, row: 0 };
        let mut cur = origin;
        let ghost mut back = Seq::<BoardPos>::empty().push(origin);
        let mut fuel: usize = (self.width as usize) * (self.height as usize);
        loop
            invariant_except_break
                self.wf(),
                self.spec_in_range(cur),
                self.width >= 1,
                self.height >= 1,
                back_walk_ok(self, back, cur),
            ensures
                self.spec_in_range(cur),
                chain_head(self, cur),
                back_walk_ok(self, back, cur),
            decreases fuel,
        {
            if fuel == 0 {
                cur = BoardPos { col: 0, row: 0 };
                proof {
                    back = Seq::<BoardPos>::empty().push(cur);
                }
                break ;
            }
            fuel = fuel - 1;
            match self.node(cur).prev() {
                None => {
                    break ;
                },
                Some(p) => {
                    if p == cur {
                        break ;
                    }
                    if p.col == 0 && p.row == 0 {
                        cur = BoardPos { col: 0, row: 0 };
                        proof {
                            back = Seq::<BoardPos>::empty().push(cur);
                        }
                        break ;
                    }
                    if !(p.col < self.width && p.row < self.height) {
                        break ;
                    }
                    proof {
                        let pre_back = back;
                        back = back.push(p);
                        assert(back[back.len() - 1] == p);
                        assert forall|i: int|
                            0 <= i < back.len() - 1 implies (#[trigger] self.spec_node(
                            back[i],
                        )).prev == Some(back[i + 1]) by {
                            if i < pre_back.len() - 1 {
                                assert(back[i] == pre_back[i]);
                                assert(back[i + 1] == pre_back[i + 1]);
                            } else {
                                assert(back[i] == cur);
                            }
                        }
                    }
                    cur = p;
                },
            }
        }
        // number the squares along `next`
        let ghost root = cur;
        let ghost mut ws = Seq::<BoardPos>::empty();
        let mut count: usize = 1;
        let area = (self.width as usize) * (self.height as usize);
        proof {
            assert(self.width as int * self.height as int >= 1) by (nonlinear_arith)
                requires
                    self.width >= 1,
                    self.height >= 1,
            ;
        }
        {
            let cell = board.at_mut(cur);
            *cell = 1;
        }
        proof {
            ws = ws.push(cur);
            assert(ws[0] == cur);
            assert forall|p: BoardPos|
                board.spec_in_range(p) && !ws.contains(p) implies #[trigger] board.spec_at(p)
                == 0 by {
                crate::tour::lemma_contains_push(Seq::<BoardPos>::empty(), cur, p);
                assert(!Seq::<BoardPos>::empty().contains(p));
                assert(p != cur);
                assert(board.spec_at(p) == b_pre.spec_at(p));
                assert(b_pre.data == fresh0.data);
                assert(fresh0.spec_at(p) == 0);
            }
        }
        loop
            invariant_except_break
                self.wf(),
                board.wf(),
                board.data.w == self.width,
                board.data.h == self.height,
                board.dead == bd,
                1 <= count <= area,
                ws.len() == count,
                ws[0] == root,
                area == self.width as int * self.height as int,
                self.spec_in_range(cur),
                ws[ws.len() - 1] == cur,
                forall|k: int| 0 <= k < ws.len() ==> self.spec_in_range(#[trigger] ws[k]),
                forall|k: int|
                    0 <= k < ws.len() - 1 ==> (#[trigger] self.spec_node(ws[k])).next == Some(
                        ws[k + 1],
                    ),
                forall|k: int| 0 <= k < ws.len() ==> board.spec_at(#[trigger] ws[k]) == k + 1,
                forall|p: BoardPos|
                    board.spec_in_range(p) && !ws.contains(p) ==> #[trigger] board.spec_at(p) == 0,
            ensures
                board.wf(),
                board.data.w == self.width,
                board.data.h == self.height,
                board.dead == bd,
                ws.len() >= 1,
                ws[0] == root,
                ws[ws.len() - 1] == cur,
                (match self.spec_node(cur).next {
                    None => true,
                    Some(q) => !self.spec_in_range(q) || ws.contains(q) || ws.len()
                        == self.width as int * self.height as int,
                }),
                forall|k: int| 0 <= k < ws.len() ==> self.spec_in_range(#[trigger] ws[k]),
                forall|k: int|
                    0 <= k < ws.len() - 1 ==> (#[trigger] self.spec_node(ws[k])).next == Some(
                        ws[k + 1],
                    ),
                forall|k: int| 0 <= k < ws.len() ==> board.spec_at(#[trigger] ws[k]) == k + 1,
                forall|p: BoardPos|
                    board.spec_in_range(p) && !ws.contains(p) ==> #[trigger] board.spec_at(p) == 0,
            decreases area - count,
        {
            let next = match self.node(cur).next() {
                Some(q) => q,
                None => {
                    break ;
                },
            };
            if !(next.col < self.width && next.row < self.height) {
                break ;
            }
            if *board.at(next) != 0 {
                break ;
            }
            if count == area {
                break ;
            }
            {
                let cell = board.at_mut(next);
                *cell = count + 1;
            }
            proof {
                let pre = ws;
                ws = ws.push(next);
                assert(ws[ws.len() - 1] == next);
                assert forall|p: BoardPos|
                    board.spec_in_range(p) && !ws.contains(p) implies #[trigger] board.spec_at(p)
                    == 0 by {
                    crate::tour::lemma_contains_push(pre, next, p);
                }
                assert forall|k: int| 0 <= k < ws.len() implies board.spec_at(#[trigger] ws[k]) == k
                    + 1 by {
                    if k < pre.len() {
                        assert(ws[k] == pre[k]);
                        assert(pre[k] != next) by {
                            if pre[k] == next {
                                assert(board.spec_at(pre[k]) == k + 1);
                            }
                        }
                    }
                }
            }
            count = count + 1;
            cur = next;
        }
        proof {
            assert forall|i: int, j: int|
                0 <= i < ws.len() && 0 <= j < ws.len() && i != j implies ws[i] != ws[j] by {
                assert(board.spec_at(ws[i]) == i + 1);
                assert(board.spec_at(ws[j]) == j + 1);
            }
            assert(numbering_ok(self, board, ws));
            assert(back_walk_ok(self, back, root));
            assert(numbering_complete(self, board, ws));
            assert forall|p: BoardPos| self.spec_in_range(p) implies #[trigger] board.spec_dead(p)
                == (self.spec_node(p).next is None && self.spec_node(p).prev is None) by {
                assert(b_pre.spec_dead(p) == (fresh0.spec_dead(p) || dl.contains(p)));
                assert(!fresh0.spec_dead(p));
                assert(dl.contains(p) == (self.spec_node(p).next is None && self.spec_node(p).prev
                    is None));
                assert(board.dead == b_pre.dead);
            }
        }
        board
    }

    /// An owning copy of this graph: fresh storage carrying the same links
    /// square for square.
    pub fn to_owned(&self) -> (r: MoveGraph<'static>)
        requires
            self.wf(),
            self.links_in_range(),
        ensures
            r.wf(),
            r.is_direct(),
            r.width == self.width,
            r.height == self.height,
            forall|p: BoardPos|
                self.spec_in_range(p) ==> (#[trigger] r.spec_node(p)).next == self.spec_node(
                    p,
                ).next && r.spec_node(p).prev == self.spec_node(p).prev && r.spec_node(p).pos == p,
    {
        proof {
            assert(self.width as int * self.height as int <= usize::MAX) by (nonlinear_arith)
                requires
                    self.src().wf(),
                    self.src().w as int * self.src().h as int <= usize::MAX,
                    self.width <= self.src().w,
                    self.height <= self.src().h,
                    self.width >= 0,
                    self.height >= 0,
            ;
        }
        let mut res = MoveGraph::new(self.width, self.height);
        let ghost res0 = res;
        res.insert_section(self, BoardPos { col: 0, row: 0 });
        proof {
            let zero = BoardPos { col: 0, row: 0 };
            assert forall|p: BoardPos| self.spec_in_range(p) implies (
            #[trigger] res.spec_node(p)).next == self.spec_node(p).next && res.spec_node(p).prev
                == self.spec_node(p).prev && res.spec_node(p).pos == p by {
                assert(section_inserted(res0, res, *self, zero, p));
                assert(spec_offset_pos(p, zero) == p);
                assert(spec_offset_opt(self.spec_node(p).next, zero) == self.spec_node(p).next);
                assert(spec_offset_opt(self.spec_node(p).prev, zero) == self.spec_node(p).prev);
                assert(fresh_node_ok(res0.spec_node(p), p, self.width, self.height));
            }
        }
        res
    }

    /// A new owning graph mirrored across the main diagonal: the node at
    /// `p` moves to `p.flip()` and its links are flipped with it.
    #[verifier::loop_isolation(false)]
    pub fn flip(&self) -> (r: MoveGraph<'static>)
        requires
            self.wf(),
        ensures
            r.wf(),
            r.is_direct(),
            r.width == self.height,
            r.height == self.width,
            forall|p: BoardPos|
                self.spec_in_range(p) ==> {
                    let dst = #[trigger] r.spec_node(spec_flip_pos(p));
                    dst.pos == spec_flip_pos(p) && dst.next == spec_flip_opt(
                        self.spec_node(p).next,
                    ) && dst.prev == spec_flip_opt(self.spec_node(p).prev) && edges_ok(
                        dst.edges@,
                        spec_flip_pos(p),
                        r.width,
                        r.height,
                    )
                },
    {
        proof {
            assert(self.height as int * self.width as int <= usize::MAX) by (nonlinear_arith)
                requires
                    self.src().wf(),
                    self.src().w as int * self.src().h as int <= usize::MAX,
                    self.width <= self.src().w,
                    self.height <= self.src().h,
                    self.width >= 0,
                    self.height >= 0,
            ;
        }
        let mut res = MoveGraph::new(self.height, self.width);
        let mut col: u32 = 0;
        while col < self.width
            invariant
                col <= self.width,
                res.wf(),
                res.is_direct(),
                res.width == self.height,
                res.height == self.width,
                forall|q: BoardPos|
                    res.spec_in_range(q) ==> {
                        let p = spec_flip_pos(q);
                        let dst = #[trigger] res.spec_node(q);
                        dst.pos == q && edges_ok(dst.edges@, q, res.width, res.height) && if p.col
                            < col {
                            dst.next == spec_flip_opt(self.spec_node(p).next) && dst.prev
                                == spec_flip_opt(self.spec_node(p).prev)
                        } else {
                            dst.next is None && dst.prev is None
                        }
                    },
            decreases self.width - col,
        {
            let mut row: u32 = 0;
            while row < self.height
                invariant
                    col < self.width,
                    row <= self.height,
                    res.wf(),
                    res.is_direct(),
                    res.width == self.height,
                    res.height == self.width,
                    forall|q: BoardPos|
                        res.spec_in_range(q) ==> {
                            let p = spec_flip_pos(q);
                            let dst = #[trigger] res.spec_node(q);
                            dst.pos == q && edges_ok(dst.edges@, q, res.width, res.height) && if (
                            p.col < col || (p.col == col && p.row < row)) {
                                dst.next == spec_flip_opt(self.spec_node(p).next) && dst.prev
                                    == spec_flip_opt(self.spec_node(p).prev)
                            } else {
                                dst.next is None && dst.prev is None
                            }
                        },
                decreases self.height - row,
            {
                let p = BoardPos { col, row };
                let node = self.node(p);
                let next = match node.next() {
                    Some(q) => Some(BoardPos { col: q.row, row: q.col }),
                    None => None,
                };
                let prev = match node.prev() {
                    Some(q) => Some(BoardPos { col: q.row, row: q.col }),
                    None => None,
                };
                let target = res.node_mut(BoardPos { col: row, row: col });
                *target.next_mut() = next;
                *target.prev_mut() = prev;
                row = row + 1;
            }
            col = col + 1;
        }
        res
    }
}

} // verus!
