use vstd::prelude::*;
use crate::board::matrix2d::Matrix2D;
use crate::board_pos::{BoardPos, spec_is_knight_move, spec_flip_pos, spec_flip_opt};
use crate::move_graph::MoveGraph;

verus! {

/// A square of the graph that is not excluded.
pub open spec fn spec_alive(g: MoveGraph, dead: Matrix2D<bool>, p: BoardPos) -> bool {
    g.spec_in_range(p) && !dead.spec_at(p)
}

/// Excluded squares carry no links at all.
pub open spec fn dead_squares_bare(g: MoveGraph, dead: Matrix2D<bool>) -> bool {
    forall|p: BoardPos|
        g.spec_in_range(p) && dead.spec_at(p) ==> (#[trigger] g.spec_node(p)).next is None
            && g.spec_node(p).prev is None
}

/// `order` visits every live square exactly once, each step is a knight
/// move, and the doubly-linked `next`/`prev` fields trace it out.
pub open spec fn tour_core(
    g: MoveGraph,
    dead: Matrix2D<bool>,
    order: Seq<BoardPos>,
    start: BoardPos,
) -> bool {
    &&& order.len() >= 1
    &&& order[0] == start
    &&& order.no_duplicates()
    &&& forall|i: int| 0 <= i < order.len() ==> spec_alive(g, dead, #[trigger] order[i])
    &&& forall|i: int|
        0 <= i < order.len() - 1 ==> (#[trigger] g.spec_node(order[i])).next == Some(order[i + 1])
    &&& forall|i: int|
        0 <= i < order.len() - 1 ==> (#[trigger] g.spec_node(order[i + 1])).prev == Some(order[i])
    &&& forall|i: int|
        0 <= i < order.len() - 1 ==> spec_is_knight_move(#[trigger] order[i], order[i + 1])
    &&& forall|p: BoardPos| spec_alive(g, dead, p) ==> order.contains(p)
    &&& dead_squares_bare(g, dead)
}

/// A closed tour: the chain returns from its last square to the root with
/// one more knight move.
pub open spec fn is_closed_tour(
    g: MoveGraph,
    dead: Matrix2D<bool>,
    order: Seq<BoardPos>,
    start: BoardPos,
) -> bool {
    &&& tour_core(g, dead, order, start)
    &&& g.spec_node(order[order.len() - 1]).next == Some(start)
    &&& g.spec_node(start).prev == Some(order[order.len() - 1])
    &&& spec_is_knight_move(order[order.len() - 1], start)
}

/// An open tour: the root keeps its self-pointing `prev` sentinel and the
/// last square has no `next`.
pub open spec fn is_path_tour(
    g: MoveGraph,
    dead: Matrix2D<bool>,
    order: Seq<BoardPos>,
    start: BoardPos,
) -> bool {
    &&& tour_core(g, dead, order, start)
    &&& g.spec_node(order[order.len() - 1]).next is None
    &&& g.spec_node(start).prev == Some(start)
}

/// An open tour between two designated endpoints.
pub open spec fn is_open_tour(
    g: MoveGraph,
    dead: Matrix2D<bool>,
    order: Seq<BoardPos>,
    start: BoardPos,
    end: BoardPos,
) -> bool {
    &&& is_path_tour(g, dead, order, start)
    &&& order[order.len() - 1] == end
}

/// The square reached from `p` after `k` steps along `next`, when every
/// link on the way is set.
pub open spec fn walk_next(g: MoveGraph, p: BoardPos, k: nat) -> Option<BoardPos>
    decreases k,
{
    if k == 0 {
        Some(p)
    } else {
        match g.spec_node(p).next {
            Some(q) => walk_next(g, q, (k - 1) as nat),
            None => None,
        }
    }
}

#[verifier::rlimit(50)]
proof fn lemma_walk_segment(
    g: MoveGraph,
    dead: Matrix2D<bool>,
    order: Seq<BoardPos>,
    start: BoardPos,
    j: int,
    k: int,
)
    requires
        is_closed_tour(g, dead, order, start),
        0 <= j < order.len(),
        0 <= k,
        j + k <= order.len(),
    ensures
        walk_next(g, order[j], k as nat) == if j + k < order.len() {
            Some(order[j + k])
        } else {
            Some(order[0])
        },
    decreases k,
{
    if k > 0 {
        if j < order.len() - 1 {
            assert(g.spec_node(order[j]).next == Some(order[j + 1]));
            lemma_walk_segment(g, dead, order, start, j + 1, k - 1);
        } else {
            assert(g.spec_node(order[j]).next == Some(order[0]));
            assert(k == 1);
            lemma_walk_segment(g, dead, order, start, 0, 0);
        }
    }
}

/// Walking `next` from the root of a solved closed tour visits its
/// pairwise-distinct squares (exactly the live squares) one by one, and the
/// step after the last returns to the root.
pub proof fn lemma_closed_tour_walk(
    g: MoveGraph,
    dead: Matrix2D<bool>,
    order: Seq<BoardPos>,
    start: BoardPos,
)
    requires
        is_closed_tour(g, dead, order, start),
    ensures
        forall|k: int| 0 <= k < order.len() ==> walk_next(g, start, k as nat) == Some(order[k]),
        walk_next(g, start, order.len() as nat) == Some(start),
        order.no_duplicates(),
        forall|p: BoardPos| spec_alive(g, dead, p) <==> order.contains(p),
{
    assert forall|k: int| 0 <= k < order.len() implies walk_next(g, start, k as nat) == Some(
        order[k],
    ) by {
        lemma_walk_segment(g, dead, order, start, 0, k);
    }
    lemma_walk_segment(g, dead, order, start, 0, order.len() as int);
    assert forall|p: BoardPos| order.contains(p) implies spec_alive(g, dead, p) by {
        let k = choose|k: int| 0 <= k < order.len() && order[k] == p;
        assert(spec_alive(g, dead, order[k]));
    }
}

/// In a solved open tour, the two designated endpoints are exactly the two
/// squares with a missing link: the end alone lacks `next`, the root alone
/// carries the self-pointing `prev` sentinel, and every other live square
/// has both links set.
pub proof fn lemma_open_tour_endpoints(
    g: MoveGraph,
    dead: Matrix2D<bool>,
    order: Seq<BoardPos>,
    start: BoardPos,
    end: BoardPos,
)
    requires
        is_open_tour(g, dead, order, start, end),
    ensures
        forall|p: BoardPos|
            spec_alive(g, dead, p) ==> ((#[trigger] g.spec_node(p)).next is None <==> p == end),
        forall|p: BoardPos|
            spec_alive(g, dead, p) ==> ((#[trigger] g.spec_node(p)).prev == Some(p) <==> p
                == start),
{
    let n = order.len() as int;
    assert forall|p: BoardPos| spec_alive(g, dead, p) implies ((#[trigger] g.spec_node(p)).next
        is None <==> p == end) && (g.spec_node(p).prev == Some(p) <==> p == start) by {
        assert(order.contains(p));
        let k = choose|k: int| 0 <= k < n && order[k] == p;
        if k < n - 1 {
            assert(g.spec_node(p).next == Some(order[k + 1]));
            assert(p != end) by {
                if p == order[n - 1] {
                    assert(order[k] == order[n - 1]);
                }
            }
        }
        if k > 0 {
            assert(g.spec_node(p).prev == Some(order[k - 1]));
            assert(order[k - 1] != order[k]);
            assert(p != start) by {
                if p == order[0] {
                    assert(order[k] == order[0]);
                }
            }
        }
    }
}

/// Every step of any produced tour, open or closed, is a legal knight move.
pub proof fn lemma_tour_steps_are_knight_moves(
    g: MoveGraph,
    dead: Matrix2D<bool>,
    order: Seq<BoardPos>,
    start: BoardPos,
)
    requires
        tour_core(g, dead, order, start),
    ensures
        forall|i: int|
            0 <= i < order.len() - 1 ==> spec_is_knight_move(#[trigger] order[i], order[i + 1]),
{
}

/// A graph holding a tour only links squares of the board: live squares
/// link along the tour and excluded squares carry no links.
pub proof fn lemma_tour_links_in_range(
    g: MoveGraph,
    dead: Matrix2D<bool>,
    order: Seq<BoardPos>,
    start: BoardPos,
)
    requires
        tour_core(g, dead, order, start),
        g.spec_node(order[order.len() - 1]).next == Some(start) || g.spec_node(
            order[order.len() - 1],
        ).next is None,
        g.spec_node(start).prev == Some(start) || g.spec_node(start).prev == Some(
            order[order.len() - 1],
        ),
        dead.w == g.width,
        dead.h == g.height,
    ensures
        g.links_in_range(),
{
    let n = order.len() as int;
    assert forall|p: BoardPos| g.spec_in_range(p) implies g.opt_in_range(
        (#[trigger] g.spec_node(p)).next,
    ) && g.opt_in_range(g.spec_node(p).prev) by {
        if !dead.spec_at(p) {
            assert(spec_alive(g, dead, p));
            assert(order.contains(p));
            let k = choose|k: int| 0 <= k < n && order[k] == p;
            if k < n - 1 {
                assert(g.spec_node(p).next == Some(order[k + 1]));
                assert(spec_alive(g, dead, order[k + 1]));
            }
            if k > 0 {
                assert(g.spec_node(p).prev == Some(order[k - 1]));
                assert(spec_alive(g, dead, order[k - 1]));
            }
            if k == n - 1 {
                assert(g.spec_node(p).next == Some(start) || g.spec_node(p).next is None);
            }
            if k == 0 {
                assert(g.spec_node(start).prev == Some(start) || g.spec_node(start).prev == Some(
                    order[n - 1],
                ));
                assert(spec_alive(g, dead, order[n - 1]));
            }
        }
    }
}

pub(crate) proof fn lemma_contains_push(s: Seq<BoardPos>, x: BoardPos, y: BoardPos)
    ensures
        s.push(x).contains(y) == (s.contains(y) || y == x),
{
    if s.contains(y) {
        let k = choose|k: int| 0 <= k < s.len() && s[k] == y;
        assert(s.push(x)[k] == y);
        assert(s.push(x).contains(y));
    }
    if y == x {
        assert(s.push(x)[s.len() as int] == y);
        assert(s.push(x).contains(y));
    }
    if s.push(x).contains(y) && y != x {
        let k = choose|k: int| 0 <= k < s.push(x).len() && s.push(x)[k] == y;
        assert(k < s.len());
        assert(s[k] == y);
        assert(s.contains(y));
    }
}

/// A mask of the right shape that excludes nothing.
pub open spec fn no_dead(mask: Matrix2D<bool>, w: u32, h: u32) -> bool {
    &&& mask.wf()
    &&& mask.w == w
    &&& mask.h == h
    &&& forall|p: BoardPos| mask.spec_in_range(p) ==> !#[trigger] mask.spec_at(p)
}

/// `g2` carries the same links as `g1` square for square.
pub open spec fn links_equal<'a, 'b>(g1: MoveGraph<'a>, g2: MoveGraph<'b>) -> bool {
    &&& g2.width == g1.width
    &&& g2.height == g1.height
    &&& forall|p: BoardPos|
        g1.spec_in_range(p) ==> (#[trigger] g2.spec_node(p)).next == g1.spec_node(p).next
            && g2.spec_node(p).prev == g1.spec_node(p).prev
}

/// A square-for-square copy of the links carries any tour with it.
pub proof fn lemma_tour_transfer<'a, 'b>(
    g1: MoveGraph<'a>,
    g2: MoveGraph<'b>,
    dead: Matrix2D<bool>,
    order: Seq<BoardPos>,
    start: BoardPos,
)
    requires
        tour_core(g1, dead, order, start),
        links_equal(g1, g2),
    ensures
        tour_core(g2, dead, order, start),
        g2.spec_node(order[order.len() - 1]).next == g1.spec_node(order[order.len() - 1]).next,
        g2.spec_node(start).prev == g1.spec_node(start).prev,
{
    assert forall|i: int| 0 <= i < order.len() implies spec_alive(
        g2,
        dead,
        #[trigger] order[i],
    ) by {
        assert(spec_alive(g1, dead, order[i]));
    }
    assert forall|i: int| 0 <= i < order.len() - 1 implies (#[trigger] g2.spec_node(
        order[i],
    )).next == Some(order[i + 1]) by {
        assert(spec_alive(g1, dead, order[i]));
    }
    assert forall|i: int| 0 <= i < order.len() - 1 implies (#[trigger] g2.spec_node(
        order[i + 1],
    )).prev == Some(order[i]) by {
        assert(spec_alive(g1, dead, order[i + 1]));
    }
    assert forall|p: BoardPos| spec_alive(g2, dead, p) implies order.contains(p) by {
        assert(spec_alive(g1, dead, p));
    }
    assert forall|p: BoardPos|
        g2.spec_in_range(p) && dead.spec_at(p) implies (#[trigger] g2.spec_node(p)).next is None
        && g2.spec_node(p).prev is None by {
        assert(g1.spec_node(p).next is None && g1.spec_node(p).prev is None);
    }
    assert(spec_alive(g1, dead, order[order.len() - 1]));
    assert(spec_alive(g1, dead, start));
}

/// Flipping a graph across the main diagonal carries an open tour with it:
/// the same visiting order, square by square under the axis swap.
pub proof fn lemma_flip_tour<'a, 'b>(
    h: MoveGraph<'a>,
    g: MoveGraph<'b>,
    mask_h: Matrix2D<bool>,
    mask_g: Matrix2D<bool>,
    order: Seq<BoardPos>,
    start: BoardPos,
    end: BoardPos,
)
    requires
        is_open_tour(h, mask_h, order, start, end),
        no_dead(mask_h, h.width, h.height),
        no_dead(mask_g, g.width, g.height),
        g.width == h.height,
        g.height == h.width,
        forall|p: BoardPos|
            h.spec_in_range(p) ==> (#[trigger] g.spec_node(spec_flip_pos(p))).next
                == spec_flip_opt(h.spec_node(p).next) && g.spec_node(spec_flip_pos(p)).prev
                == spec_flip_opt(h.spec_node(p).prev),
    ensures
        is_open_tour(
            g,
            mask_g,
            order.map_values(|q: BoardPos| spec_flip_pos(q)),
            spec_flip_pos(start),
            spec_flip_pos(end),
        ),
{
    let f = |q: BoardPos| spec_flip_pos(q);
    let order2 = order.map_values(f);
    let n = order.len() as int;
    assert(order2.len() == n);
    assert(order2[0] == spec_flip_pos(start));
    assert forall|i: int, j: int|
        0 <= i < n && 0 <= j < n && i != j implies order2[i] != order2[j] by {
        assert(order[i] != order[j]);
        assert(order2[i] == spec_flip_pos(order[i]));
        assert(order2[j] == spec_flip_pos(order[j]));
    }
    assert(order2.no_duplicates());
    assert forall|i: int| 0 <= i < n implies spec_alive(g, mask_g, #[trigger] order2[i]) by {
        assert(spec_alive(h, mask_h, order[i]));
        assert(order2[i] == spec_flip_pos(order[i]));
    }
    assert forall|i: int| 0 <= i < n - 1 implies (#[trigger] g.spec_node(order2[i])).next == Some(
        order2[i + 1],
    ) by {
        assert(order2[i] == spec_flip_pos(order[i]));
        assert(order2[i + 1] == spec_flip_pos(order[i + 1]));
        assert(spec_alive(h, mask_h, order[i]));
        assert(h.spec_node(order[i]).next == Some(order[i + 1]));
    }
    assert forall|i: int| 0 <= i < n - 1 implies (#[trigger] g.spec_node(order2[i + 1])).prev
        == Some(order2[i]) by {
        assert(order2[i] == spec_flip_pos(order[i]));
        assert(order2[i + 1] == spec_flip_pos(order[i + 1]));
        assert(spec_alive(h, mask_h, order[i + 1]));
        assert(h.spec_node(order[i + 1]).prev == Some(order[i]));
    }
    assert forall|i: int| 0 <= i < n - 1 implies spec_is_knight_move(
        #[trigger] order2[i],
        order2[i + 1],
    ) by {
        assert(spec_is_knight_move(order[i], order[i + 1]));
        assert(order2[i] == spec_flip_pos(order[i]));
        assert(order2[i + 1] == spec_flip_pos(order[i + 1]));
    }
    assert forall|p: BoardPos| spec_alive(g, mask_g, p) implies order2.contains(p) by {
        let q = spec_flip_pos(p);
        assert(spec_alive(h, mask_h, q));
        assert(order.contains(q));
        let k = choose|k: int| 0 <= k < n && order[k] == q;
        assert(order2[k] == spec_flip_pos(order[k]));
        assert(order2[k] == p);
        assert(order2.contains(p));
    }
    assert(order2[n - 1] == spec_flip_pos(order[n - 1]));
    assert(spec_alive(h, mask_h, order[n - 1]));
    assert(spec_alive(h, mask_h, start));
    assert(g.spec_node(order2[n - 1]).next == spec_flip_opt(h.spec_node(order[n - 1]).next));
    assert(g.spec_node(spec_flip_pos(start)).prev == spec_flip_opt(h.spec_node(start).prev));
    assert(tour_core(g, mask_g, order2, spec_flip_pos(start)));
}

pub(crate) fn opt_pos_eq(a: Option<BoardPos>, b: Option<BoardPos>) -> (r: bool)
    ensures
        r == (a == b),
{
    match (a, b) {
        (Some(x), Some(y)) => x == y,
        (None, None) => true,
        _ => false,
    }
}

/// Walk the tour recorded in `g` from `start` and test it against the shape
/// the search engine promises: when this returns true, a closed tour over
/// exactly the live squares exists in `g`.
pub fn check_closed_tour(g: &MoveGraph<'_>, dead: &Matrix2D<bool>, start: BoardPos) -> (r: bool)
    requires
        g.wf(),
        dead.wf(),
        dead.w == g.width,
        dead.h == g.height,
    ensures
        r ==> exists|order: Seq<BoardPos>| is_closed_tour(*g, *dead, order, start),
{
    if !(start.col < g.width() && start.row < g.height()) {
        return false;
    }
    if *dead.at(start) {
        return false;
    }
    let mut visited = Matrix2D::new(g.width(), g.height(), mk_false);
    let ghost v0 = visited;
    let ghost order0 = Seq::<BoardPos>::empty().push(start);
    let mut order_len: usize = 1;
    let ghost mut order = order0;
    {
        let cell = visited.at_mut(start);
        *cell = true;
    }
    let mut cur = start;
    proof {
        assert(g.width as int * g.height as int >= 1) by (nonlinear_arith)
            requires
                g.width >= 1,
                g.height >= 1,
        ;
        assert(g.width as int * g.height as int <= usize::MAX) by (nonlinear_arith)
            requires
                g.src().wf(),
                g.src().w as int * g.src().h as int <= usize::MAX,
                g.width <= g.src().w,
                g.height <= g.src().h,
                g.width >= 0,
                g.height >= 0,
        ;
        assert forall|p: BoardPos| visited.spec_in_range(p) implies #[trigger] visited.spec_at(p)
            == order.contains(p) by {
            v0.lemma_index_in_bounds(p);
            assert(!v0.spec_at(p));
            if order.contains(p) {
                let k = choose|k: int| 0 <= k < order.len() && order[k] == p;
                assert(order[0] == start);
            }
            if p == start {
                assert(order[0] == p);
                assert(order.contains(p));
            }
        }
    }
    let area = (g.width() as usize) * (g.height() as usize);
    loop
        invariant_except_break
            g.wf(),
            dead.wf(),
            dead.w == g.width,
            dead.h == g.height,
            visited.wf(),
            visited.w == g.width,
            visited.h == g.height,
            order.len() == order_len,
            1 <= order_len <= area,
            area == g.width as int * g.height as int,
            order[0] == start,
            order[order.len() - 1] == cur,
            order.no_duplicates(),
            forall|i: int| 0 <= i < order.len() ==> spec_alive(*g, *dead, #[trigger] order[i]),
            forall|i: int|
                0 <= i < order.len() - 1 ==> (#[trigger] g.spec_node(order[i])).next == Some(
                    order[i + 1],
                ),
            forall|i: int|
                0 <= i < order.len() - 1 ==> (#[trigger] g.spec_node(order[i + 1])).prev == Some(
                    order[i],
                ),
            forall|i: int|
                0 <= i < order.len() - 1 ==> spec_is_knight_move(#[trigger] order[i], order[i + 1]),
            forall|p: BoardPos|
                visited.spec_in_range(p) ==> #[trigger] visited.spec_at(p) == order.contains(p),
        ensures
            order.len() >= 1,
            order[0] == start,
            order[order.len() - 1] == cur,
            order.no_duplicates(),
            forall|i: int| 0 <= i < order.len() ==> spec_alive(*g, *dead, #[trigger] order[i]),
            forall|i: int|
                0 <= i < order.len() - 1 ==> (#[trigger] g.spec_node(order[i])).next == Some(
                    order[i + 1],
                ),
            forall|i: int|
                0 <= i < order.len() - 1 ==> (#[trigger] g.spec_node(order[i + 1])).prev == Some(
                    order[i],
                ),
            forall|i: int|
                0 <= i < order.len() - 1 ==> spec_is_knight_move(#[trigger] order[i], order[i + 1]),
            forall|p: BoardPos|
                visited.spec_in_range(p) ==> #[trigger] visited.spec_at(p) == order.contains(p),
            visited.wf(),
            visited.w == g.width,
            visited.h == g.height,
            g.spec_node(cur).next == Some(start),
        decreases area - order_len,
    {
        let nxt = match g.node(cur).next() {
            Some(q) => q,
            None => {
                return false;
            },
        };
        if opt_pos_eq(Some(nxt), Some(start)) {
            break;
        }
        if !(nxt.col < g.width() && nxt.row < g.height()) {
            return false;
        }
        if *dead.at(nxt) {
            return false;
        }
        if *visited.at(nxt) {
            return false;
        }
        if !cur.is_knight_move(nxt) {
            return false;
        }
        if !opt_pos_eq(g.node(nxt).prev(), Some(cur)) {
            return false;
        }
        if order_len == area {
            // every square is already on the tour, yet the next link does
            // not close the cycle
            return false;
        }
        {
            let cell = visited.at_mut(nxt);
            *cell = true;
        }
        proof {
            let prev_order = order;
            order = order.push(nxt);
            assert(order[order.len() - 1] == nxt);
            assert(!prev_order.contains(nxt));
            assert forall|i: int| 0 <= i < order.len() implies spec_alive(
                *g,
                *dead,
                #[trigger] order[i],
            ) by {
                if i < prev_order.len() {
                    assert(order[i] == prev_order[i]);
                }
            }
            assert forall|i: int, j: int|
                0 <= i < order.len() && 0 <= j < order.len() && i != j implies order[i]
                != order[j] by {
                if i < prev_order.len() && j < prev_order.len() {
                    assert(prev_order[i] != prev_order[j]);
                } else if j == prev_order.len() && i < prev_order.len() {
                    assert(order[j] == nxt);
                    if order[i] == nxt {
                        assert(prev_order.contains(nxt)) by {
                            assert(prev_order[i] == nxt);
                        }
                    }
                } else if i == prev_order.len() && j < prev_order.len() {
                    assert(order[i] == nxt);
                    if order[j] == nxt {
                        assert(prev_order.contains(nxt)) by {
                            assert(prev_order[j] == nxt);
                        }
                    }
                }
            }
            assert(order.no_duplicates());
            assert forall|p: BoardPos| visited.spec_in_range(p) implies #[trigger] visited.spec_at(
                p,
            ) == order.contains(p) by {
                lemma_contains_push(prev_order, nxt, p);
            }
        }
        order_len = order_len + 1;
        cur = nxt;
    }
    // the walk closed the cycle: g.spec_node(cur).next == Some(start)
    if !cur.is_knight_move(start) {
        return false;
    }
    if !opt_pos_eq(g.node(start).prev(), Some(cur)) {
        return false;
    }
    // every live square must be on the walk, and every excluded square bare
    if !scan_board(g, dead, &visited) {
        return false;
    }
    proof {
        assert forall|p: BoardPos| spec_alive(*g, *dead, p) implies order.contains(p) by {
            assert(visited.spec_at(p));
        }
        assert(is_closed_tour(*g, *dead, order, start));
    }
    true
}

/// Confirm that every live square was visited by the walk and that every
/// excluded square carries no links.
#[verifier::loop_isolation(false)]
fn scan_board(g: &MoveGraph<'_>, dead: &Matrix2D<bool>, visited: &Matrix2D<bool>) -> (r: bool)
    requires
        g.wf(),
        dead.wf(),
        dead.w == g.width,
        dead.h == g.height,
        visited.wf(),
        visited.w == g.width,
        visited.h == g.height,
    ensures
        r ==> forall|p: BoardPos|
            g.spec_in_range(p) && !dead.spec_at(p) ==> #[trigger] visited.spec_at(p),
        r ==> dead_squares_bare(*g, *dead),
{
    let mut col: u32 = 0;
    while col < g.width()
        invariant
            forall|p: BoardPos|
                g.spec_in_range(p) && p.col < col && !dead.spec_at(p) ==> #[trigger] visited.spec_at(p),
            forall|p: BoardPos|
                g.spec_in_range(p) && p.col < col && dead.spec_at(p) ==> (
                #[trigger] g.spec_node(p)).next is None && g.spec_node(p).prev is None,
        decreases g.width - col,
    {
        let mut row: u32 = 0;
        while row < g.height()
            invariant
                col < g.width,
                forall|p: BoardPos|
                    g.spec_in_range(p) && (p.col < col || (p.col == col && p.row < row))
                        && !dead.spec_at(p) ==> #[trigger] visited.spec_at(p),
                forall|p: BoardPos|
                    g.spec_in_range(p) && (p.col < col || (p.col == col && p.row < row))
                        && dead.spec_at(p) ==> (#[trigger] g.spec_node(p)).next is None
                        && g.spec_node(p).prev is None,
            decreases g.height - row,
        {
            let p = BoardPos { col, row };
            if *dead.at(p) {
                let node = g.node(p);
                if !(opt_pos_eq(node.next(), None) && opt_pos_eq(node.prev(), None)) {
                    return false;
                }
            } else {
                if !*visited.at(p) {
                    return false;
                }
            }
            row = row + 1;
        }
        col = col + 1;
    }
    true
}

/// Walk the tour recorded in `g` from `start` and test it against the shape
/// of an open tour: when this returns true, an open tour over exactly the
/// live squares exists in `g`, ending at `expect_end` when one is given.
pub fn check_path_tour(
    g: &MoveGraph<'_>,
    dead: &Matrix2D<bool>,
    start: BoardPos,
    expect_end: Option<BoardPos>,
) -> (r: bool)
    requires
        g.wf(),
        dead.wf(),
        dead.w == g.width,
        dead.h == g.height,
    ensures
        r ==> exists|order: Seq<BoardPos>|
            is_path_tour(*g, *dead, order, start) && (expect_end is Some
                ==> order[order.len() - 1] == expect_end.unwrap()),
{
    if !(start.col < g.width() && start.row < g.height()) {
        return false;
    }
    if *dead.at(start) {
        return false;
    }
    if !opt_pos_eq(g.node(start).prev(), Some(start)) {
        return false;
    }
    let mut visited = Matrix2D::new(g.width(), g.height(), mk_false);
    let ghost v0 = visited;
    let ghost order0 = Seq::<BoardPos>::empty().push(start);
    let mut order_len: usize = 1;
    let ghost mut order = order0;
    {
        let cell = visited.at_mut(start);
        *cell = true;
    }
    let mut cur = start;
    proof {
        assert(g.width as int * g.height as int >= 1) by (nonlinear_arith)
            requires
                g.width >= 1,
                g.height >= 1,
        ;
        assert(g.width as int * g.height as int <= usize::MAX) by (nonlinear_arith)
            requires
                g.src().wf(),
                g.src().w as int * g.src().h as int <= usize::MAX,
                g.width <= g.src().w,
                g.height <= g.src().h,
                g.width >= 0,
                g.height >= 0,
        ;
        assert forall|p: BoardPos| visited.spec_in_range(p) implies #[trigger] visited.spec_at(p)
            == order.contains(p) by {
            v0.lemma_index_in_bounds(p);
            assert(!v0.spec_at(p));
            if order.contains(p) {
                let k = choose|k: int| 0 <= k < order.len() && order[k] == p;
                assert(order[0] == start);
            }
            if p == start {
                assert(order[0] == p);
                assert(order.contains(p));
            }
        }
    }
    let area = (g.width() as usize) * (g.height() as usize);
    loop
        invariant_except_break
            g.wf(),
            dead.wf(),
            dead.w == g.width,
            dead.h == g.height,
            visited.wf(),
            visited.w == g.width,
            visited.h == g.height,
            order.len() == order_len,
            1 <= order_len <= area,
            area == g.width as int * g.height as int,
            order[0] == start,
            order[order.len() - 1] == cur,
            order.no_duplicates(),
            forall|i: int| 0 <= i < order.len() ==> spec_alive(*g, *dead, #[trigger] order[i]),
            forall|i: int|
                0 <= i < order.len() - 1 ==> (#[trigger] g.spec_node(order[i])).next == Some(
                    order[i + 1],
                ),
            forall|i: int|
                0 <= i < order.len() - 1 ==> (#[trigger] g.spec_node(order[i + 1])).prev == Some(
                    order[i],
                ),
            forall|i: int|
                0 <= i < order.len() - 1 ==> spec_is_knight_move(#[trigger] order[i], order[i + 1]),
            forall|p: BoardPos|
                visited.spec_in_range(p) ==> #[trigger] visited.spec_at(p) == order.contains(p),
        ensures
            order.len() >= 1,
            order[0] == start,
            order[order.len() - 1] == cur,
            order.no_duplicates(),
            forall|i: int| 0 <= i < order.len() ==> spec_alive(*g, *dead, #[trigger] order[i]),
            forall|i: int|
                0 <= i < order.len() - 1 ==> (#[trigger] g.spec_node(order[i])).next == Some(
                    order[i + 1],
                ),
            forall|i: int|
                0 <= i < order.len() - 1 ==> (#[trigger] g.spec_node(order[i + 1])).prev == Some(
                    order[i],
                ),
            forall|i: int|
                0 <= i < order.len() - 1 ==> spec_is_knight_move(#[trigger] order[i], order[i + 1]),
            forall|p: BoardPos|
                visited.spec_in_range(p) ==> #[trigger] visited.spec_at(p) == order.contains(p),
            visited.wf(),
            visited.w == g.width,
            visited.h == g.height,
            g.spec_node(cur).next is None,
        decreases area - order_len,
    {
        let nxt = match g.node(cur).next() {
            Some(q) => q,
            None => {
                break;
            },
        };
        if !(nxt.col < g.width() && nxt.row < g.height()) {
            return false;
        }
        if *dead.at(nxt) {
            return false;
        }
        if *visited.at(nxt) {
            return false;
        }
        if !cur.is_knight_move(nxt) {
            return false;
        }
        if !opt_pos_eq(g.node(nxt).prev(), Some(cur)) {
            return false;
        }
        if order_len == area {
            // every square is already on the tour, yet another link follows
            return false;
        }
        {
            let cell = visited.at_mut(nxt);
            *cell = true;
        }
        proof {
            let prev_order = order;
            order = order.push(nxt);
            assert(order[order.len() - 1] == nxt);
            assert(!prev_order.contains(nxt));
            assert forall|i: int| 0 <= i < order.len() implies spec_alive(
                *g,
                *dead,
                #[trigger] order[i],
            ) by {
                if i < prev_order.len() {
                    assert(order[i] == prev_order[i]);
                }
            }
            assert forall|i: int, j: int|
                0 <= i < order.len() && 0 <= j < order.len() && i != j implies order[i]
                != order[j] by {
                if i < prev_order.len() && j < prev_order.len() {
                    assert(prev_order[i] != prev_order[j]);
                } else if j == prev_order.len() && i < prev_order.len() {
                    assert(order[j] == nxt);
                    if order[i] == nxt {
                        assert(prev_order.contains(nxt)) by {
                            assert(prev_order[i] == nxt);
                        }
                    }
                } else if i == prev_order.len() && j < prev_order.len() {
                    assert(order[i] == nxt);
                    if order[j] == nxt {
                        assert(prev_order.contains(nxt)) by {
                            assert(prev_order[j] == nxt);
                        }
                    }
                }
            }
            assert(order.no_duplicates());
            assert forall|p: BoardPos| visited.spec_in_range(p) implies #[trigger] visited.spec_at(
                p,
            ) == order.contains(p) by {
                lemma_contains_push(prev_order, nxt, p);
            }
        }
        order_len = order_len + 1;
        cur = nxt;
    }
    if let Some(end) = expect_end {
        if !(cur == end) {
            return false;
        }
    }
    if !scan_board(g, dead, &visited) {
        return false;
    }
    proof {
        assert forall|p: BoardPos| spec_alive(*g, *dead, p) implies order.contains(p) by {
            assert(visited.spec_at(p));
        }
        assert(is_path_tour(*g, *dead, order, start));
    }
    true
}

/// Growing a list by at most one element changes membership by at most
/// that element.
pub(crate) proof fn lemma_contains_grow(pre: Seq<BoardPos>, post: Seq<BoardPos>, q: BoardPos, x: BoardPos)
    requires
        post == pre || post == pre.push(x),
    ensures
        post.contains(q) == (pre.contains(q) || (post == pre.push(x) && q == x)),
{
    if post == pre.push(x) {
        lemma_contains_push(pre, x, q);
    }
}

fn mk_false() -> (r: bool)
    ensures
        !r,
{
    false
}

} // verus!
