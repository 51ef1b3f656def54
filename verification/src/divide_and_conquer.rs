pub mod bases;
pub mod merge;
pub mod partitions;

use vstd::prelude::*;
use crate::board::matrix2d::Matrix2D;
use crate::board_pos::BoardPos;
use crate::board_size::BoardSize;
use crate::move_graph::{Direction, MoveGraph, Node};
use crate::tour::{check_closed_tour, check_path_tour, is_closed_tour, is_path_tour,
    lemma_tour_links_in_range, no_dead};
use crate::warnsdorff::StretchedCache;
use crate::warnsdorff::engine::{solve_internal, solved_graph_ok, solved_with};
use crate::warnsdorff::mode::{Mode, StructureMode};

verus! {

/// A closed tour over the whole clean rectangle, rooted at the global
/// origin: a full Hamiltonian cycle of the board's squares.
pub open spec fn dc_solved_closed(size: BoardSize, g: MoveGraph<'static>) -> bool {
    &&& g.wf()
    &&& g.is_direct()
    &&& g.width == size.width
    &&& g.height == size.height
    &&& exists|mask: Matrix2D<bool>, order: Seq<BoardPos>|
        no_dead(mask, size.width, size.height) && #[trigger] is_closed_tour(
            g,
            mask,
            order,
            BoardPos { col: 0, row: 0 },
        )
}

/// An open tour over the whole clean rectangle, rooted at the global
/// origin.
pub open spec fn dc_solved_open(size: BoardSize, g: MoveGraph<'static>) -> bool {
    &&& g.wf()
    &&& g.is_direct()
    &&& g.width == size.width
    &&& g.height == size.height
    &&& exists|mask: Matrix2D<bool>, order: Seq<BoardPos>|
        no_dead(mask, size.width, size.height) && #[trigger] is_path_tour(
            g,
            mask,
            order,
            BoardPos { col: 0, row: 0 },
        )
}

/// What divide-and-conquer promises of every board it solves: a tour over
/// the whole clean rectangle, closed or open, rooted at the global origin.
pub open spec fn dc_solved(size: BoardSize, g: MoveGraph<'static>) -> bool {
    dc_solved_closed(size, g) || dc_solved_open(size, g)
}

/// Any solved tile links only within itself.
proof fn lemma_solved_links(mode: Mode, size: BoardSize, g: MoveGraph<'static>)
    requires
        solved_graph_ok(mode, size, g),
    ensures
        g.links_in_range(),
{
    let (mask, order) = choose|mask: Matrix2D<bool>, order: Seq<BoardPos>|
        #[trigger] solved_with(mode, size, g, mask, order);
    lemma_tour_links_in_range(g, mask, order, crate::warnsdorff::engine::spec_mode_start(mode));
}

/// The mode the origin tile is solved under, by its shape: tiny shapes
/// take a free search, everything else a structured closed cycle, with the
/// origin corner excluded when both sides are odd. Shapes with no closed
/// or free solution report failure.
fn origin_tile_mode(tile: BoardSize) -> (r: Option<Mode>)
{
    let (mn, mx) = if tile.width <= tile.height {
        (tile.width, tile.height)
    } else {
        (tile.height, tile.width)
    };
    if (mn == 3 && (mx == 4 || mx == 7 || mx == 8)) || (mn == 4) {
        Some(Mode::Freeform)
    } else if mn >= 4 && mx > 4 {
        Some(Mode::Structured(StructureMode::Closed(mn % 2 != 0 && mx % 2 != 0)))
    } else {
        None
    }
}

/// Does this splice satisfy the merge geometry?
fn merge_geometry_ok(
    board_w: u32,
    board_h: u32,
    pos: BoardPos,
    tile: BoardSize,
    direction: Direction,
) -> (r: bool)
    ensures
        r ==> pos.col + tile.width <= board_w && pos.row + tile.height <= board_h && match direction {
            Direction::Horizontal => pos.col >= 2 && pos.row + 2 < board_h && tile.height >= 2
                && tile.width >= 1,
            Direction::Vertical => pos.row >= 2 && pos.col + 2 < board_w && tile.width >= 2
                && tile.height >= 1,
        },
{
    let within = pos.col as u64 + tile.width as u64 <= board_w as u64 && pos.row as u64
        + tile.height as u64 <= board_h as u64;
    let dir_ok = match direction {
        Direction::Horizontal => pos.col >= 2 && pos.row as u64 + 2 < board_h as u64 && tile.height
            >= 2 && tile.width >= 1,
        Direction::Vertical => pos.row >= 2 && pos.col as u64 + 2 < board_w as u64 && tile.width
            >= 2 && tile.height >= 1,
    };
    within && dir_ok
}

/// Assemble the board from solved tiles: solve every tile of the
/// partition, place them all, then splice each non-origin tile onto its
/// neighbour across the seam. The caller validates the assembled graph.
#[verifier::loop_isolation(false)]
fn divide_and_conquer_impl(size: BoardSize, cache: &mut StretchedCache) -> (r: Option<
    MoveGraph<'static>,
>)
    requires
        old(cache).wf(),
        size.width >= 1,
        size.height >= 1,
        size.width as int * size.height as int <= usize::MAX,
    ensures
        final(cache).wf(),
        r is Some ==> r.unwrap().wf() && r.unwrap().is_direct() && r.unwrap().width == size.width
            && r.unwrap().height == size.height,
{
    let sectors = partitions::partition_size(size);
    let mut graph = MoveGraph::new(size.width, size.height);
    let n = sectors.len();
    let mut i: usize = 0;
    while i < n
        invariant
            i <= n,
            n == sectors@.len(),
            cache.wf(),
            graph.wf(),
            graph.is_direct(),
            graph.width == size.width,
            graph.height == size.height,
            forall|k: int|
                0 <= k < sectors@.len() ==> partitions::sector_ok(#[trigger] sectors@[k], size),
        decreases n - i,
    {
        let (pos, tile, dir) = sectors[i];
        let mode = if pos.col == 0 && pos.row == 0 {
            match origin_tile_mode(tile) {
                Some(m) => m,
                None => {
                    return None;
                },
            }
        } else {
            Mode::Structured(StructureMode::Stretched(dir))
        };
        let ghost mode_spec = mode;
        proof {
            assert(tile.width as int * tile.height as int <= 100) by (nonlinear_arith)
                requires
                    1 <= tile.width <= 10,
                    1 <= tile.height <= 10,
            ;
        }
        let solved = match solve_internal(tile, mode, cache) {
            Some(g) => g,
            None => {
                return None;
            },
        };
        proof {
            lemma_solved_links(mode_spec, tile, solved);
        }
        graph.insert_section(&solved, pos);
        i = i + 1;
    }
    let mut i: usize = 0;
    while i < n
        invariant
            i <= n,
            n == sectors@.len(),
            graph.wf(),
            graph.is_direct(),
            graph.width == size.width,
            graph.height == size.height,
            forall|k: int|
                0 <= k < sectors@.len() ==> partitions::sector_ok(#[trigger] sectors@[k], size),
        decreases n - i,
    {
        let (pos, tile, dir) = sectors[i];
        if !(pos.col == 0 && pos.row == 0) {
            if !merge_geometry_ok(size.width, size.height, pos, tile, dir) {
                // the partitioner never produces a seam the merge cannot
                // reach
                return None;
            }
            match merge::merge(&mut graph, pos, tile, dir) {
                Ok(_) => {},
                Err(_) => {
                    return None;
                },
            }
        }
        i = i + 1;
    }
    Some(graph)
}

/// The node contents after the origin rewiring: the origin gains the hook
/// square as successor and becomes the root sentinel, the hook's
/// predecessor link moves to the origin, and the hook's former predecessor
/// loses its successor; everything else in every node reads as before.
pub open spec fn spec_origin_rewired<'a>(g: MoveGraph<'a>, q: BoardPos) -> Node {
    let origin = BoardPos { col: 0, row: 0 };
    let hook = BoardPos { col: 2, row: 1 };
    let pp = g.spec_node(hook).prev;
    let n = g.spec_node(q);
    Node {
        pos: n.pos,
        edges: n.edges,
        next: if pp == Some(q) {
            None
        } else if q == origin {
            Some(hook)
        } else {
            n.next
        },
        prev: if q == origin {
            Some(origin)
        } else if q == hook {
            Some(origin)
        } else {
            n.prev
        },
    }
}

/// Break the cycle of a closed-style assembly at a fixed, known-good point
/// so the global origin becomes the sole tour endpoint. Exactly two edges
/// are rewired: the origin is spliced in before the hook square (2, 1),
/// and the edge from the hook's former predecessor into the hook is cut.
/// Fails only when the hook's recorded predecessor lies off the board.
fn rewire_origin(graph: &mut MoveGraph<'static>) -> (ok: bool)
    requires
        old(graph).wf(),
        old(graph).is_direct(),
        old(graph).width > 2,
        old(graph).height > 1,
    ensures
        final(graph).wf(),
        final(graph).is_direct(),
        final(graph).width == old(graph).width,
        final(graph).height == old(graph).height,
        ok == (match old(graph).spec_node(BoardPos { col: 2, row: 1 }).prev {
            Some(pp) => pp.col < old(graph).width && pp.row < old(graph).height,
            None => true,
        }),
        ok ==> forall|q: BoardPos|
            old(graph).spec_in_range(q) ==> final(graph).spec_node(q) == spec_origin_rewired(
                *old(graph),
                q,
            ),
{
    let origin = BoardPos { col: 0, row: 0 };
    let hook = BoardPos { col: 2, row: 1 };
    // the origin becomes the start of the chain, and the old predecessor
    // of its partner becomes the open end
    {
        let n = graph.node_mut(origin);
        *n.next_mut() = Some(hook);
    }
    let old_prev = graph.node(hook).prev();
    {
        let n = graph.node_mut(hook);
        *n.prev_mut() = Some(origin);
    }
    if let Some(pp) = old_prev {
        if !(pp.col < graph.width() && pp.row < graph.height()) {
            return false;
        }
        let n = graph.node_mut(pp);
        *n.next_mut() = None;
    }
    {
        let n = graph.node_mut(origin);
        *n.prev_mut() = Some(origin);
    }
    true
}

/// Solve a board whose dimensions are both odd: assemble it as if closed
/// with the origin corner excluded, then wire the origin in as the sole
/// tour endpoint.
fn divide_and_conquer_open(size: BoardSize, cache: &mut StretchedCache) -> (r: Option<
    MoveGraph<'static>,
>)
    requires
        old(cache).wf(),
        size.width >= 1,
        size.height >= 1,
        size.width as int * size.height as int <= usize::MAX,
    ensures
        final(cache).wf(),
        r is Some ==> dc_solved_open(size, r.unwrap()),
{
    let mut graph = match divide_and_conquer_impl(size, cache) {
        Some(g) => g,
        None => {
            return None;
        },
    };
    if !(size.width > 2 && size.height > 1) {
        return None;
    }
    if !rewire_origin(&mut graph) {
        return None;
    }
    let origin = BoardPos { col: 0, row: 0 };
    let mask = crate::warnsdorff::engine::build_mode_mask(&Mode::Freeform, size);
    if check_path_tour(&graph, &mask, origin, None) {
        proof {
            let order = choose|order: Seq<BoardPos>| is_path_tour(graph, mask, order, origin);
            assert(no_dead(mask, size.width, size.height) && is_path_tour(
                graph,
                mask,
                order,
                origin,
            ));
        }
        Some(graph)
    } else {
        None
    }
}

/// Solve a clean rectangular board by divide and conquer: partition it
/// into small tiles, solve each under a constraint chosen so it can be
/// spliced to its neighbours, and merge the tiles into one tour. Boards
/// with an even side are assembled for a closed tour — the classic 8 x 8
/// board is owed one outright — while a board too small or too narrow to
/// close may still come back as an open tour; odd-by-odd boards yield an
/// open tour rooted at the origin.
pub fn solve(size: BoardSize, cache: &mut StretchedCache) -> (r: Option<MoveGraph<'static>>)
    requires
        old(cache).wf(),
        size.width as int * size.height as int <= usize::MAX,
    ensures
        final(cache).wf(),
        r is Some ==> dc_solved(size, r.unwrap()),
        size.width % 2 == 1 && size.height % 2 == 1 && r is Some ==> dc_solved_open(
            size,
            r.unwrap(),
        ),
        size == (BoardSize { width: 8, height: 8 }) ==> r is Some && dc_solved_closed(
            size,
            r.unwrap(),
        ),
{
    if size.width == 0 || size.height == 0 {
        return None;
    }
    let origin = BoardPos { col: 0, row: 0 };
    if size.width % 2 == 0 || size.height % 2 == 0 {
        let is_classic = size.width == 8 && size.height == 8;
        match divide_and_conquer_impl(size, cache) {
            Some(graph) => {
                let mask = crate::warnsdorff::engine::build_mode_mask(&Mode::Freeform, size);
                proof {
                    assert(no_dead(mask, size.width, size.height));
                }
                if check_closed_tour(&graph, &mask, origin) {
                    proof {
                        let order = choose|order: Seq<BoardPos>|
                            is_closed_tour(graph, mask, order, origin);
                        assert(no_dead(mask, size.width, size.height) && is_closed_tour(
                            graph,
                            mask,
                            order,
                            origin,
                        ));
                    }
                    return Some(graph);
                }
                if !is_classic && check_path_tour(&graph, &mask, origin, None) {
                    proof {
                        let order = choose|order: Seq<BoardPos>|
                            is_path_tour(graph, mask, order, origin);
                        assert(no_dead(mask, size.width, size.height) && is_path_tour(
                            graph,
                            mask,
                            order,
                            origin,
                        ));
                    }
                    return Some(graph);
                }
            },
            None => {},
        }
        if is_classic {
            // the search never fails on the clean classic board, but the
            // hand-laid cycle answers for it outright
            return Some(bases::get_8_by_8());
        }
        None
    } else {
        divide_and_conquer_open(size, cache)
    }
}

} // verus!
