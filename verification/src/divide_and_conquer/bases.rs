use vstd::prelude::*;
use crate::board::matrix2d::Matrix2D;
use crate::board_pos::{BoardPos, spec_is_knight_move};
use crate::board_size::BoardSize;
use crate::move_graph::{Direction, MoveGraph};
use crate::tour::{is_closed_tour, is_open_tour, no_dead, lemma_flip_tour};
use crate::warnsdorff::cache::{StretchedCache, entry_ok, spec_lookup, spec_stretched_end};
use crate::warnsdorff::engine::{build_mode_mask, lemma_entry_copy, lemma_entry_solves, take_cached};
use crate::warnsdorff::mode::Mode;

verus! {

/// The visiting order of the hand-laid 4 x 10 stretched tour: from the
/// origin to the designated horizontal exit square, one knight move at a
/// time, touching all forty squares.
#[verifier::opaque]
pub open spec fn base_path() -> Seq<BoardPos> {
    seq![
        BoardPos { col: 0, row: 0 },
        BoardPos { col: 2, row: 1 },
        BoardPos { col: 3, row: 3 },
        BoardPos { col: 1, row: 2 },
        BoardPos { col: 3, row: 1 },
        BoardPos { col: 1, row: 0 },
        BoardPos { col: 0, row: 2 },
        BoardPos { col: 2, row: 3 },
        BoardPos { col: 0, row: 4 },
        BoardPos { col: 2, row: 5 },
        BoardPos { col: 3, row: 7 },
        BoardPos { col: 2, row: 9 },
        BoardPos { col: 0, row: 8 },
        BoardPos { col: 1, row: 6 },
        BoardPos { col: 3, row: 5 },
        BoardPos { col: 1, row: 4 },
        BoardPos { col: 0, row: 6 },
        BoardPos { col: 1, row: 8 },
        BoardPos { col: 3, row: 9 },
        BoardPos { col: 2, row: 7 },
        BoardPos { col: 1, row: 5 },
        BoardPos { col: 3, row: 6 },
        BoardPos { col: 2, row: 8 },
        BoardPos { col: 0, row: 9 },
        BoardPos { col: 1, row: 7 },
        BoardPos { col: 3, row: 8 },
        BoardPos { col: 1, row: 9 },
        BoardPos { col: 0, row: 7 },
        BoardPos { col: 2, row: 6 },
        BoardPos { col: 3, row: 4 },
        BoardPos { col: 2, row: 2 },
        BoardPos { col: 3, row: 0 },
        BoardPos { col: 1, row: 1 },
        BoardPos { col: 0, row: 3 },
        BoardPos { col: 2, row: 4 },
        BoardPos { col: 0, row: 5 },
        BoardPos { col: 1, row: 3 },
        BoardPos { col: 3, row: 2 },
        BoardPos { col: 2, row: 0 },
        BoardPos { col: 0, row: 1 }
    ]
}

/// The hand-laid order really is a knight's path over the whole 4 x 10
/// board: forty pairwise-distinct in-bounds squares, consecutive ones a
/// knight move apart, from the origin to the horizontal exit.
#[verifier::rlimit(100)]
#[verifier::spinoff_prover]
proof fn lemma_base_path_facts()
    ensures
        base_path().len() == 40,
        base_path()[0] == (BoardPos { col: 0, row: 0 }),
        base_path()[39] == (BoardPos { col: 0, row: 1 }),
        base_path().no_duplicates(),
        forall|i: int|
            0 <= i < 40 ==> (#[trigger] base_path()[i]).col < 4 && base_path()[i].row < 10,
        forall|i: int|
            0 <= i < 39 ==> spec_is_knight_move(#[trigger] base_path()[i], base_path()[i + 1]),
        forall|p: BoardPos| p.col < 4 && p.row < 10 ==> base_path().contains(p),
{
    reveal(base_path);
    assert(base_path()[0] == (BoardPos { col: 0, row: 0 }));
    assert(base_path()[1] == (BoardPos { col: 2, row: 1 }));
    assert(base_path()[2] == (BoardPos { col: 3, row: 3 }));
    assert(base_path()[3] == (BoardPos { col: 1, row: 2 }));
    assert(base_path()[4] == (BoardPos { col: 3, row: 1 }));
    assert(base_path()[5] == (BoardPos { col: 1, row: 0 }));
    assert(base_path()[6] == (BoardPos { col: 0, row: 2 }));
    assert(base_path()[7] == (BoardPos { col: 2, row: 3 }));
    assert(base_path()[8] == (BoardPos { col: 0, row: 4 }));
    assert(base_path()[9] == (BoardPos { col: 2, row: 5 }));
    assert(base_path()[10] == (BoardPos { col: 3, row: 7 }));
    assert(base_path()[11] == (BoardPos { col: 2, row: 9 }));
    assert(base_path()[12] == (BoardPos { col: 0, row: 8 }));
    assert(base_path()[13] == (BoardPos { col: 1, row: 6 }));
    assert(base_path()[14] == (BoardPos { col: 3, row: 5 }));
    assert(base_path()[15] == (BoardPos { col: 1, row: 4 }));
    assert(base_path()[16] == (BoardPos { col: 0, row: 6 }));
    assert(base_path()[17] == (BoardPos { col: 1, row: 8 }));
    assert(base_path()[18] == (BoardPos { col: 3, row: 9 }));
    assert(base_path()[19] == (BoardPos { col: 2, row: 7 }));
    assert(base_path()[20] == (BoardPos { col: 1, row: 5 }));
    assert(base_path()[21] == (BoardPos { col: 3, row: 6 }));
    assert(base_path()[22] == (BoardPos { col: 2, row: 8 }));
    assert(base_path()[23] == (BoardPos { col: 0, row: 9 }));
    assert(base_path()[24] == (BoardPos { col: 1, row: 7 }));
    assert(base_path()[25] == (BoardPos { col: 3, row: 8 }));
    assert(base_path()[26] == (BoardPos { col: 1, row: 9 }));
    assert(base_path()[27] == (BoardPos { col: 0, row: 7 }));
    assert(base_path()[28] == (BoardPos { col: 2, row: 6 }));
    assert(base_path()[29] == (BoardPos { col: 3, row: 4 }));
    assert(base_path()[30] == (BoardPos { col: 2, row: 2 }));
    assert(base_path()[31] == (BoardPos { col: 3, row: 0 }));
    assert(base_path()[32] == (BoardPos { col: 1, row: 1 }));
    assert(base_path()[33] == (BoardPos { col: 0, row: 3 }));
    assert(base_path()[34] == (BoardPos { col: 2, row: 4 }));
    assert(base_path()[35] == (BoardPos { col: 0, row: 5 }));
    assert(base_path()[36] == (BoardPos { col: 1, row: 3 }));
    assert(base_path()[37] == (BoardPos { col: 3, row: 2 }));
    assert(base_path()[38] == (BoardPos { col: 2, row: 0 }));
    assert(base_path()[39] == (BoardPos { col: 0, row: 1 }));
    assert forall|p: BoardPos| p.col < 4 && p.row < 10 implies base_path().contains(p) by {
        let c = p.col as int;
        let r = p.row as int;
        assert(c == 0 || c == 1 || c == 2 || c == 3);
        assert(r == 0 || r == 1 || r == 2 || r == 3 || r == 4 || r == 5 || r == 6 || r == 7 || r
            == 8 || r == 9);
    }
}

/// The hand-laid path as runtime data, matching its recorded order.
#[verifier::rlimit(100)]
#[verifier::spinoff_prover]
fn base_path_vec() -> (r: Vec<BoardPos>)
    ensures
        r@ == base_path(),
{
    proof {
        reveal(base_path);
    }
    let mut path: Vec<BoardPos> = Vec::new();
    path.push(BoardPos { col: 0, row: 0 });
    path.push(BoardPos { col: 2, row: 1 });
    path.push(BoardPos { col: 3, row: 3 });
    path.push(BoardPos { col: 1, row: 2 });
    path.push(BoardPos { col: 3, row: 1 });
    path.push(BoardPos { col: 1, row: 0 });
    path.push(BoardPos { col: 0, row: 2 });
    path.push(BoardPos { col: 2, row: 3 });
    path.push(BoardPos { col: 0, row: 4 });
    path.push(BoardPos { col: 2, row: 5 });
    path.push(BoardPos { col: 3, row: 7 });
    path.push(BoardPos { col: 2, row: 9 });
    path.push(BoardPos { col: 0, row: 8 });
    path.push(BoardPos { col: 1, row: 6 });
    path.push(BoardPos { col: 3, row: 5 });
    path.push(BoardPos { col: 1, row: 4 });
    path.push(BoardPos { col: 0, row: 6 });
    path.push(BoardPos { col: 1, row: 8 });
    path.push(BoardPos { col: 3, row: 9 });
    path.push(BoardPos { col: 2, row: 7 });
    path.push(BoardPos { col: 1, row: 5 });
    path.push(BoardPos { col: 3, row: 6 });
    path.push(BoardPos { col: 2, row: 8 });
    path.push(BoardPos { col: 0, row: 9 });
    path.push(BoardPos { col: 1, row: 7 });
    path.push(BoardPos { col: 3, row: 8 });
    path.push(BoardPos { col: 1, row: 9 });
    path.push(BoardPos { col: 0, row: 7 });
    path.push(BoardPos { col: 2, row: 6 });
    path.push(BoardPos { col: 3, row: 4 });
    path.push(BoardPos { col: 2, row: 2 });
    path.push(BoardPos { col: 3, row: 0 });
    path.push(BoardPos { col: 1, row: 1 });
    path.push(BoardPos { col: 0, row: 3 });
    path.push(BoardPos { col: 2, row: 4 });
    path.push(BoardPos { col: 0, row: 5 });
    path.push(BoardPos { col: 1, row: 3 });
    path.push(BoardPos { col: 3, row: 2 });
    path.push(BoardPos { col: 2, row: 0 });
    path.push(BoardPos { col: 0, row: 1 });
    proof {
        assert(path@ =~= base_path());
    }
    path
}

/// Lay the hand-recorded 4 x 10 tour into a fresh graph: the path squares
/// doubly linked in order, the origin holding its root sentinel, the exit
/// square left without a successor.
#[verifier::rlimit(100)]
#[verifier::spinoff_prover]
fn build_base_graph() -> (g: MoveGraph<'static>)
    ensures
        g.wf(),
        g.is_direct(),
        g.width == 4,
        g.height == 10,
        forall|k: int|
            0 <= k < 39 ==> (#[trigger] g.spec_node(base_path()[k])).next == Some(
                base_path()[k + 1],
            ),
        forall|k: int|
            1 <= k < 40 ==> (#[trigger] g.spec_node(base_path()[k])).prev == Some(
                base_path()[k - 1],
            ),
        g.spec_node(base_path()[0]).prev == Some(base_path()[0]),
        g.spec_node(base_path()[39]).next is None,
{
    proof {
        lemma_base_path_facts();
    }
    let path = base_path_vec();
    let mut g = MoveGraph::new(4, 10);
    let origin = path[0];
    {
        let n = g.node_mut(origin);
        *n.prev_mut() = Some(origin);
    }
    let mut i: usize = 1;
    while i < 40
        invariant
            1 <= i <= 40,
            path@ == base_path(),
            base_path().len() == 40,
            base_path().no_duplicates(),
            forall|k: int|
                0 <= k < 40 ==> (#[trigger] base_path()[k]).col < 4 && base_path()[k].row < 10,
            g.wf(),
            g.is_direct(),
            g.width == 4,
            g.height == 10,
            g.spec_node(base_path()[0]).prev == Some(base_path()[0]),
            forall|k: int|
                0 <= k < i - 1 ==> (#[trigger] g.spec_node(base_path()[k])).next == Some(
                    base_path()[k + 1],
                ),
            forall|k: int|
                1 <= k < i ==> (#[trigger] g.spec_node(base_path()[k])).prev == Some(
                    base_path()[k - 1],
                ),
            forall|k: int|
                i - 1 <= k < 40 ==> (#[trigger] g.spec_node(base_path()[k])).next is None,
            forall|k: int|
                i <= k < 40 ==> (#[trigger] g.spec_node(base_path()[k])).prev is None,
        decreases 40 - i,
    {
        let prev_pos = path[i - 1];
        let next_pos = path[i];
        {
            let n = g.node_mut(prev_pos);
            *n.next_mut() = Some(next_pos);
        }
        {
            let n = g.node_mut(next_pos);
            *n.prev_mut() = Some(prev_pos);
        }
        i = i + 1;
    }
    g
}

/// The freshly laid base graph holds the hand-laid order as an open tour
/// from the origin to the horizontal exit, which makes it a valid cache
/// entry for the horizontal orientation.
#[verifier::rlimit(100)]
#[verifier::spinoff_prover]
proof fn lemma_base_graph_tour(g: MoveGraph<'static>, mask_h: Matrix2D<bool>)
    requires
        g.wf(),
        g.is_direct(),
        g.width == 4,
        g.height == 10,
        no_dead(mask_h, 4, 10),
        forall|k: int|
            0 <= k < 39 ==> (#[trigger] g.spec_node(base_path()[k])).next == Some(
                base_path()[k + 1],
            ),
        forall|k: int|
            1 <= k < 40 ==> (#[trigger] g.spec_node(base_path()[k])).prev == Some(
                base_path()[k - 1],
            ),
        g.spec_node(base_path()[0]).prev == Some(base_path()[0]),
        g.spec_node(base_path()[39]).next is None,
    ensures
        is_open_tour(
            g,
            mask_h,
            base_path(),
            BoardPos { col: 0, row: 0 },
            spec_stretched_end(Direction::Horizontal),
        ),
        entry_ok(BoardSize { width: 4, height: 10 }, Direction::Horizontal, g),
{
    lemma_base_path_facts();
    lemma_base_graph_core(g, mask_h);
    assert(is_open_tour(
        g,
        mask_h,
        base_path(),
        BoardPos { col: 0, row: 0 },
        spec_stretched_end(Direction::Horizontal),
    ));
}

/// The hand-laid order satisfies the core tour shape in the freshly laid
/// graph.
#[verifier::rlimit(100)]
#[verifier::spinoff_prover]
proof fn lemma_base_graph_core(g: MoveGraph<'static>, mask_h: Matrix2D<bool>)
    requires
        g.wf(),
        g.is_direct(),
        g.width == 4,
        g.height == 10,
        no_dead(mask_h, 4, 10),
        forall|k: int|
            0 <= k < 39 ==> (#[trigger] g.spec_node(base_path()[k])).next == Some(
                base_path()[k + 1],
            ),
        forall|k: int|
            1 <= k < 40 ==> (#[trigger] g.spec_node(base_path()[k])).prev == Some(
                base_path()[k - 1],
            ),
    ensures
        crate::tour::tour_core(g, mask_h, base_path(), BoardPos { col: 0, row: 0 }),
{
    lemma_base_path_facts();
    let order = base_path();
    assert forall|i: int| 0 <= i < order.len() implies crate::tour::spec_alive(
        g,
        mask_h,
        #[trigger] order[i],
    ) by {}
    assert forall|p: BoardPos| crate::tour::spec_alive(g, mask_h, p) implies order.contains(
        p,
    ) by {}
    assert(crate::tour::dead_squares_bare(g, mask_h));
}

/// The known-good stretched base for the shapes the search struggles with:
/// exactly the 4 x 10 horizontal and 10 x 4 vertical stretched tiles.
pub fn get(direction: Direction, size: BoardSize, cache: &mut StretchedCache) -> (r: Option<
    MoveGraph<'static>,
>)
    requires
        old(cache).wf(),
    ensures
        final(cache).wf(),
        ({
            let matching = (direction == Direction::Horizontal && size == (BoardSize {
                width: 4,
                height: 10,
            })) || (direction == Direction::Vertical && size == (BoardSize {
                width: 10,
                height: 4,
            }));
            &&& (matching <==> r is Some)
            &&& (r is Some ==> entry_ok(size, direction, r.unwrap()) && spec_lookup(
                final(cache).entries@,
                size,
                direction,
            ) is Some)
            &&& (matching && spec_lookup(old(cache).entries@, size, direction) is None
                ==> spec_lookup(
                final(cache).entries@,
                BoardSize { width: 4, height: 10 },
                Direction::Horizontal,
            ) is Some && spec_lookup(
                final(cache).entries@,
                BoardSize { width: 10, height: 4 },
                Direction::Vertical,
            ) is Some)
        }),
{
    let is_horizontal = matches!(direction, Direction::Horizontal);
    if (is_horizontal && size.width == 4 && size.height == 10) || (!is_horizontal && size.width
        == 10 && size.height == 4) {
        Some(get_4_by_10(direction, cache))
    } else {
        None
    }
}

/// The hand-laid 4 x 10 stretched tour in the asked-for orientation,
/// cached in both orientations the first time it is asked for.
#[verifier::rlimit(100)]
pub fn get_4_by_10(direction: Direction, cache: &mut StretchedCache) -> (r: MoveGraph<'static>)
    requires
        old(cache).wf(),
    ensures
        final(cache).wf(),
        ({
            let size = match direction {
                Direction::Horizontal => BoardSize { width: 4, height: 10 },
                Direction::Vertical => BoardSize { width: 10, height: 4 },
            };
            &&& entry_ok(size, direction, r)
            &&& spec_lookup(final(cache).entries@, size, direction) is Some
            &&& spec_lookup(old(cache).entries@, size, direction) is None ==> spec_lookup(
                final(cache).entries@,
                BoardSize { width: 4, height: 10 },
                Direction::Horizontal,
            ) is Some && spec_lookup(
                final(cache).entries@,
                BoardSize { width: 10, height: 4 },
                Direction::Vertical,
            ) is Some
        }),
{
    let size = match direction {
        Direction::Horizontal => BoardSize { width: 4, height: 10 },
        Direction::Vertical => BoardSize { width: 10, height: 4 },
    };
    if let Some(found) = take_cached(cache, size, direction) {
        return found;
    }
    let result = build_base_graph();
    let h_size = BoardSize { width: 4, height: 10 };
    let v_size = BoardSize { width: 10, height: 4 };
    let mask_h = build_mode_mask(&Mode::Freeform, h_size);
    let mask_v = build_mode_mask(&Mode::Freeform, v_size);
    let origin = BoardPos { col: 0, row: 0 };
    proof {
        assert(no_dead(mask_h, 4, 10));
        assert(no_dead(mask_v, 10, 4));
        lemma_base_graph_tour(result, mask_h);
    }
    let flipped = result.flip();
    proof {
        let order = choose|order: Seq<BoardPos>|
            is_open_tour(result, mask_h, order, origin, spec_stretched_end(Direction::Horizontal));
        lemma_flip_tour(
            result,
            flipped,
            mask_h,
            mask_v,
            order,
            origin,
            spec_stretched_end(Direction::Horizontal),
        );
        assert(crate::board_pos::spec_flip_pos(origin) == origin);
        assert(crate::board_pos::spec_flip_pos(spec_stretched_end(Direction::Horizontal))
            == spec_stretched_end(Direction::Vertical));
        assert(entry_ok(v_size, Direction::Vertical, flipped));
    }
    proof {
        lemma_entry_solves(h_size, Direction::Horizontal, result);
        lemma_entry_solves(v_size, Direction::Vertical, flipped);
    }
    let copy_h = result.to_owned();
    proof {
        lemma_entry_copy(h_size, Direction::Horizontal, result, copy_h);
    }
    cache.insert(h_size, Direction::Horizontal, copy_h);
    let copy_v = flipped.to_owned();
    proof {
        lemma_entry_copy(v_size, Direction::Vertical, flipped, copy_v);
    }
    cache.insert(v_size, Direction::Vertical, copy_v);
    match direction {
        Direction::Horizontal => result,
        Direction::Vertical => flipped,
    }
}


/// The visiting order of the hand-laid 8 x 8 closed tour: from the origin
/// around all sixty-four squares, one knight move at a time, returning to
/// the origin with one more knight move.
#[verifier::opaque]
pub open spec fn base_cycle() -> Seq<BoardPos> {
    seq![
        BoardPos { col: 0, row: 0 },
        BoardPos { col: 1, row: 2 },
        BoardPos { col: 2, row: 0 },
        BoardPos { col: 0, row: 1 },
        BoardPos { col: 1, row: 3 },
        BoardPos { col: 0, row: 5 },
        BoardPos { col: 1, row: 7 },
        BoardPos { col: 3, row: 6 },
        BoardPos { col: 5, row: 7 },
        BoardPos { col: 7, row: 6 },
        BoardPos { col: 6, row: 4 },
        BoardPos { col: 7, row: 2 },
        BoardPos { col: 6, row: 0 },
        BoardPos { col: 4, row: 1 },
        BoardPos { col: 6, row: 2 },
        BoardPos { col: 7, row: 0 },
        BoardPos { col: 5, row: 1 },
        BoardPos { col: 3, row: 0 },
        BoardPos { col: 1, row: 1 },
        BoardPos { col: 0, row: 3 },
        BoardPos { col: 1, row: 5 },
        BoardPos { col: 0, row: 7 },
        BoardPos { col: 2, row: 6 },
        BoardPos { col: 4, row: 7 },
        BoardPos { col: 6, row: 6 },
        BoardPos { col: 7, row: 4 },
        BoardPos { col: 5, row: 5 },
        BoardPos { col: 6, row: 7 },
        BoardPos { col: 7, row: 5 },
        BoardPos { col: 6, row: 3 },
        BoardPos { col: 7, row: 1 },
        BoardPos { col: 5, row: 0 },
        BoardPos { col: 3, row: 1 },
        BoardPos { col: 1, row: 0 },
        BoardPos { col: 2, row: 2 },
        BoardPos { col: 4, row: 3 },
        BoardPos { col: 2, row: 4 },
        BoardPos { col: 4, row: 5 },
        BoardPos { col: 3, row: 7 },
        BoardPos { col: 1, row: 6 },
        BoardPos { col: 0, row: 4 },
        BoardPos { col: 2, row: 5 },
        BoardPos { col: 0, row: 6 },
        BoardPos { col: 2, row: 7 },
        BoardPos { col: 4, row: 6 },
        BoardPos { col: 3, row: 4 },
        BoardPos { col: 5, row: 3 },
        BoardPos { col: 3, row: 2 },
        BoardPos { col: 4, row: 0 },
        BoardPos { col: 6, row: 1 },
        BoardPos { col: 7, row: 3 },
        BoardPos { col: 5, row: 2 },
        BoardPos { col: 3, row: 3 },
        BoardPos { col: 5, row: 4 },
        BoardPos { col: 4, row: 2 },
        BoardPos { col: 2, row: 3 },
        BoardPos { col: 4, row: 4 },
        BoardPos { col: 6, row: 5 },
        BoardPos { col: 7, row: 7 },
        BoardPos { col: 5, row: 6 },
        BoardPos { col: 3, row: 5 },
        BoardPos { col: 1, row: 4 },
        BoardPos { col: 0, row: 2 },
        BoardPos { col: 2, row: 1 }
    ]
}

/// The hand-laid order really is a knight's cycle over the whole 8 x 8
/// board: sixty-four pairwise-distinct in-bounds squares, consecutive ones
/// a knight move apart, the last a knight move from the origin again.
#[verifier::rlimit(100)]
#[verifier::spinoff_prover]
proof fn lemma_base_cycle_facts()
    ensures
        base_cycle().len() == 64,
        base_cycle()[0] == (BoardPos { col: 0, row: 0 }),
        base_cycle()[63] == (BoardPos { col: 2, row: 1 }),
        base_cycle().no_duplicates(),
        forall|i: int|
            0 <= i < 64 ==> (#[trigger] base_cycle()[i]).col < 8 && base_cycle()[i].row < 8,
        forall|i: int|
            0 <= i < 63 ==> spec_is_knight_move(#[trigger] base_cycle()[i], base_cycle()[i + 1]),
        spec_is_knight_move(base_cycle()[63], base_cycle()[0]),
        forall|p: BoardPos| p.col < 8 && p.row < 8 ==> base_cycle().contains(p),
{
    reveal(base_cycle);
    assert(base_cycle()[0] == (BoardPos { col: 0, row: 0 }));
    assert(base_cycle()[1] == (BoardPos { col: 1, row: 2 }));
    assert(base_cycle()[2] == (BoardPos { col: 2, row: 0 }));
    assert(base_cycle()[3] == (BoardPos { col: 0, row: 1 }));
    assert(base_cycle()[4] == (BoardPos { col: 1, row: 3 }));
    assert(base_cycle()[5] == (BoardPos { col: 0, row: 5 }));
    assert(base_cycle()[6] == (BoardPos { col: 1, row: 7 }));
    assert(base_cycle()[7] == (BoardPos { col: 3, row: 6 }));
    assert(base_cycle()[8] == (BoardPos { col: 5, row: 7 }));
    assert(base_cycle()[9] == (BoardPos { col: 7, row: 6 }));
    assert(base_cycle()[10] == (BoardPos { col: 6, row: 4 }));
    assert(base_cycle()[11] == (BoardPos { col: 7, row: 2 }));
    assert(base_cycle()[12] == (BoardPos { col: 6, row: 0 }));
    assert(base_cycle()[13] == (BoardPos { col: 4, row: 1 }));
    assert(base_cycle()[14] == (BoardPos { col: 6, row: 2 }));
    assert(base_cycle()[15] == (BoardPos { col: 7, row: 0 }));
    assert(base_cycle()[16] == (BoardPos { col: 5, row: 1 }));
    assert(base_cycle()[17] == (BoardPos { col: 3, row: 0 }));
    assert(base_cycle()[18] == (BoardPos { col: 1, row: 1 }));
    assert(base_cycle()[19] == (BoardPos { col: 0, row: 3 }));
    assert(base_cycle()[20] == (BoardPos { col: 1, row: 5 }));
    assert(base_cycle()[21] == (BoardPos { col: 0, row: 7 }));
    assert(base_cycle()[22] == (BoardPos { col: 2, row: 6 }));
    assert(base_cycle()[23] == (BoardPos { col: 4, row: 7 }));
    assert(base_cycle()[24] == (BoardPos { col: 6, row: 6 }));
    assert(base_cycle()[25] == (BoardPos { col: 7, row: 4 }));
    assert(base_cycle()[26] == (BoardPos { col: 5, row: 5 }));
    assert(base_cycle()[27] == (BoardPos { col: 6, row: 7 }));
    assert(base_cycle()[28] == (BoardPos { col: 7, row: 5 }));
    assert(base_cycle()[29] == (BoardPos { col: 6, row: 3 }));
    assert(base_cycle()[30] == (BoardPos { col: 7, row: 1 }));
    assert(base_cycle()[31] == (BoardPos { col: 5, row: 0 }));
    assert(base_cycle()[32] == (BoardPos { col: 3, row: 1 }));
    assert(base_cycle()[33] == (BoardPos { col: 1, row: 0 }));
    assert(base_cycle()[34] == (BoardPos { col: 2, row: 2 }));
    assert(base_cycle()[35] == (BoardPos { col: 4, row: 3 }));
    assert(base_cycle()[36] == (BoardPos { col: 2, row: 4 }));
    assert(base_cycle()[37] == (BoardPos { col: 4, row: 5 }));
    assert(base_cycle()[38] == (BoardPos { col: 3, row: 7 }));
    assert(base_cycle()[39] == (BoardPos { col: 1, row: 6 }));
    assert(base_cycle()[40] == (BoardPos { col: 0, row: 4 }));
    assert(base_cycle()[41] == (BoardPos { col: 2, row: 5 }));
    assert(base_cycle()[42] == (BoardPos { col: 0, row: 6 }));
    assert(base_cycle()[43] == (BoardPos { col: 2, row: 7 }));
    assert(base_cycle()[44] == (BoardPos { col: 4, row: 6 }));
    assert(base_cycle()[45] == (BoardPos { col: 3, row: 4 }));
    assert(base_cycle()[46] == (BoardPos { col: 5, row: 3 }));
    assert(base_cycle()[47] == (BoardPos { col: 3, row: 2 }));
    assert(base_cycle()[48] == (BoardPos { col: 4, row: 0 }));
    assert(base_cycle()[49] == (BoardPos { col: 6, row: 1 }));
    assert(base_cycle()[50] == (BoardPos { col: 7, row: 3 }));
    assert(base_cycle()[51] == (BoardPos { col: 5, row: 2 }));
    assert(base_cycle()[52] == (BoardPos { col: 3, row: 3 }));
    assert(base_cycle()[53] == (BoardPos { col: 5, row: 4 }));
    assert(base_cycle()[54] == (BoardPos { col: 4, row: 2 }));
    assert(base_cycle()[55] == (BoardPos { col: 2, row: 3 }));
    assert(base_cycle()[56] == (BoardPos { col: 4, row: 4 }));
    assert(base_cycle()[57] == (BoardPos { col: 6, row: 5 }));
    assert(base_cycle()[58] == (BoardPos { col: 7, row: 7 }));
    assert(base_cycle()[59] == (BoardPos { col: 5, row: 6 }));
    assert(base_cycle()[60] == (BoardPos { col: 3, row: 5 }));
    assert(base_cycle()[61] == (BoardPos { col: 1, row: 4 }));
    assert(base_cycle()[62] == (BoardPos { col: 0, row: 2 }));
    assert(base_cycle()[63] == (BoardPos { col: 2, row: 1 }));
    assert forall|p: BoardPos| p.col < 8 && p.row < 8 implies base_cycle().contains(p) by {
        let c = p.col as int;
        let r = p.row as int;
        assert(c == 0 || c == 1 || c == 2 || c == 3 || c == 4 || c == 5 || c == 6 || c == 7);
        assert(r == 0 || r == 1 || r == 2 || r == 3 || r == 4 || r == 5 || r == 6 || r == 7);
    }
}

/// The hand-laid cycle as runtime data, matching its recorded order.
#[verifier::rlimit(100)]
#[verifier::spinoff_prover]
fn base_cycle_vec() -> (r: Vec<BoardPos>)
    ensures
        r@ == base_cycle(),
{
    proof {
        reveal(base_cycle);
    }
    let mut path: Vec<BoardPos> = Vec::new();
    path.push(BoardPos { col: 0, row: 0 });
    path.push(BoardPos { col: 1, row: 2 });
    path.push(BoardPos { col: 2, row: 0 });
    path.push(BoardPos { col: 0, row: 1 });
    path.push(BoardPos { col: 1, row: 3 });
    path.push(BoardPos { col: 0, row: 5 });
    path.push(BoardPos { col: 1, row: 7 });
    path.push(BoardPos { col: 3, row: 6 });
    path.push(BoardPos { col: 5, row: 7 });
    path.push(BoardPos { col: 7, row: 6 });
    path.push(BoardPos { col: 6, row: 4 });
    path.push(BoardPos { col: 7, row: 2 });
    path.push(BoardPos { col: 6, row: 0 });
    path.push(BoardPos { col: 4, row: 1 });
    path.push(BoardPos { col: 6, row: 2 });
    path.push(BoardPos { col: 7, row: 0 });
    path.push(BoardPos { col: 5, row: 1 });
    path.push(BoardPos { col: 3, row: 0 });
    path.push(BoardPos { col: 1, row: 1 });
    path.push(BoardPos { col: 0, row: 3 });
    path.push(BoardPos { col: 1, row: 5 });
    path.push(BoardPos { col: 0, row: 7 });
    path.push(BoardPos { col: 2, row: 6 });
    path.push(BoardPos { col: 4, row: 7 });
    path.push(BoardPos { col: 6, row: 6 });
    path.push(BoardPos { col: 7, row: 4 });
    path.push(BoardPos { col: 5, row: 5 });
    path.push(BoardPos { col: 6, row: 7 });
    path.push(BoardPos { col: 7, row: 5 });
    path.push(BoardPos { col: 6, row: 3 });
    path.push(BoardPos { col: 7, row: 1 });
    path.push(BoardPos { col: 5, row: 0 });
    path.push(BoardPos { col: 3, row: 1 });
    path.push(BoardPos { col: 1, row: 0 });
    path.push(BoardPos { col: 2, row: 2 });
    path.push(BoardPos { col: 4, row: 3 });
    path.push(BoardPos { col: 2, row: 4 });
    path.push(BoardPos { col: 4, row: 5 });
    path.push(BoardPos { col: 3, row: 7 });
    path.push(BoardPos { col: 1, row: 6 });
    path.push(BoardPos { col: 0, row: 4 });
    path.push(BoardPos { col: 2, row: 5 });
    path.push(BoardPos { col: 0, row: 6 });
    path.push(BoardPos { col: 2, row: 7 });
    path.push(BoardPos { col: 4, row: 6 });
    path.push(BoardPos { col: 3, row: 4 });
    path.push(BoardPos { col: 5, row: 3 });
    path.push(BoardPos { col: 3, row: 2 });
    path.push(BoardPos { col: 4, row: 0 });
    path.push(BoardPos { col: 6, row: 1 });
    path.push(BoardPos { col: 7, row: 3 });
    path.push(BoardPos { col: 5, row: 2 });
    path.push(BoardPos { col: 3, row: 3 });
    path.push(BoardPos { col: 5, row: 4 });
    path.push(BoardPos { col: 4, row: 2 });
    path.push(BoardPos { col: 2, row: 3 });
    path.push(BoardPos { col: 4, row: 4 });
    path.push(BoardPos { col: 6, row: 5 });
    path.push(BoardPos { col: 7, row: 7 });
    path.push(BoardPos { col: 5, row: 6 });
    path.push(BoardPos { col: 3, row: 5 });
    path.push(BoardPos { col: 1, row: 4 });
    path.push(BoardPos { col: 0, row: 2 });
    path.push(BoardPos { col: 2, row: 1 });
    proof {
        assert(path@ =~= base_cycle());
    }
    path
}

/// Lay the hand-recorded 8 x 8 cycle into a fresh graph: the squares doubly
/// linked in order, with one more pair of links closing the cycle between
/// the last square and the origin.
#[verifier::rlimit(100)]
#[verifier::spinoff_prover]
fn build_base_cycle_graph() -> (g: MoveGraph<'static>)
    ensures
        g.wf(),
        g.is_direct(),
        g.width == 8,
        g.height == 8,
        forall|k: int|
            0 <= k < 63 ==> (#[trigger] g.spec_node(base_cycle()[k])).next == Some(
                base_cycle()[k + 1],
            ),
        forall|k: int|
            1 <= k < 64 ==> (#[trigger] g.spec_node(base_cycle()[k])).prev == Some(
                base_cycle()[k - 1],
            ),
        g.spec_node(base_cycle()[63]).next == Some(base_cycle()[0]),
        g.spec_node(base_cycle()[0]).prev == Some(base_cycle()[63]),
{
    proof {
        lemma_base_cycle_facts();
    }
    let path = base_cycle_vec();
    let mut g = MoveGraph::new(8, 8);
    // the pair of links closing the cycle, laid first
    let last = path[63];
    let origin = path[0];
    {
        let n = g.node_mut(last);
        *n.next_mut() = Some(origin);
    }
    {
        let n = g.node_mut(origin);
        *n.prev_mut() = Some(last);
    }
    let mut i: usize = 1;
    while i < 64
        invariant
            1 <= i <= 64,
            path@ == base_cycle(),
            base_cycle().len() == 64,
            base_cycle().no_duplicates(),
            forall|k: int|
                0 <= k < 64 ==> (#[trigger] base_cycle()[k]).col < 8 && base_cycle()[k].row < 8,
            g.wf(),
            g.is_direct(),
            g.width == 8,
            g.height == 8,
            g.spec_node(base_cycle()[63]).next == Some(base_cycle()[0]),
            g.spec_node(base_cycle()[0]).prev == Some(base_cycle()[63]),
            forall|k: int|
                0 <= k < i - 1 ==> (#[trigger] g.spec_node(base_cycle()[k])).next == Some(
                    base_cycle()[k + 1],
                ),
            forall|k: int|
                1 <= k < i ==> (#[trigger] g.spec_node(base_cycle()[k])).prev == Some(
                    base_cycle()[k - 1],
                ),
            forall|k: int|
                i - 1 <= k < 63 ==> (#[trigger] g.spec_node(base_cycle()[k])).next is None,
            forall|k: int|
                i <= k < 64 ==> (#[trigger] g.spec_node(base_cycle()[k])).prev is None,
        decreases 64 - i,
    {
        let prev_pos = path[i - 1];
        let next_pos = path[i];
        {
            let n = g.node_mut(prev_pos);
            *n.next_mut() = Some(next_pos);
        }
        {
            let n = g.node_mut(next_pos);
            *n.prev_mut() = Some(prev_pos);
        }
        i = i + 1;
    }
    g
}

/// The freshly laid cycle holds the hand-laid order as a closed tour from
/// the origin over the whole clean 8 x 8 board.
#[verifier::rlimit(100)]
#[verifier::spinoff_prover]
proof fn lemma_base_cycle_tour(g: MoveGraph<'static>, mask: Matrix2D<bool>)
    requires
        g.wf(),
        g.is_direct(),
        g.width == 8,
        g.height == 8,
        no_dead(mask, 8, 8),
        forall|k: int|
            0 <= k < 63 ==> (#[trigger] g.spec_node(base_cycle()[k])).next == Some(
                base_cycle()[k + 1],
            ),
        forall|k: int|
            1 <= k < 64 ==> (#[trigger] g.spec_node(base_cycle()[k])).prev == Some(
                base_cycle()[k - 1],
            ),
        g.spec_node(base_cycle()[63]).next == Some(base_cycle()[0]),
        g.spec_node(base_cycle()[0]).prev == Some(base_cycle()[63]),
    ensures
        is_closed_tour(g, mask, base_cycle(), BoardPos { col: 0, row: 0 }),
{
    lemma_base_cycle_facts();
    let order = base_cycle();
    assert forall|i: int| 0 <= i < order.len() implies crate::tour::spec_alive(
        g,
        mask,
        #[trigger] order[i],
    ) by {}
    assert forall|p: BoardPos| crate::tour::spec_alive(g, mask, p) implies order.contains(
        p,
    ) by {}
    assert(crate::tour::dead_squares_bare(g, mask));
    assert(crate::tour::tour_core(g, mask, order, BoardPos { col: 0, row: 0 }));
}

/// The known-good closed tour of the classic board, laid out by hand: a
/// full Hamiltonian cycle of the 8 x 8 board's sixty-four squares, rooted
/// at the origin.
pub fn get_8_by_8() -> (g: MoveGraph<'static>)
    ensures
        g.wf(),
        g.is_direct(),
        g.width == 8,
        g.height == 8,
        exists|mask: Matrix2D<bool>, order: Seq<BoardPos>|
            no_dead(mask, 8, 8) && #[trigger] is_closed_tour(
                g,
                mask,
                order,
                BoardPos { col: 0, row: 0 },
            ),
{
    let g = build_base_cycle_graph();
    let mask = build_mode_mask(&Mode::Freeform, BoardSize { width: 8, height: 8 });
    proof {
        assert(no_dead(mask, 8, 8));
        lemma_base_cycle_tour(g, mask);
    }
    g
}

} // verus!
