use vstd::prelude::*;
use crate::board::matrix2d::Matrix2D;
use crate::board_pos::BoardPos;
use crate::board_size::BoardSize;
use crate::knight::Knight;
use crate::move_graph::{Direction, MoveGraph};
use crate::tour::{
    check_closed_tour, check_path_tour, is_closed_tour, is_open_tour, is_path_tour,
    lemma_flip_tour, lemma_tour_links_in_range, lemma_tour_transfer, no_dead,
};
use crate::warnsdorff::cache::{StretchedCache, entry_ok, spec_lookup, spec_stretched_end};
use crate::warnsdorff::mode::{BasicInput, Mode, StructureMode};
use crate::warnsdorff::move_tracker::MoveTracker;

verus! {

/// Where the search begins under each mode.
pub open spec fn spec_mode_start(mode: Mode) -> BoardPos {
    match mode {
        Mode::Basic(b) => b.start,
        Mode::Structured(StructureMode::Closed(skip)) => if skip {
            BoardPos { col: 1, row: 0 }
        } else {
            BoardPos { col: 0, row: 0 }
        },
        Mode::Structured(StructureMode::Stretched(_)) => BoardPos { col: 0, row: 0 },
        Mode::Freeform => BoardPos { col: 0, row: 0 },
    }
}

/// Which squares each mode excludes from the board.
pub open spec fn spec_mode_dead(mode: Mode, p: BoardPos) -> bool {
    match mode {
        Mode::Basic(b) => b.dead_squares@.contains(p),
        Mode::Structured(StructureMode::Closed(skip)) => skip && p == (BoardPos { col: 0, row: 0 }),
        _ => false,
    }
}

/// The designated final square of each mode, where one exists.
pub open spec fn spec_mode_end(mode: Mode) -> Option<BoardPos> {
    match mode {
        Mode::Structured(StructureMode::Closed(_)) => Some(spec_mode_start(mode)),
        Mode::Structured(StructureMode::Stretched(dir)) => Some(spec_stretched_end(dir)),
        _ => None,
    }
}

/// `mask` marks exactly the squares the mode excludes.
pub open spec fn spec_mode_mask(mode: Mode, mask: Matrix2D<bool>, size: BoardSize) -> bool {
    &&& mask.wf()
    &&& mask.w == size.width
    &&& mask.h == size.height
    &&& forall|p: BoardPos|
        mask.spec_in_range(p) ==> #[trigger] mask.spec_at(p) == spec_mode_dead(mode, p)
}

/// A solution of the right kind for the mode, witnessed by a mask of the
/// mode's excluded squares and the visiting order of the tour.
pub open spec fn solved_with(
    mode: Mode,
    size: BoardSize,
    g: MoveGraph<'static>,
    mask: Matrix2D<bool>,
    order: Seq<BoardPos>,
) -> bool {
    &&& spec_mode_mask(mode, mask, size)
    &&& match mode {
        Mode::Structured(StructureMode::Closed(_)) => is_closed_tour(
            g,
            mask,
            order,
            spec_mode_start(mode),
        ),
        Mode::Structured(StructureMode::Stretched(dir)) => is_open_tour(
            g,
            mask,
            order,
            spec_mode_start(mode),
            spec_stretched_end(dir),
        ),
        _ => is_path_tour(g, mask, order, spec_mode_start(mode)),
    }
}

/// What the solver promises of everything it returns: a well-formed owning
/// graph of the requested size holding a tour of the kind the mode asks
/// for, over exactly the squares the mode leaves alive.
pub open spec fn solved_graph_ok(mode: Mode, size: BoardSize, g: MoveGraph<'static>) -> bool {
    &&& g.wf()
    &&& g.is_direct()
    &&& g.width == size.width
    &&& g.height == size.height
    &&& exists|mask: Matrix2D<bool>, order: Seq<BoardPos>|
        #[trigger] solved_with(mode, size, g, mask, order)
}

/// `g` is `h` mirrored across the main diagonal, link for link.
pub open spec fn flip_related<'a>(h: MoveGraph<'a>, g: MoveGraph<'static>) -> bool {
    &&& g.width == h.height
    &&& g.height == h.width
    &&& forall|p: BoardPos|
        h.spec_in_range(p) ==> (#[trigger] g.spec_node(
            crate::board_pos::spec_flip_pos(p),
        )).next == crate::board_pos::spec_flip_opt(h.spec_node(p).next) && g.spec_node(
            crate::board_pos::spec_flip_pos(p),
        ).prev == crate::board_pos::spec_flip_opt(h.spec_node(p).prev)
}

fn mk_false() -> (r: bool)
    ensures
        !r,
{
    false
}

/// The mask of squares a mode excludes, as a grid of flags.
#[verifier::loop_isolation(false)]
pub fn build_mode_mask(mode: &Mode, size: BoardSize) -> (r: Matrix2D<bool>)
    requires
        size.width as int * size.height as int <= usize::MAX,
    ensures
        spec_mode_mask(*mode, r, size),
{
    let mut mask = Matrix2D::new(size.width, size.height, mk_false);
    let ghost m0 = mask;
    proof {
        assert forall|p: BoardPos| mask.spec_in_range(p) implies !#[trigger] mask.spec_at(p) by {
            m0.lemma_index_in_bounds(p);
        }
    }
    match mode {
        Mode::Basic(input) => {
            let n = input.dead_squares.len();
            let mut i: usize = 0;
            while i < n
                invariant
                    i <= n,
                    mask.wf(),
                    mask.w == size.width,
                    mask.h == size.height,
                    forall|p: BoardPos|
                        mask.spec_in_range(p) ==> #[trigger] mask.spec_at(p)
                            == input.dead_squares@.subrange(0, i as int).contains(p),
                decreases n - i,
            {
                let p = input.dead_squares[i];
                let ghost b0 = mask;
                if mask.is_in_range(p) {
                    let cell = mask.at_mut(p);
                    *cell = true;
                }
                proof {
                    let s_old = input.dead_squares@.subrange(0, i as int);
                    let s_new = input.dead_squares@.subrange(0, i as int + 1);
                    assert forall|q: BoardPos| mask.spec_in_range(q) implies #[trigger] mask.spec_at(
                        q,
                    ) == s_new.contains(q) by {
                        assert(b0.spec_at(q) == s_old.contains(q));
                        if q != p {
                            assert(mask.spec_at(q) == b0.spec_at(q));
                        }
                        if s_old.contains(q) {
                            let k = choose|k: int| 0 <= k < s_old.len() && s_old[k] == q;
                            assert(s_new[k] == q);
                            assert(s_new.contains(q));
                        }
                        if q == p {
                            assert(s_new[i as int] == q);
                            assert(s_new.contains(q));
                        }
                        if s_new.contains(q) && q != p {
                            let k = choose|k: int| 0 <= k < s_new.len() && s_new[k] == q;
                            assert(k < i);
                            assert(s_old[k] == q);
                            assert(s_old.contains(q));
                        }
                    }
                }
                i = i + 1;
            }
            proof {
                assert(input.dead_squares@.subrange(0, n as int) =~= input.dead_squares@);
            }
        },
        Mode::Structured(StructureMode::Closed(skip)) => {
            if *skip {
                let origin = BoardPos { col: 0, row: 0 };
                if mask.is_in_range(origin) {
                    let cell = mask.at_mut(origin);
                    *cell = true;
                }
            }
        },
        _ => {},
    }
    mask
}

/// All partner lists hold only squares of the board.
pub open spec fn predet_wf(m: Matrix2D<Vec<BoardPos>>, w: u32, h: u32) -> bool {
    &&& m.wf()
    &&& m.w == w
    &&& m.h == h
    &&& forall|p: BoardPos, i: int|
        m.spec_in_range(p) && 0 <= i < m.spec_at(p)@.len() ==> (#[trigger] m.spec_at(p)@[i]).col
            < w && m.spec_at(p)@[i].row < h
}

fn mk_empty_list() -> (r: Vec<BoardPos>)
    ensures
        r@.len() == 0,
{
    Vec::new()
}

fn vec_contains(v: &Vec<BoardPos>, x: BoardPos) -> (r: bool)
    ensures
        r == v@.contains(x),
{
    let n = v.len();
    let mut i: usize = 0;
    while i < n
        invariant
            i <= n,
            n == v@.len(),
            forall|k: int| 0 <= k < i ==> v@[k] != x,
        decreases n - i,
    {
        if v[i] == x {
            return true;
        }
        i = i + 1;
    }
    proof {
        if v@.contains(x) {
            let k = choose|k: int| 0 <= k < v@.len() && v@[k] == x;
        }
    }
    false
}

/// Record that the edge between `from` and `to` is fixed in advance, in one
/// direction. Already-recorded edges stay recorded.
#[verifier::loop_isolation(false)]
fn map_add(map: &mut Matrix2D<Vec<BoardPos>>, size: BoardSize, from: BoardPos, to: BoardPos)
    requires
        predet_wf(*old(map), size.width, size.height),
        from.col < size.width,
        from.row < size.height,
        to.col < size.width,
        to.row < size.height,
    ensures
        predet_wf(*final(map), size.width, size.height),
        final(map).spec_at(from)@.contains(to),
        forall|p: BoardPos, x: BoardPos|
            old(map).spec_in_range(p) && (#[trigger] old(map).spec_at(p)@.contains(x))
                ==> final(map).spec_at(p)@.contains(x),
        forall|p: BoardPos, x: BoardPos|
            old(map).spec_in_range(p) && (#[trigger] final(map).spec_at(p)@.contains(x)) ==> old(
                map,
            ).spec_at(p)@.contains(x) || (p == from && x == to),
{
    let ghost pre = *map;
    let cell = map.at_mut(from);
    if !vec_contains(cell, to) {
        let ghost c0 = cell@;
        cell.push(to);
        proof {
            assert forall|i: int| 0 <= i < cell@.len() implies (#[trigger] cell@[i]).col
                < size.width && cell@[i].row < size.height by {
                if i < c0.len() {
                    assert(cell@[i] == c0[i]);
                    assert(c0 == pre.spec_at(from)@);
                }
            }
        }
    }
    proof {
        assert forall|p: BoardPos, i: int|
            map.spec_in_range(p) && 0 <= i < map.spec_at(p)@.len() implies (
        #[trigger] map.spec_at(p)@[i]).col < size.width && map.spec_at(p)@[i].row
            < size.height by {
            if p != from {
                assert(map.spec_at(p) == pre.spec_at(p));
            }
        }
        assert(map.spec_at(from)@.contains(to)) by {
            if pre.spec_at(from)@.contains(to) {
                let k = choose|k: int|
                    0 <= k < pre.spec_at(from)@.len() && pre.spec_at(from)@[k] == to;
                assert(map.spec_at(from)@[k] == to);
            } else {
                assert(map.spec_at(from)@[map.spec_at(from)@.len() - 1] == to);
            }
        }
        assert forall|p: BoardPos, x: BoardPos|
            pre.spec_in_range(p) && (#[trigger] pre.spec_at(p)@.contains(x)) implies map.spec_at(
            p,
        )@.contains(x) by {
            let k = choose|k: int| 0 <= k < pre.spec_at(p)@.len() && pre.spec_at(p)@[k] == x;
            if p == from {
                assert(map.spec_at(p)@[k] == x);
            } else {
                assert(map.spec_at(p) == pre.spec_at(p));
            }
        }
        assert forall|p: BoardPos, x: BoardPos|
            pre.spec_in_range(p) && (#[trigger] map.spec_at(p)@.contains(x)) implies pre.spec_at(
            p,
        )@.contains(x) || (p == from && x == to) by {
            if p != from {
                assert(map.spec_at(p) == pre.spec_at(p));
            } else {
                if map.spec_at(from)@ == pre.spec_at(from)@ {
                } else {
                    assert(map.spec_at(from)@ == pre.spec_at(from)@.push(to));
                    crate::tour::lemma_contains_push(pre.spec_at(from)@, to, x);
                }
            }
        }
    }
}

/// The corner square selected by the two axis signs: +1 anchors at the low
/// edge of that axis, -1 at the high edge.
pub open spec fn spec_corner(size: BoardSize, wm: int, hm: int) -> BoardPos {
    BoardPos {
        col: if wm == 1 {
            0
        } else {
            (size.width - 1) as u32
        },
        row: if hm == 1 {
            0
        } else {
            (size.height - 1) as u32
        },
    }
}

/// When both squares exist, each lists the other as a fixed partner.
pub open spec fn pair_connected(
    m: Matrix2D<Vec<BoardPos>>,
    a: Option<BoardPos>,
    b: Option<BoardPos>,
) -> bool {
    a is Some && b is Some ==> m.spec_at(a.unwrap())@.contains(b.unwrap()) && m.spec_at(
        b.unwrap(),
    )@.contains(a.unwrap())
}

/// `(p, x)` is the pair `(a, b)` read in either direction.
pub open spec fn pair_is(a: Option<BoardPos>, b: Option<BoardPos>, p: BoardPos, x: BoardPos) -> bool {
    (a == Some(p) && b == Some(x)) || (a == Some(x) && b == Some(p))
}

/// `(p, x)` is one of the fixed edges of the corner pattern selected by the
/// two axis signs: the two chained boundary pairs, and, when asked, the two
/// edges into the corner square itself.
pub open spec fn corner_pattern_pair(
    size: BoardSize,
    wm: int,
    hm: int,
    connect_pos: bool,
    p: BoardPos,
    x: BoardPos,
) -> bool {
    let pos = spec_corner(size, wm, hm);
    let w = size.width as int;
    let h = size.height as int;
    ||| pair_is(
        crate::board_pos::spec_translate(pos, 0, hm, w, h),
        crate::board_pos::spec_translate(pos, 2 * wm, 0, w, h),
        p,
        x,
    )
    ||| pair_is(
        crate::board_pos::spec_translate(pos, 0, 2 * hm, w, h),
        crate::board_pos::spec_translate(pos, wm, 0, w, h),
        p,
        x,
    )
    ||| (connect_pos && pair_is(
        crate::board_pos::spec_translate(pos, 2 * wm, hm, w, h),
        Some(pos),
        p,
        x,
    ))
    ||| (connect_pos && pair_is(
        crate::board_pos::spec_translate(pos, wm, 2 * hm, w, h),
        Some(pos),
        p,
        x,
    ))
}

/// A square of the diagonal end-point chain: every second square out from
/// the designated exit, one knight move at a time.
pub open spec fn on_end_chain(direction: Direction, p: BoardPos) -> bool {
    match direction {
        Direction::Horizontal => p.col % 2 == 0 && p.row as int == p.col as int / 2 + 1,
        Direction::Vertical => p.row % 2 == 0 && p.col as int == p.row as int / 2 + 1,
    }
}

/// `(p, x)` is a pair of consecutive squares of the end-point chain.
pub open spec fn end_chain_pair(
    direction: Direction,
    size: BoardSize,
    p: BoardPos,
    x: BoardPos,
) -> bool {
    let w = size.width as int;
    let h = size.height as int;
    let dc: int = match direction {
        Direction::Horizontal => 2,
        Direction::Vertical => 1,
    };
    let dr: int = match direction {
        Direction::Horizontal => 1,
        Direction::Vertical => 2,
    };
    ||| (on_end_chain(direction, p) && crate::board_pos::spec_translate(p, dc, dr, w, h) == Some(x))
    ||| (on_end_chain(direction, x) && crate::board_pos::spec_translate(x, dc, dr, w, h) == Some(p))
}

/// The whole fixed pattern of a mode: every edge the mode ever records is
/// one of its corner-pattern pairs or, for a stretched tile, a pair of its
/// end-point chain. A free search records nothing.
pub open spec fn predet_pattern_pair(mode: Mode, size: BoardSize, p: BoardPos, x: BoardPos) -> bool {
    match mode {
        Mode::Basic(_) => false,
        Mode::Structured(StructureMode::Closed(skip)) => corner_pattern_pair(size, 1, 1, !skip, p, x)
            || corner_pattern_pair(size, -1, 1, true, p, x) || corner_pattern_pair(
            size,
            1,
            -1,
            true,
            p,
            x,
        ),
        Mode::Structured(StructureMode::Stretched(dir)) => corner_pattern_pair(
            size,
            -1,
            1,
            true,
            p,
            x,
        ) || corner_pattern_pair(size, 1, -1, true, p, x) || end_chain_pair(dir, size, p, x),
        Mode::Freeform => corner_pattern_pair(size, -1, 1, true, p, x) || corner_pattern_pair(
            size,
            1,
            -1,
            true,
            p,
            x,
        ),
    }
}

/// The fixed edges beside one corner stand in the map: the two chained
/// boundary pairs, and, when asked, the two edges into the corner square
/// itself.
pub open spec fn corner_connected(
    m: Matrix2D<Vec<BoardPos>>,
    size: BoardSize,
    wm: int,
    hm: int,
    connect_pos: bool,
) -> bool {
    let pos = spec_corner(size, wm, hm);
    let w = size.width as int;
    let h = size.height as int;
    &&& pair_connected(
        m,
        crate::board_pos::spec_translate(pos, 0, hm, w, h),
        crate::board_pos::spec_translate(pos, 2 * wm, 0, w, h),
    )
    &&& pair_connected(
        m,
        crate::board_pos::spec_translate(pos, 0, 2 * hm, w, h),
        crate::board_pos::spec_translate(pos, wm, 0, w, h),
    )
    &&& connect_pos ==> pair_connected(
        m,
        crate::board_pos::spec_translate(pos, 2 * wm, hm, w, h),
        Some(pos),
    ) && pair_connected(m, crate::board_pos::spec_translate(pos, wm, 2 * hm, w, h), Some(pos))
}

/// Fix both directions of a predetermined edge, when both squares exist.
fn map_add_pair(
    map: &mut Matrix2D<Vec<BoardPos>>,
    size: BoardSize,
    a: Option<BoardPos>,
    b: Option<BoardPos>,
)
    requires
        predet_wf(*old(map), size.width, size.height),
        match a {
            Some(p) => p.col < size.width && p.row < size.height,
            None => true,
        },
        match b {
            Some(p) => p.col < size.width && p.row < size.height,
            None => true,
        },
    ensures
        predet_wf(*final(map), size.width, size.height),
        pair_connected(*final(map), a, b),
        forall|p: BoardPos, x: BoardPos|
            old(map).spec_in_range(p) && (#[trigger] old(map).spec_at(p)@.contains(x))
                ==> final(map).spec_at(p)@.contains(x),
        forall|p: BoardPos, x: BoardPos|
            old(map).spec_in_range(p) && (#[trigger] final(map).spec_at(p)@.contains(x)) ==> old(
                map,
            ).spec_at(p)@.contains(x) || pair_is(a, b, p, x),
{
    if let (Some(x), Some(y)) = (a, b) {
        map_add(map, size, x, y);
        let ghost mid = *map;
        map_add(map, size, y, x);
        proof {
            assert forall|p: BoardPos, x2: BoardPos|
                old(map).spec_in_range(p) && (#[trigger] map.spec_at(p)@.contains(x2)) implies old(
                map,
            ).spec_at(p)@.contains(x2) || pair_is(a, b, p, x2) by {
                assert(mid.spec_at(p)@.contains(x2) || (p == y && x2 == x));
            }
        }
    }
}

/// Recorded corner edges survive later recordings.
proof fn lemma_corner_connected_monotone(
    m1: Matrix2D<Vec<BoardPos>>,
    m2: Matrix2D<Vec<BoardPos>>,
    size: BoardSize,
    wm: int,
    hm: int,
    connect_pos: bool,
)
    requires
        m1.w == size.width,
        m1.h == size.height,
        corner_connected(m1, size, wm, hm, connect_pos),
        forall|p: BoardPos, x: BoardPos|
            m1.spec_in_range(p) && (#[trigger] m1.spec_at(p)@.contains(x)) ==> m2.spec_at(
                p,
            )@.contains(x),
    ensures
        corner_connected(m2, size, wm, hm, connect_pos),
{
}

/// Fix the boundary edges near one tile corner. `wm` and `hm` select the
/// corner: +1 anchors at the low edge of that axis, -1 at the high edge.
/// `connect_pos` also fixes the two edges into the corner square itself.
fn preconnect_one_corner(
    map: &mut Matrix2D<Vec<BoardPos>>,
    size: BoardSize,
    wm: i64,
    hm: i64,
    connect_pos: bool,
)
    requires
        predet_wf(*old(map), size.width, size.height),
        wm == 1 || wm == -1,
        hm == 1 || hm == -1,
        size.width >= 1,
        size.height >= 1,
    ensures
        predet_wf(*final(map), size.width, size.height),
        corner_connected(*final(map), size, wm as int, hm as int, connect_pos),
        forall|p: BoardPos, x: BoardPos|
            old(map).spec_in_range(p) && (#[trigger] old(map).spec_at(p)@.contains(x))
                ==> final(map).spec_at(p)@.contains(x),
        forall|p: BoardPos, x: BoardPos|
            old(map).spec_in_range(p) && (#[trigger] final(map).spec_at(p)@.contains(x)) ==> old(
                map,
            ).spec_at(p)@.contains(x) || corner_pattern_pair(
                size,
                wm as int,
                hm as int,
                connect_pos,
                p,
                x,
            ),
{
    let pos = BoardPos {
        col: if wm == 1 {
            0
        } else {
            size.width - 1
        },
        row: if hm == 1 {
            0
        } else {
            size.height - 1
        },
    };
    proof {
        assert(pos == spec_corner(size, wm as int, hm as int));
    }
    // the two chained edge pairs beside the corner
    let next = pos.try_translate_on_board(2 * wm, 0, size);
    let current = pos.try_translate_on_board(0, hm, size);
    map_add_pair(map, size, current, next);
    let ghost m1 = *map;
    let next = pos.try_translate_on_board(wm, 0, size);
    let current = pos.try_translate_on_board(0, 2 * hm, size);
    map_add_pair(map, size, current, next);
    let ghost m2 = *map;
    if connect_pos {
        // the two edges into the corner square
        let prev = pos.try_translate_on_board(2 * wm, hm, size);
        map_add_pair(map, size, prev, Some(pos));
        let ghost m3 = *map;
        let prev = pos.try_translate_on_board(wm, 2 * hm, size);
        map_add_pair(map, size, prev, Some(pos));
        proof {
            assert forall|p: BoardPos, x: BoardPos|
                old(map).spec_in_range(p) && (#[trigger] map.spec_at(p)@.contains(x)) implies old(
                map,
            ).spec_at(p)@.contains(x) || corner_pattern_pair(
                size,
                wm as int,
                hm as int,
                connect_pos,
                p,
                x,
            ) by {
                assert(m3.spec_in_range(p) && m2.spec_in_range(p) && m1.spec_in_range(p));
            }
        }
    } else {
        proof {
            assert forall|p: BoardPos, x: BoardPos|
                old(map).spec_in_range(p) && (#[trigger] map.spec_at(p)@.contains(x)) implies old(
                map,
            ).spec_at(p)@.contains(x) || corner_pattern_pair(
                size,
                wm as int,
                hm as int,
                connect_pos,
                p,
                x,
            ) by {
                assert(m1.spec_in_range(p));
            }
        }
    }
}

/// Fix a diagonal chain of edges from the designated end point toward the
/// middle of the tile, so the search cannot strand the exit.
fn preconnect_end_point(map: &mut Matrix2D<Vec<BoardPos>>, direction: Direction, size: BoardSize)
    requires
        predet_wf(*old(map), size.width, size.height),
    ensures
        predet_wf(*final(map), size.width, size.height),
        forall|p: BoardPos, x: BoardPos|
            old(map).spec_in_range(p) && (#[trigger] old(map).spec_at(p)@.contains(x))
                ==> final(map).spec_at(p)@.contains(x),
        forall|p: BoardPos, x: BoardPos|
            old(map).spec_in_range(p) && (#[trigger] final(map).spec_at(p)@.contains(x)) ==> old(
                map,
            ).spec_at(p)@.contains(x) || end_chain_pair(direction, size, p, x),
{
    let mx = if size.width > size.height {
        size.width
    } else {
        size.height
    };
    let mut half = mx / 2;
    if half > size.width {
        half = size.width;
    }
    if half > size.height {
        half = size.height;
    }
    if half < 5 {
        // small tile: the end point needs no preconnection
        return ;
    }
    let (start, oc, orr): (BoardPos, i64, i64) = match direction {
        Direction::Horizontal => (BoardPos { col: 0, row: 1 }, 2, 1),
        Direction::Vertical => (BoardPos { col: 1, row: 0 }, 1, 2),
    };
    let mut prev = start;
    proof {
        assert(on_end_chain(direction, start));
        assert((oc as int, orr as int) == match direction {
            Direction::Horizontal => (2int, 1int),
            Direction::Vertical => (1int, 2int),
        });
    }
    loop
        invariant_except_break
            predet_wf(*map, size.width, size.height),
            old(map).w == size.width,
            old(map).h == size.height,
            prev.col < size.width,
            prev.row < size.height,
            oc == 2 && orr == 1 || oc == 1 && orr == 2,
            (oc as int, orr as int) == (match direction {
                Direction::Horizontal => (2int, 1int),
                Direction::Vertical => (1int, 2int),
            }),
            on_end_chain(direction, prev),
            forall|p: BoardPos, x: BoardPos|
                old(map).spec_in_range(p) && (#[trigger] old(map).spec_at(p)@.contains(x))
                    ==> map.spec_at(p)@.contains(x),
            forall|p: BoardPos, x: BoardPos|
                old(map).spec_in_range(p) && (#[trigger] map.spec_at(p)@.contains(x)) ==> old(
                    map,
                ).spec_at(p)@.contains(x) || end_chain_pair(direction, size, p, x),
        ensures
            predet_wf(*map, size.width, size.height),
            forall|p: BoardPos, x: BoardPos|
                old(map).spec_in_range(p) && (#[trigger] old(map).spec_at(p)@.contains(x))
                    ==> map.spec_at(p)@.contains(x),
            forall|p: BoardPos, x: BoardPos|
                old(map).spec_in_range(p) && (#[trigger] map.spec_at(p)@.contains(x)) ==> old(
                    map,
                ).spec_at(p)@.contains(x) || end_chain_pair(direction, size, p, x),
        decreases size.width - prev.col,
    {
        let ghost mentry = *map;
        if let Some(next) = prev.try_translate_on_board(oc, orr, size) {
            proof {
                assert(end_chain_pair(direction, size, prev, next));
                assert(end_chain_pair(direction, size, next, prev));
                assert(on_end_chain(direction, next));
            }
            map_add(map, size, prev, next);
            let ghost mmid = *map;
            map_add(map, size, next, prev);
            proof {
                assert forall|p: BoardPos, x: BoardPos|
                    old(map).spec_in_range(p) && (#[trigger] old(map).spec_at(p)@.contains(x))
                        implies map.spec_at(p)@.contains(x) by {
                    assert(mentry.spec_in_range(p));
                    assert(mentry.spec_at(p)@.contains(x));
                    assert(mmid.spec_in_range(p));
                    assert(mmid.spec_at(p)@.contains(x));
                }
                assert forall|p: BoardPos, x: BoardPos|
                    old(map).spec_in_range(p) && (#[trigger] map.spec_at(p)@.contains(x)) implies
                    old(map).spec_at(p)@.contains(x) || end_chain_pair(direction, size, p, x) by {
                    assert(mmid.spec_in_range(p) && mentry.spec_in_range(p));
                    assert(mmid.spec_at(p)@.contains(x) || (p == next && x == prev));
                }
            }
            prev = next;
            if prev.col >= half && prev.row >= half {
                break ;
            }
        } else {
            break ;
        }
    }
}

/// The edges fixed in advance for the mode: corner preconnections for the
/// structured modes, and the end-point chain for stretched tiles.
#[verifier::rlimit(100)]
pub fn preconnect_corners(mode: &Mode, size: BoardSize) -> (r: Matrix2D<Vec<BoardPos>>)
    requires
        size.width as int * size.height as int <= usize::MAX,
    ensures
        predet_wf(r, size.width, size.height),
        (match *mode {
            Mode::Basic(_) => forall|p: BoardPos|
                r.spec_in_range(p) ==> (#[trigger] r.spec_at(p))@.len() == 0,
            Mode::Structured(StructureMode::Closed(skip)) => size.width >= 1 && size.height >= 1
                ==> corner_connected(r, size, 1, 1, !skip) && corner_connected(r, size, -1, 1, true)
                && corner_connected(r, size, 1, -1, true),
            _ => size.width >= 1 && size.height >= 1 ==> corner_connected(r, size, -1, 1, true)
                && corner_connected(r, size, 1, -1, true),
        }),
        forall|p: BoardPos, x: BoardPos|
            r.spec_in_range(p) && (#[trigger] r.spec_at(p)@.contains(x)) ==> predet_pattern_pair(
                *mode,
                size,
                p,
                x,
            ),
{
    let mut map = Matrix2D::new(size.width, size.height, mk_empty_list);
    proof {
        assert forall|p: BoardPos, i: int|
            map.spec_in_range(p) && 0 <= i < map.spec_at(p)@.len() implies (
        #[trigger] map.spec_at(p)@[i]).col < size.width && map.spec_at(p)@[i].row
            < size.height by {
            map.lemma_index_in_bounds(p);
        }
        assert forall|p: BoardPos| map.spec_in_range(p) implies (#[trigger] map.spec_at(p))@.len()
            == 0 by {
            map.lemma_index_in_bounds(p);
        }
    }
    let (closed_corner, connect_origin, stretch_dir): (bool, bool, Option<Direction>) =
        match mode {
        Mode::Basic(_) => {
            return map;
        },
        Mode::Structured(StructureMode::Closed(skip)) => (true, !*skip, None),
        Mode::Structured(StructureMode::Stretched(d)) => (false, false, Some(*d)),
        Mode::Freeform => (false, false, None),
    };
    let ghost m0 = map;
    if size.width >= 1 && size.height >= 1 {
        if closed_corner {
            preconnect_one_corner(&mut map, size, 1, 1, connect_origin);
        }
        let ghost m1 = map;
        preconnect_one_corner(&mut map, size, -1, 1, true);
        let ghost m2 = map;
        preconnect_one_corner(&mut map, size, 1, -1, true);
        proof {
            if closed_corner {
                lemma_corner_connected_monotone(
                    m1,
                    m2,
                    size,
                    1,
                    1,
                    connect_origin,
                );
                lemma_corner_connected_monotone(m2, map, size, 1, 1, connect_origin);
            }
            lemma_corner_connected_monotone(m2, map, size, -1, 1, true);
            assert forall|p: BoardPos, x: BoardPos|
                map.spec_in_range(p) && (#[trigger] map.spec_at(p)@.contains(x)) implies (
            closed_corner && corner_pattern_pair(size, 1, 1, connect_origin, p, x))
                || corner_pattern_pair(size, -1, 1, true, p, x) || corner_pattern_pair(
                size,
                1,
                -1,
                true,
                p,
                x,
            ) by {
                assert(m0.spec_in_range(p) && m1.spec_in_range(p) && m2.spec_in_range(p));
                assert(m2.spec_at(p)@.contains(x) || corner_pattern_pair(size, 1, -1, true, p, x));
                assert(m0.spec_at(p)@.len() == 0);
            }
        }
    }
    let ghost m3 = map;
    if let Some(direction) = stretch_dir {
        preconnect_end_point(&mut map, direction, size);
    }
    proof {
        if size.width >= 1 && size.height >= 1 {
            if closed_corner {
                lemma_corner_connected_monotone(m3, map, size, 1, 1, connect_origin);
            }
            lemma_corner_connected_monotone(m3, map, size, -1, 1, true);
            lemma_corner_connected_monotone(m3, map, size, 1, -1, true);
        }
        assert forall|p: BoardPos, x: BoardPos|
            map.spec_in_range(p) && (#[trigger] map.spec_at(p)@.contains(x)) implies
            predet_pattern_pair(*mode, size, p, x) by {
            assert(m3.spec_in_range(p) && m0.spec_in_range(p));
            assert(m0.spec_at(p)@.len() == 0);
            if stretch_dir is Some {
                assert(m3.spec_at(p)@.contains(x) || end_chain_pair(
                    stretch_dir.unwrap(),
                    size,
                    p,
                    x,
                ));
            } else {
                assert(m3.spec_at(p)@.contains(x));
            }
        }
    }
    map
}

/// The search's per-step admission rule. A candidate square is reachable
/// when it is the forced target of the final stretch, or an unvisited live
/// square of the board that respects every predetermined edge: a move along
/// a fixed edge is forced, a move into the middle of a still-open two-edge
/// chain is forbidden, and a fixed edge into the end point may not be spent
/// early.
struct ReachabilityChecker<'a, 'g> {
    target: Option<BoardPos>,
    end_point: Option<BoardPos>,
    dead: &'a Matrix2D<bool>,
    graph: &'a MoveGraph<'g>,
    predetermined: &'a Matrix2D<Vec<BoardPos>>,
    start: BoardPos,
    move_to_end_allowed: bool,
}

impl<'a, 'g> ReachabilityChecker<'a, 'g> {
    spec fn wf(&self) -> bool {
        &&& self.graph.wf()
        &&& self.dead.wf()
        &&& self.dead.w == self.graph.width
        &&& self.dead.h == self.graph.height
        &&& predet_wf(*self.predetermined, self.graph.width, self.graph.height)
    }

    /// A candidate the search may move to at all: an unvisited live square
    /// of the board that is not the move's own source, the global start, or
    /// a premature visit to the designated end. The predetermined-edge
    /// rules only restrict the admissible candidates further.
    spec fn spec_admissible(&self, from: BoardPos, pos: BoardPos) -> bool {
        &&& pos.col < self.graph.width
        &&& pos.row < self.graph.height
        &&& !self.dead.spec_at(pos)
        &&& self.graph.spec_node(pos).prev is None
        &&& pos != from
        &&& pos != self.start
        &&& self.end_point != Some(pos)
    }

    /// A fixed partner of a candidate square that still matters there: one
    /// not yet visited, or the move's own source, or the designated end.
    spec fn spec_keeps(&self, from: BoardPos, x: BoardPos) -> bool {
        ||| self.graph.spec_node(x).prev is None
        ||| x == from
        ||| self.end_point == Some(x)
    }

    /// How many entries of a partner list still matter.
    spec fn spec_count_kept(&self, from: BoardPos, s: Seq<BoardPos>) -> int
        decreases s.len(),
    {
        if s.len() == 0 {
            0
        } else {
            self.spec_count_kept(from, s.drop_last()) + if self.spec_keeps(from, s.last()) {
                1int
            } else {
                0int
            }
        }
    }

    /// Every fixed partner of the source square is already visited.
    spec fn spec_partners_spent(&self, from: BoardPos) -> bool {
        forall|i: int|
            0 <= i < self.predetermined.spec_at(from)@.len() ==> self.graph.spec_node(
                #[trigger] self.predetermined.spec_at(from)@[i],
            ).prev is Some
    }

    /// The admission rule in full. With a hard target set, only the target
    /// is accepted. Otherwise a candidate must be admissible at all, and the
    /// predetermined edges then decide: a move along a fixed edge is forced;
    /// a square whose fixed partners leave more than one still open may not
    /// be entered from an unrelated square; a fixed edge into the end point
    /// may not be spent before the final stretch; and a preconnected source
    /// square may only be left once all its fixed partners are visited.
    spec fn spec_reachable(&self, from: BoardPos, pos: BoardPos) -> bool {
        if self.target is Some {
            pos == self.target.unwrap()
        } else if !self.spec_admissible(from, pos) {
            false
        } else {
            let partners = self.predetermined.spec_at(pos)@;
            if partners.contains(from) {
                true
            } else if self.spec_count_kept(from, partners) > 1 {
                false
            } else if self.end_point is Some && !self.move_to_end_allowed && partners.contains(
                self.end_point.unwrap(),
            ) {
                false
            } else if from.col < self.graph.width && from.row < self.graph.height
                && self.predetermined.spec_at(from)@.len() > 0 {
                self.spec_partners_spent(from)
            } else {
                true
            }
        }
    }

    #[verifier::loop_isolation(false)]
    fn reachable(&self, from: BoardPos, pos: BoardPos) -> (r: bool)
        requires
            self.wf(),
        ensures
            r == self.spec_reachable(from, pos),
    {
        if let Some(target) = self.target {
            return pos == target;
        }
        if let Some(end_point) = self.end_point {
            if pos == end_point {
                return false;
            }
        }
        if from == pos || self.start == pos {
            return false;
        }
        if pos.col >= self.graph.width() || pos.row >= self.graph.height() {
            return false;
        }
        if *self.dead.at(pos) {
            return false;
        }
        if self.graph.node(pos).prev().is_some() {
            // already visited
            return false;
        }
        proof {
            assert(self.spec_admissible(from, pos));
        }
        let partners = self.predetermined.at(pos);
        let pn = partners.len();
        if pn > 0 {
            // keep only partners that are still open, plus the move's own
            // source and the designated end point
            let mut kept: usize = 0;
            let mut kept_from = false;
            let mut kept_end = false;
            let mut i: usize = 0;
            proof {
                assert(partners@.subrange(0, 0) =~= Seq::<BoardPos>::empty());
            }
            while i < pn
                invariant
                    i <= pn,
                    pn == partners@.len(),
                    kept <= i,
                    partners == self.predetermined.spec_at(pos),
                    kept == self.spec_count_kept(from, partners@.subrange(0, i as int)),
                    kept_from == partners@.subrange(0, i as int).contains(from),
                    kept_end == (self.end_point is Some && partners@.subrange(
                        0,
                        i as int,
                    ).contains(self.end_point.unwrap())),
                decreases pn - i,
            {
                let ghost pre = partners@.subrange(0, i as int);
                let x = partners[i];
                let keep_open = !self.graph.node(x).prev().is_some();
                let keep = keep_open || x == from || (match self.end_point {
                    Some(e) => x == e,
                    None => false,
                });
                if keep {
                    kept = kept + 1;
                    if x == from {
                        kept_from = true;
                    }
                    if let Some(e) = self.end_point {
                        if x == e {
                            kept_end = true;
                        }
                    }
                }
                proof {
                    let cur = partners@.subrange(0, i as int + 1);
                    assert(cur.drop_last() =~= pre);
                    assert(cur.last() == partners@[i as int]);
                    assert(keep == self.spec_keeps(from, x));
                    assert(cur =~= pre.push(partners@[i as int]));
                    crate::tour::lemma_contains_push(pre, partners@[i as int], from);
                    if let Some(e) = self.end_point {
                        crate::tour::lemma_contains_push(pre, partners@[i as int], e);
                    }
                }
                i = i + 1;
            }
            proof {
                assert(partners@.subrange(0, pn as int) =~= partners@);
            }
            if kept_from {
                // moving along a predetermined edge
                return true;
            }
            if kept > 1 {
                // an unrelated square may not take the middle of a chain
                return false;
            }
            if self.end_point.is_some() {
                if !self.move_to_end_allowed && kept_end {
                    // too early to spend the edge into the end point
                    return false;
                }
            }
        } else {
            proof {
                assert(partners@.subrange(0, pn as int) =~= partners@);
                assert(partners@.len() == 0);
                assert(!partners@.contains(from));
                assert(self.spec_count_kept(from, partners@) == 0);
            }
        }
        if from.col < self.graph.width() && from.row < self.graph.height() {
            let from_partners = self.predetermined.at(from);
            let fn_ = from_partners.len();
            if fn_ > 0 {
                // leaving a preconnected square is allowed only once all its
                // fixed partners are spent
                let mut all_occupied = true;
                let mut i: usize = 0;
                while i < fn_
                    invariant
                        i <= fn_,
                        fn_ == from_partners@.len(),
                        from_partners == self.predetermined.spec_at(from),
                        all_occupied == (forall|k: int|
                            0 <= k < i ==> self.graph.spec_node(
                                #[trigger] from_partners@[k],
                            ).prev is Some),
                    decreases fn_ - i,
                {
                    let x = from_partners[i];
                    if !self.graph.node(x).prev().is_some() {
                        all_occupied = false;
                    }
                    i = i + 1;
                }
                proof {
                    assert(all_occupied == self.spec_partners_spent(from));
                }
                return all_occupied;
            }
        }
        true
    }
}

/// How many entries of the buffer are not excluded.
pub open spec fn spec_count_alive(s: Seq<bool>) -> int
    decreases s.len(),
{
    if s.len() == 0 {
        0
    } else {
        spec_count_alive(s.drop_last()) + if s.last() {
            0int
        } else {
            1int
        }
    }
}

proof fn lemma_count_alive_le_len(s: Seq<bool>)
    ensures
        0 <= spec_count_alive(s) <= s.len(),
    decreases s.len(),
{
    if s.len() > 0 {
        lemma_count_alive_le_len(s.drop_last());
    }
}

/// One live entry makes the count positive.
proof fn lemma_count_alive_pos(s: Seq<bool>, i: int)
    requires
        0 <= i < s.len(),
        !s[i],
    ensures
        spec_count_alive(s) >= 1,
    decreases s.len(),
{
    lemma_count_alive_le_len(s.drop_last());
    if i < s.len() - 1 {
        assert(s.drop_last()[i] == s[i]);
        lemma_count_alive_pos(s.drop_last(), i);
    }
}

/// Two distinct live entries make the count at least two.
proof fn lemma_count_alive_two(s: Seq<bool>, i: int, j: int)
    requires
        0 <= i < j < s.len(),
        !s[i],
        !s[j],
    ensures
        spec_count_alive(s) >= 2,
    decreases s.len(),
{
    if j == s.len() - 1 {
        assert(s.drop_last()[i] == s[i]);
        lemma_count_alive_pos(s.drop_last(), i);
    } else {
        assert(s.drop_last()[i] == s[i]);
        assert(s.drop_last()[j] == s[j]);
        lemma_count_alive_two(s.drop_last(), i, j);
    }
}

/// Two distinct live squares make the live count at least two.
proof fn lemma_count_alive_two_positions(mask: Matrix2D<bool>, p: BoardPos, q: BoardPos)
    requires
        mask.wf(),
        mask.spec_in_range(p),
        mask.spec_in_range(q),
        p != q,
        !mask.spec_at(p),
        !mask.spec_at(q),
    ensures
        spec_count_alive(mask.data@) >= 2,
{
    mask.lemma_index_in_bounds(p);
    mask.lemma_index_in_bounds(q);
    mask.lemma_index_injective(p, q);
    let i = mask.spec_index_of(p);
    let j = mask.spec_index_of(q);
    if i < j {
        lemma_count_alive_two(mask.data@, i, j);
    } else {
        lemma_count_alive_two(mask.data@, j, i);
    }
}

/// How many squares of the mask are left alive.
#[verifier::loop_isolation(false)]
fn count_alive(mask: &Matrix2D<bool>) -> (n: usize)
    requires
        mask.wf(),
    ensures
        n == spec_count_alive(mask.data@),
        n <= mask.data@.len(),
{
    let len = mask.data.len();
    let mut cnt: usize = 0;
    let mut idx: usize = 0;
    proof {
        assert(mask.data@.subrange(0, 0) =~= Seq::<bool>::empty());
    }
    while idx < len
        invariant
            idx <= len,
            cnt <= idx,
            cnt == spec_count_alive(mask.data@.subrange(0, idx as int)),
        decreases len - idx,
    {
        let ghost pre = mask.data@.subrange(0, idx as int);
        if !mask.data[idx] {
            cnt = cnt + 1;
        }
        proof {
            let cur = mask.data@.subrange(0, idx as int + 1);
            assert(cur.drop_last() =~= pre);
            assert(cur.last() == mask.data@[idx as int]);
        }
        idx = idx + 1;
    }
    proof {
        assert(mask.data@.subrange(0, len as int) =~= mask.data@);
    }
    cnt
}

/// The backtracking search: place squares depth-first under the
/// reachability rule, ranked by Warnsdorff's heuristic, retreating on dead
/// ends by an explicit skip-count stack. Whatever path the heuristic takes,
/// anything returned has been walked and confirmed to be a tour of the
/// requested shape.
#[verifier::loop_isolation(false)]
fn run_search(
    size: BoardSize,
    mask: &Matrix2D<bool>,
    start: BoardPos,
    end_point: Option<BoardPos>,
    predet: &Matrix2D<Vec<BoardPos>>,
) -> (r: Option<MoveGraph<'static>>)
    requires
        size.width as int * size.height as int <= usize::MAX,
        mask.wf(),
        mask.w == size.width,
        mask.h == size.height,
        predet_wf(*predet, size.width, size.height),
    ensures
        r is Some ==> ({
            let g = r.unwrap();
            &&& g.wf()
            &&& g.is_direct()
            &&& g.width == size.width
            &&& g.height == size.height
            &&& if end_point == Some(start) {
                exists|order: Seq<BoardPos>| is_closed_tour(g, *mask, order, start)
            } else {
                exists|order: Seq<BoardPos>|
                    is_path_tour(g, *mask, order, start) && (end_point is Some ==> order[order.len()
                        - 1] == end_point.unwrap())
            }
        }),
        start.col < size.width && start.row < size.height && !mask.spec_at(start)
            && spec_count_alive(mask.data@) == 1 && end_point is None ==> r is Some,
{
    if start.col >= size.width || start.row >= size.height {
        return None;
    }
    if *mask.at(start) {
        return None;
    }
    let alive = count_alive(mask);
    if alive == 0 {
        return None;
    }
    let is_closed = match end_point {
        Some(e) => e == start,
        None => false,
    };
    let expected: usize = if is_closed {
        alive
    } else {
        alive - 1
    };
    let mut graph = MoveGraph::new(size.width, size.height);
    {
        // mark the start square as visited and as the root sentinel
        let n = graph.node_mut(start);
        *n.prev_mut() = Some(start);
    }
    if expected == 0 {
        // the start is the only live square: it is its own one-square tour
        if end_point.is_some() {
            return None;
        }
        proof {
            let order = Seq::<BoardPos>::empty().push(start);
            assert forall|p: BoardPos| crate::tour::spec_alive(graph, *mask, p) implies p
                == start by {
                if p != start {
                    mask.lemma_index_in_bounds(p);
                    mask.lemma_index_in_bounds(start);
                    mask.lemma_index_injective(p, start);
                    lemma_count_alive_two_positions(*mask, p, start);
                }
            }
            assert forall|p: BoardPos| crate::tour::spec_alive(graph, *mask, p) implies
                order.contains(p) by {
                assert(order[0] == start);
            }
            assert(is_path_tour(graph, *mask, order, start));
        }
        return Some(graph);
    }
    let mut knight = Knight::new(start);
    let mut moves: Vec<usize> = Vec::new();
    moves.push(0);
    let mut tracker = MoveTracker::new(expected);
    tracker.push(start);
    // a step budget far beyond anything a run can spend; it only bounds the
    // exhaustive backtracking so that the search provably comes back
    let mut fuel: u64 = u64::MAX;
    while moves.len() <= expected
        invariant
            graph.wf(),
            graph.is_direct(),
            graph.width == size.width,
            graph.height == size.height,
            moves@.len() >= 1,
            tracker.data@.len() == moves@.len(),
            knight.position == tracker.data@[tracker.data@.len() - 1],
            forall|i: int|
                0 <= i < tracker.data@.len() ==> (#[trigger] tracker.data@[i]).col < size.width
                    && tracker.data@[i].row < size.height,
        decreases fuel,
    {
        if fuel == 0 {
            return None;
        }
        fuel = fuel - 1;
        let skip = moves[moves.len() - 1];
        let target: Option<BoardPos> = if moves.len() == expected {
            end_point
        } else {
            None
        };
        let move_to_end_allowed = expected - moves.len() < 3;
        let possible = {
            let checker = ReachabilityChecker {
                target,
                end_point,
                dead: mask,
                graph: &graph,
                predetermined: predet,
                start,
                move_to_end_allowed,
            };
            let reach = |a: BoardPos, b: BoardPos| -> bool { checker.reachable(a, b) };
            knight.get_possible_moves(&reach)
        };
        if skip < possible.len() {
            let next_move = possible[skip];
            if next_move.col >= size.width || next_move.row >= size.height {
                // the admission rule never accepts a square off the board
                return None;
            }
            moves.push(0);
            let cur = knight.position();
            {
                let n = graph.node_mut(cur);
                *n.next_mut() = Some(next_move);
            }
            {
                let n = graph.node_mut(next_move);
                *n.prev_mut() = Some(cur);
            }
            knight.update_position(next_move);
            tracker.push(next_move);
        } else if moves.len() > 1 {
            // exhausted this square: retreat and try the predecessor's next
            // candidate
            let _ = moves.pop();
            let cur = match tracker.pop() {
                Some(p) => p,
                None => {
                    return None;
                },
            };
            let prev_pos = tracker.data[tracker.data.len() - 1];
            {
                let n = graph.node_mut(cur);
                *n.prev_mut() = None;
            }
            {
                let n = graph.node_mut(prev_pos);
                *n.next_mut() = None;
            }
            knight.update_position(prev_pos);
            match moves.pop() {
                Some(s) => {
                    if s == usize::MAX {
                        return None;
                    }
                    moves.push(s + 1);
                },
                None => {
                    return None;
                },
            }
        } else {
            // only the start is on the stack: no tour exists
            return None;
        }
    }
    let valid = if is_closed {
        check_closed_tour(&graph, mask, start)
    } else {
        check_path_tour(&graph, mask, start, end_point)
    };
    if valid {
        Some(graph)
    } else {
        None
    }
}

fn stretched_end_of(dir: Direction) -> (r: BoardPos)
    ensures
        r == spec_stretched_end(dir),
{
    match dir {
        Direction::Horizontal => BoardPos { col: 0, row: 1 },
        Direction::Vertical => BoardPos { col: 1, row: 0 },
    }
}

fn mode_start_of(mode: &Mode) -> (r: BoardPos)
    ensures
        r == spec_mode_start(*mode),
{
    match mode {
        Mode::Basic(b) => b.start,
        Mode::Structured(StructureMode::Closed(skip)) => if *skip {
            BoardPos { col: 1, row: 0 }
        } else {
            BoardPos { col: 0, row: 0 }
        },
        Mode::Structured(StructureMode::Stretched(_)) => BoardPos { col: 0, row: 0 },
        Mode::Freeform => BoardPos { col: 0, row: 0 },
    }
}

fn mode_end_of(mode: &Mode) -> (r: Option<BoardPos>)
    ensures
        r == spec_mode_end(*mode),
{
    match mode {
        Mode::Structured(StructureMode::Closed(_)) => Some(mode_start_of(mode)),
        Mode::Structured(StructureMode::Stretched(dir)) => Some(stretched_end_of(*dir)),
        _ => None,
    }
}

/// A stretched-tile cache entry also solves the stretched mode outright.
pub(crate) proof fn lemma_entry_solves(size: BoardSize, dir: Direction, g: MoveGraph<'static>)
    requires
        entry_ok(size, dir, g),
    ensures
        solved_graph_ok(Mode::Structured(StructureMode::Stretched(dir)), size, g),
        g.links_in_range(),
{
    let mode = Mode::Structured(StructureMode::Stretched(dir));
    let (mask, order) = choose|mask: Matrix2D<bool>, order: Seq<BoardPos>|
        no_dead(mask, g.width, g.height) && is_open_tour(
            g,
            mask,
            order,
            BoardPos { col: 0, row: 0 },
            spec_stretched_end(dir),
        );
    assert(spec_mode_mask(mode, mask, size));
    assert(solved_with(mode, size, g, mask, order));
    lemma_tour_links_in_range(g, mask, order, BoardPos { col: 0, row: 0 });
}

/// A link-for-link copy of a cache entry is itself a valid entry.
pub(crate) proof fn lemma_entry_copy(size: BoardSize, dir: Direction, g: MoveGraph<'static>, copy: MoveGraph<
    'static,
>)
    requires
        entry_ok(size, dir, g),
        crate::tour::links_equal(g, copy),
        copy.wf(),
        copy.is_direct(),
    ensures
        entry_ok(size, dir, copy),
{
    let (mask, order) = choose|mask: Matrix2D<bool>, order: Seq<BoardPos>|
        no_dead(mask, g.width, g.height) && is_open_tour(
            g,
            mask,
            order,
            BoardPos { col: 0, row: 0 },
            spec_stretched_end(dir),
        );
    lemma_tour_transfer(g, copy, mask, order, BoardPos { col: 0, row: 0 });
    assert(is_open_tour(copy, mask, order, BoardPos { col: 0, row: 0 }, spec_stretched_end(dir)));
}

/// An owning copy of the cached solution for this key, if one was stored.
pub(crate) fn take_cached(cache: &StretchedCache, size: BoardSize, direction: Direction) -> (r: Option<
    MoveGraph<'static>,
>)
    requires
        cache.wf(),
    ensures
        r is Some <==> spec_lookup(cache.entries@, size, direction) is Some,
        r is Some ==> entry_ok(size, direction, r.unwrap()),
{
    match cache.get(size, direction) {
        Some(h) => {
            proof {
                lemma_entry_solves(size, direction, *h);
            }
            let owned = h.to_owned();
            proof {
                lemma_entry_copy(size, direction, *h, owned);
            }
            Some(owned)
        },
        None => None,
    }
}

/// Derive this orientation's solution by flipping the cached transposed
/// one, instead of searching again.
fn derive_flipped(cache: &StretchedCache, size: BoardSize, direction: Direction) -> (r: Option<
    MoveGraph<'static>,
>)
    requires
        cache.wf(),
        size.width as int * size.height as int <= usize::MAX,
    ensures
        r is Some <==> spec_lookup(
            cache.entries@,
            BoardSize { width: size.height, height: size.width },
            direction.spec_opposite(),
        ) is Some,
        r is Some ==> entry_ok(size, direction, r.unwrap()) && flip_related(
            spec_lookup(
                cache.entries@,
                BoardSize { width: size.height, height: size.width },
                direction.spec_opposite(),
            ).unwrap(),
            r.unwrap(),
        ),
{
    let flipped_size = size.flip();
    let opposite = direction.opposite();
    let mask = build_mode_mask(&Mode::Freeform, size);
    match cache.get(flipped_size, opposite) {
        Some(h) => {
            let flipped = h.flip();
            proof {
                let (mask_h, order) = choose|mask_h: Matrix2D<bool>, order: Seq<BoardPos>|
                    no_dead(mask_h, h.width, h.height) && is_open_tour(
                        *h,
                        mask_h,
                        order,
                        BoardPos { col: 0, row: 0 },
                        spec_stretched_end(opposite),
                    );
                assert(no_dead(mask, size.width, size.height));
                lemma_flip_tour(
                    *h,
                    flipped,
                    mask_h,
                    mask,
                    order,
                    BoardPos { col: 0, row: 0 },
                    spec_stretched_end(opposite),
                );
                let order2 = order.map_values(|q: BoardPos| crate::board_pos::spec_flip_pos(q));
                assert(crate::board_pos::spec_flip_pos(BoardPos { col: 0, row: 0 }) == (BoardPos {
                    col: 0,
                    row: 0,
                }));
                assert(crate::board_pos::spec_flip_pos(spec_stretched_end(opposite))
                    == spec_stretched_end(direction));
                assert(is_open_tour(
                    flipped,
                    mask,
                    order2,
                    BoardPos { col: 0, row: 0 },
                    spec_stretched_end(direction),
                ));
                assert(entry_ok(size, direction, flipped));
            }
            Some(flipped)
        },
        None => None,
    }
}

/// Solve one board or tile under the given mode. Stretched tiles are
/// memoized: a cached solution is reused, and an orientation missing from
/// the memo is derived by flipping its transpose instead of searching
/// again.
#[verifier::rlimit(100)]
pub fn solve_internal_impl(size: BoardSize, mode: Mode, cache: &mut StretchedCache) -> (r: Option<
    MoveGraph<'static>,
>)
    requires
        old(cache).wf(),
        size.width as int * size.height as int <= usize::MAX,
    ensures
        final(cache).wf(),
        r is Some ==> solved_graph_ok(mode, size, r.unwrap()),
        (match mode {
            Mode::Structured(StructureMode::Stretched(dir)) => (spec_lookup(
                old(cache).entries@,
                size,
                dir,
            ) is None && spec_lookup(
                old(cache).entries@,
                BoardSize { width: size.height, height: size.width },
                dir.spec_opposite(),
            ) is Some) ==> r is Some && flip_related(
                spec_lookup(
                    old(cache).entries@,
                    BoardSize { width: size.height, height: size.width },
                    dir.spec_opposite(),
                ).unwrap(),
                r.unwrap(),
            ),
            _ => true,
        }),
        size.width == 1 && size.height == 1 && spec_mode_start(mode) == (BoardPos {
            col: 0,
            row: 0,
        }) && !spec_mode_dead(mode, BoardPos { col: 0, row: 0 }) && spec_mode_end(mode) is None
            ==> r is Some,
{
    let start = mode_start_of(&mode);
    let end_point = mode_end_of(&mode);
    let use_cache = matches!(&mode, Mode::Structured(StructureMode::Stretched(_)));
    let direction = match &mode {
        Mode::Structured(StructureMode::Stretched(d)) => *d,
        _ => Direction::Horizontal,
    };
    if use_cache {
        if let Some(owned) = take_cached(cache, size, direction) {
            proof {
                lemma_entry_solves(size, direction, owned);
            }
            return Some(owned);
        }
        if let Some(flipped) = derive_flipped(cache, size, direction) {
            proof {
                lemma_entry_solves(size, direction, flipped);
            }
            let copy = flipped.to_owned();
            proof {
                lemma_entry_copy(size, direction, flipped, copy);
            }
            cache.insert(size, direction, copy);
            return Some(flipped);
        }
    }
    let mask = build_mode_mask(&mode, size);
    proof {
        // a single-square board whose square the mode leaves alive always
        // holds its trivial tour
        let origin = BoardPos { col: 0, row: 0 };
        if size.width == 1 && size.height == 1 && !spec_mode_dead(mode, origin) {
            assert(mask.spec_in_range(origin));
            assert(mask.spec_at(origin) == spec_mode_dead(mode, origin));
            assert(mask.spec_index_of(origin) == 0);
            assert(mask.data@.len() == 1);
            assert(!mask.data@[0]);
            assert(mask.data@.drop_last() =~= Seq::<bool>::empty());
            assert(spec_count_alive(Seq::<bool>::empty()) == 0);
            assert(mask.data@.last() == mask.data@[0]);
            assert(spec_count_alive(mask.data@) == 1);
        }
    }
    let predet = preconnect_corners(&mode, size);
    let result = run_search(size, &mask, start, end_point, &predet);
    match result {
        Some(g) => {
            proof {
                match mode {
                    Mode::Structured(StructureMode::Closed(_)) => {
                        assert(end_point == Some(start));
                        let order = choose|order: Seq<BoardPos>|
                            is_closed_tour(g, mask, order, start);
                        assert(solved_with(mode, size, g, mask, order));
                    },
                    Mode::Structured(StructureMode::Stretched(dir)) => {
                        assert(end_point == Some(spec_stretched_end(dir)));
                        assert(end_point != Some(start));
                        let order = choose|order: Seq<BoardPos>|
                            is_path_tour(g, mask, order, start) && order[order.len() - 1]
                                == spec_stretched_end(dir);
                        assert(is_open_tour(g, mask, order, start, spec_stretched_end(dir)));
                        assert(solved_with(mode, size, g, mask, order));
                    },
                    _ => {
                        assert(end_point is None);
                        let order = choose|order: Seq<BoardPos>| is_path_tour(g, mask, order, start);
                        assert(solved_with(mode, size, g, mask, order));
                    },
                }
            }
            if use_cache {
                proof {
                    assert(no_dead(mask, size.width, size.height));
                    assert(entry_ok(size, direction, g));
                    lemma_entry_solves(size, direction, g);
                }
                let copy = g.to_owned();
                proof {
                    lemma_entry_copy(size, direction, g, copy);
                }
                cache.insert(size, direction, copy);
            }
            Some(g)
        },
        None => None,
    }
}

/// Solve one board or tile under the given mode.
pub fn solve_internal(size: BoardSize, mode: Mode, cache: &mut StretchedCache) -> (r: Option<
    MoveGraph<'static>,
>)
    requires
        old(cache).wf(),
        size.width as int * size.height as int <= usize::MAX,
    ensures
        final(cache).wf(),
        r is Some ==> solved_graph_ok(mode, size, r.unwrap()),
        size.width == 1 && size.height == 1 && spec_mode_start(mode) == (BoardPos {
            col: 0,
            row: 0,
        }) && !spec_mode_dead(mode, BoardPos { col: 0, row: 0 }) && spec_mode_end(mode) is None
            ==> r is Some,
{
    solve_internal_impl(size, mode, cache)
}

/// Free search over an arbitrary board shape: the given squares are
/// excluded and the tour begins at `start`.
pub fn solve(
    size: BoardSize,
    dead_squares: Vec<BoardPos>,
    start: BoardPos,
    cache: &mut StretchedCache,
) -> (r: Option<MoveGraph<'static>>)
    requires
        old(cache).wf(),
        size.width as int * size.height as int <= usize::MAX,
    ensures
        final(cache).wf(),
        r is Some ==> solved_graph_ok(
            Mode::Basic(BasicInput { dead_squares, start }),
            size,
            r.unwrap(),
        ),
        size.width == 1 && size.height == 1 && start == (BoardPos { col: 0, row: 0 })
            && !dead_squares@.contains(BoardPos { col: 0, row: 0 }) ==> r is Some,
{
    solve_internal_impl(size, Mode::Basic(BasicInput { dead_squares, start }), cache)
}

} // verus!
