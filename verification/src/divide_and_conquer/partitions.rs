use vstd::prelude::*;
use crate::board_pos::BoardPos;
use crate::board_size::BoardSize;
use crate::move_graph::{Direction, spec_in_rect};

verus! {

/// A segment of one axis: its offset and its length.
pub open spec fn segment_ok(seg: (u32, u32), length: u32) -> bool {
    1 <= seg.1 <= 10 && seg.0 + seg.1 <= length
}

/// The segments cut `[from, to)` into consecutive pieces: the first starts
/// at `from`, each starts where the one before it ends, the last ends at
/// `to`.
pub open spec fn segments_contiguous(s: Seq<(u32, u32)>, from: int, to: int) -> bool {
    &&& (s.len() == 0 ==> from == to)
    &&& (s.len() >= 1 ==> s[0].0 == from && s[s.len() - 1].0 + s[s.len() - 1].1 == to)
    &&& forall|i: int| 0 <= i < s.len() - 1 ==> (#[trigger] s[i].0) + s[i].1 == s[i + 1].0
}

/// In a contiguous cut, an earlier segment ends before a later one starts.
pub proof fn lemma_contiguous_ordered(s: Seq<(u32, u32)>, from: int, to: int, i: int, j: int)
    requires
        segments_contiguous(s, from, to),
        0 <= i < j < s.len(),
    ensures
        s[i].0 + s[i].1 <= s[j].0,
    decreases j - i,
{
    if j == i + 1 {
    } else {
        lemma_contiguous_ordered(s, from, to, i, j - 1);
    }
}

/// Every point of the cut range lies in one of the segments.
pub proof fn lemma_contiguous_covers(s: Seq<(u32, u32)>, from: int, to: int, x: int)
    requires
        segments_contiguous(s, from, to),
        from <= x < to,
    ensures
        exists|i: int|
            0 <= i < s.len() && (#[trigger] s[i].0) <= x < s[i].0 + s[i].1,
    decreases s.len(),
{
    assert(s.len() >= 1);
    if x < s[0].0 + s[0].1 {
        assert(s[0].0 <= x < s[0].0 + s[0].1);
    } else {
        let tail = s.drop_first();
        assert(segments_contiguous(tail, s[1].0 as int, to)) by {
            assert forall|i: int| 0 <= i < tail.len() - 1 implies (#[trigger] tail[i].0) + tail[i].1
                == tail[i + 1].0 by {
                assert(tail[i] == s[i + 1]);
                assert(tail[i + 1] == s[i + 2]);
            }
        }
        lemma_contiguous_covers(tail, s[1].0 as int, to, x);
        let i = choose|i: int| 0 <= i < tail.len() && (#[trigger] tail[i].0) <= x < tail[i].0 + tail[i].1;
        assert(s[i + 1] == tail[i]);
    }
}

/// Split a length in two so that the second part is always even; an
/// even-length stretched tile is guaranteed solvable, an odd one is not.
pub fn split_length(length: u32) -> (r: (u32, u32))
    ensures
        r.0 == (length / 4) * 2 + length % 2,
        r.0 + r.1 == length,
        r.1 % 2 == 0,
{
    let half = (length / 4) * 2 + length % 2;
    (half, length - half)
}

/// Cut one axis into segments of length at most ten by repeated halving,
/// keeping every non-leading part even. A three-wide board instead takes
/// one leading segment of seven to ten squares followed by segments of
/// four, the shapes its narrow tiles need.
#[verifier::loop_isolation(false)]
pub fn segment_length(length: u32, other: u32) -> (r: Vec<(u32, u32)>)
    requires
        length >= 1,
    ensures
        forall|i: int| 0 <= i < r@.len() ==> segment_ok(#[trigger] r@[i], length),
        segments_contiguous(r@, 0, length as int),
        r@.len() >= 1,
{
    if other <= 10 {
        if length <= 10 {
            let mut segments: Vec<(u32, u32)> = Vec::new();
            segments.push((0, length));
            return segments;
        }
        if other == 3 {
            // one leading segment of 7..=10, then segments of 4
            let first = 7 + ((length - 7) % 4);
            let mut segments: Vec<(u32, u32)> = Vec::new();
            segments.push((0, first));
            let mut offset = first;
            while offset < length
                invariant
                    first <= offset <= length,
                    (length - offset) % 4 == 0,
                    segments@.len() >= 1,
                    segments_contiguous(segments@, 0, offset as int),
                    forall|i: int| 0 <= i < segments@.len() ==> segment_ok(#[trigger] segments@[i], length),
                decreases length - offset,
            {
                let ghost pre = segments@;
                segments.push((offset, 4));
                proof {
                    assert forall|i: int|
                        0 <= i < segments@.len() - 1 implies (#[trigger] segments@[i].0)
                        + segments@[i].1 == segments@[i + 1].0 by {
                        if i < pre.len() - 1 {
                            assert(segments@[i] == pre[i]);
                            assert(segments@[i + 1] == pre[i + 1]);
                        } else {
                            assert(segments@[i] == pre[pre.len() - 1]);
                        }
                    }
                }
                offset = offset + 4;
            }
            return segments;
        }
    }
    let mut segments: Vec<(u32, u32)> = Vec::new();
    segment_halving(0, length, length, &mut segments);
    proof {
        assert(segments@.skip(0) =~= segments@);
    }
    segments
}

/// Recursively halve a segment until every piece is at most ten long,
/// appending the pieces left to right.
#[verifier::loop_isolation(false)]
fn segment_halving(offset: u32, len: u32, length: u32, segments: &mut Vec<(u32, u32)>)
    requires
        len >= 1,
        offset + len <= length,
        forall|i: int|
            0 <= i < old(segments)@.len() ==> segment_ok(#[trigger] old(segments)@[i], length),
    ensures
        forall|i: int|
            0 <= i < final(segments)@.len() ==> segment_ok(#[trigger] final(segments)@[i], length),
        final(segments)@.len() > old(segments)@.len(),
        final(segments)@.subrange(0, old(segments)@.len() as int) == old(segments)@,
        segments_contiguous(
            final(segments)@.skip(old(segments)@.len() as int),
            offset as int,
            offset as int + len as int,
        ),
    decreases len,
{
    if len <= 10 {
        let ghost pre = segments@;
        segments.push((offset, len));
        proof {
            assert(segments@.subrange(0, pre.len() as int) =~= pre);
            assert(segments@.skip(pre.len() as int) =~= Seq::<(u32, u32)>::empty().push(
                (offset, len),
            ));
        }
    } else {
        let (first, second) = split_length(len);
        proof {
            assert(first >= 1 && second >= 1) by {
                assert(first == (len / 4) * 2 + len % 2);
            }
        }
        let ghost pre = segments@;
        segment_halving(offset, first, length, segments);
        let ghost mid = segments@;
        segment_halving(offset + first, second, length, segments);
        proof {
            assert(segments@.subrange(0, pre.len() as int) =~= pre);
            let a = mid.skip(pre.len() as int);
            let b = segments@.skip(mid.len() as int);
            let whole = segments@.skip(pre.len() as int);
            assert(whole =~= a + b);
            assert forall|i: int|
                0 <= i < whole.len() - 1 implies (#[trigger] whole[i].0) + whole[i].1 == whole[i
                + 1].0 by {
                if i < a.len() - 1 {
                    assert(whole[i] == a[i]);
                    assert(whole[i + 1] == a[i + 1]);
                } else if i == a.len() - 1 {
                    assert(whole[i] == a[a.len() - 1]);
                    assert(whole[i + 1] == b[0]);
                } else {
                    assert(whole[i] == b[i - a.len()]);
                    assert(whole[i + 1] == b[i + 1 - a.len()]);
                }
            }
            assert(whole[0] == a[0]);
            assert(whole[whole.len() - 1] == b[b.len() - 1]);
        }
    }
}

/// A tile of the board: its origin, its size, and the axis along which it
/// is merged onto the tiles placed before it.
pub open spec fn sector_ok(sector: (BoardPos, BoardSize, Direction), size: BoardSize) -> bool {
    &&& 1 <= sector.1.width <= 10
    &&& 1 <= sector.1.height <= 10
    &&& sector.0.col + sector.1.width <= size.width
    &&& sector.0.row + sector.1.height <= size.height
}

/// Does the tile's rectangle hold the square?
pub open spec fn sector_contains(sector: (BoardPos, BoardSize, Direction), p: BoardPos) -> bool {
    spec_in_rect(p, sector.0, sector.1.width, sector.1.height)
}

/// Some tile of the list holds the square.
pub open spec fn covered_by(s: Seq<(BoardPos, BoardSize, Direction)>, p: BoardPos) -> bool {
    exists|i: int| 0 <= i < s.len() && sector_contains(#[trigger] s[i], p)
}

/// No square lies in two tiles of the list.
pub open spec fn sectors_disjoint(s: Seq<(BoardPos, BoardSize, Direction)>) -> bool {
    forall|a: int, b: int, p: BoardPos|
        #![trigger sector_contains(s[a], p), sector_contains(s[b], p)]
        0 <= a < b < s.len() && sector_contains(s[a], p) && sector_contains(s[b], p) ==> false
}

/// The merge direction the stitcher derives from a tile's offset: upward
/// on or below the main diagonal, leftward above it.
pub open spec fn spec_merge_direction(p: BoardPos) -> Direction {
    if p.col <= p.row {
        Direction::Vertical
    } else {
        Direction::Horizontal
    }
}

/// The tile's rectangle lies within the box at `pos` of size `tile`.
pub open spec fn sector_in_box(
    sector: (BoardPos, BoardSize, Direction),
    pos: BoardPos,
    tile: BoardSize,
) -> bool {
    &&& pos.col <= sector.0.col
    &&& sector.0.col + sector.1.width <= pos.col + tile.width
    &&& pos.row <= sector.0.row
    &&& sector.0.row + sector.1.height <= pos.row + tile.height
}

/// The merge direction of the tile at an offset.
fn merge_direction_of(pos: BoardPos) -> (r: Direction)
    ensures
        r == spec_merge_direction(pos),
{
    Direction::from_bool(pos.col <= pos.row)
}

/// What every cell subdivision guarantees: the appended tiles carry the
/// stitcher's direction tag, sit inside the cell, tile it exactly and
/// without overlap, and the first one starts at the cell's own corner.
pub open spec fn cell_split_ok(
    pre: Seq<(BoardPos, BoardSize, Direction)>,
    post: Seq<(BoardPos, BoardSize, Direction)>,
    size: BoardSize,
    pos: BoardPos,
    tile: BoardSize,
) -> bool {
    &&& post.len() > pre.len()
    &&& post.subrange(0, pre.len() as int) == pre
    &&& post[pre.len() as int].0 == pos
    &&& forall|k: int|
        pre.len() <= k < post.len() ==> sector_ok(#[trigger] post[k], size) && sector_in_box(
            post[k],
            pos,
            tile,
        ) && post[k].2 == spec_merge_direction(post[k].0)
    &&& forall|p: BoardPos|
        spec_in_rect(p, pos, tile.width, tile.height) ==> exists|k: int|
            pre.len() <= k < post.len() && sector_contains(#[trigger] post[k], p)
    &&& forall|k1: int, k2: int, p: BoardPos|
        #![trigger sector_contains(post[k1], p), sector_contains(post[k2], p)]
        pre.len() <= k1 < k2 < post.len() && sector_contains(post[k1], p) && sector_contains(
            post[k2],
            p,
        ) ==> false
}

/// Cut one cell into one, two or three consecutive pieces along the given
/// axis (`m2 == 0` leaves it whole, `m3 == 0` makes two pieces) and append
/// them, each tagged with the stitcher's direction for its own corner.
#[verifier::rlimit(100)]
fn push_split_pieces(
    sectors: &mut Vec<(BoardPos, BoardSize, Direction)>,
    size: BoardSize,
    pos: BoardPos,
    tile: BoardSize,
    along_height: bool,
    m1: u32,
    m2: u32,
    m3: u32,
)
    requires
        1 <= tile.width <= 10,
        1 <= tile.height <= 10,
        pos.col + tile.width <= size.width,
        pos.row + tile.height <= size.height,
        1 <= m1 <= 10,
        m2 <= 10,
        m3 <= 10,
        m2 == 0 ==> m3 == 0,
        m2 >= 1 || m3 == 0,
        m1 + m2 + m3 == (if along_height {
            tile.height
        } else {
            tile.width
        }),
    ensures
        cell_split_ok(old(sectors)@, final(sectors)@, size, pos, tile),
{
    let ghost pre = sectors@;
    if along_height {
        sectors.push(
            (pos, BoardSize { width: tile.width, height: m1 }, merge_direction_of(pos)),
        );
        if m2 >= 1 {
            let p2 = BoardPos { col: pos.col, row: pos.row + m1 };
            sectors.push((p2, BoardSize { width: tile.width, height: m2 }, merge_direction_of(p2)));
            if m3 >= 1 {
                let p3 = BoardPos { col: pos.col, row: pos.row + m1 + m2 };
                sectors.push(
                    (p3, BoardSize { width: tile.width, height: m3 }, merge_direction_of(p3)),
                );
            }
        }
    } else {
        sectors.push(
            (pos, BoardSize { width: m1, height: tile.height }, merge_direction_of(pos)),
        );
        if m2 >= 1 {
            let p2 = BoardPos { col: pos.col + m1, row: pos.row };
            sectors.push((p2, BoardSize { width: m2, height: tile.height }, merge_direction_of(p2)));
            if m3 >= 1 {
                let p3 = BoardPos { col: pos.col + m1 + m2, row: pos.row };
                sectors.push(
                    (p3, BoardSize { width: m3, height: tile.height }, merge_direction_of(p3)),
                );
            }
        }
    }
    proof {
        assert(sectors@.subrange(0, pre.len() as int) =~= pre);
        assert forall|p: BoardPos|
            spec_in_rect(p, pos, tile.width, tile.height) implies exists|k: int|
            pre.len() <= k < sectors@.len() && sector_contains(#[trigger] sectors@[k], p) by {
            let axis_rel = if along_height {
                p.row - pos.row
            } else {
                p.col - pos.col
            };
            if axis_rel < m1 {
                assert(sector_contains(sectors@[pre.len() as int], p));
            } else if axis_rel < m1 + m2 {
                assert(sector_contains(sectors@[pre.len() as int + 1], p));
            } else {
                assert(sector_contains(sectors@[pre.len() as int + 2], p));
            }
        }
    }
}

/// Subdivide the tile holding the global origin when its shape is known to
/// make the closed-tile search pathologically slow.
fn partition_closed_sector(
    sectors: &mut Vec<(BoardPos, BoardSize, Direction)>,
    size: BoardSize,
    pos: BoardPos,
    tile: BoardSize,
)
    requires
        1 <= tile.width <= 10,
        1 <= tile.height <= 10,
        pos.col + tile.width <= size.width,
        pos.row + tile.height <= size.height,
    ensures
        cell_split_ok(old(sectors)@, final(sectors)@, size, pos, tile),
{
    let (short_side, long_side) = if tile.width <= tile.height {
        (tile.width, tile.height)
    } else {
        (tile.height, tile.width)
    };
    let tall = short_side == tile.width;
    // known-slow closed shapes are split into a closed part and a
    // stretched part
    let split: Option<(u32, u32)> = match (short_side, long_side) {
        (5, 10) => Some((6, 4)),
        (5, 9) => Some((5, 4)),
        (7, 9) => Some((5, 4)),
        _ => None,
    };
    match split {
        Some((long1, long2)) => {
            push_split_pieces(sectors, size, pos, tile, tall, long1, long2, 0);
        },
        None => {
            push_split_pieces(sectors, size, pos, tile, true, tile.height, 0, 0);
        },
    }
}

/// Subdivide a stretched tile when its shape and merge direction are known
/// to make the search pathologically slow.
fn partition_open_sector(
    sectors: &mut Vec<(BoardPos, BoardSize, Direction)>,
    size: BoardSize,
    pos: BoardPos,
    tile: BoardSize,
)
    requires
        1 <= tile.width <= 10,
        1 <= tile.height <= 10,
        pos.col + tile.width <= size.width,
        pos.row + tile.height <= size.height,
    ensures
        cell_split_ok(old(sectors)@, final(sectors)@, size, pos, tile),
{
    let direction = merge_direction_of(pos);
    let horizontal = matches!(direction, Direction::Horizontal);
    let (merge_axis, non_merge_axis) = if horizontal {
        (tile.width, tile.height)
    } else {
        (tile.height, tile.width)
    };
    let split: Option<(u32, u32, u32)> = match (non_merge_axis, merge_axis) {
        (5, 8) => Some((4, 4, 0)),
        (5, 10) => Some((6, 4, 0)),
        (6, 8) => Some((4, 4, 0)),
        (6, 10) => Some((6, 4, 0)),
        (7, 8) => Some((4, 4, 0)),
        (7, 10) => Some((6, 4, 0)),
        (8, 6) => Some((3, 3, 0)),
        (8, 8) => Some((4, 4, 0)),
        (8, 10) => Some((3, 3, 4)),
        (9, 8) => Some((4, 4, 0)),
        (9, 10) => Some((6, 4, 0)),
        (10, 6) => Some((3, 3, 0)),
        (10, 8) => Some((4, 4, 0)),
        (10, 10) => Some((4, 3, 3)),
        _ => None,
    };
    match split {
        Some((m1, m2, m3)) => {
            push_split_pieces(sectors, size, pos, tile, !horizontal, m1, m2, m3);
        },
        None => {
            push_split_pieces(
                sectors,
                size,
                pos,
                tile,
                !horizontal,
                if horizontal {
                    tile.width
                } else {
                    tile.height
                },
                0,
                0,
            );
        },
    }
}

/// Subdivide one grid cell of the tiling: the origin cell by the closed
/// table, every other cell by the stretched table.
fn partition_sector_further(
    sectors: &mut Vec<(BoardPos, BoardSize, Direction)>,
    size: BoardSize,
    pos: BoardPos,
    tile: BoardSize,
)
    requires
        1 <= tile.width <= 10,
        1 <= tile.height <= 10,
        pos.col + tile.width <= size.width,
        pos.row + tile.height <= size.height,
    ensures
        cell_split_ok(old(sectors)@, final(sectors)@, size, pos, tile),
{
    if pos.col == 0 && pos.row == 0 {
        partition_closed_sector(sectors, size, pos, tile);
    } else {
        partition_open_sector(sectors, size, pos, tile);
    }
}

/// Does the square lie in the grid cell made of these two segments?
pub open spec fn in_cell(p: BoardPos, hseg: (u32, u32), vseg: (u32, u32)) -> bool {
    hseg.0 <= p.col < hseg.0 + hseg.1 && vseg.0 <= p.row < vseg.0 + vseg.1
}

/// Has the cell at row-segment `k`, column-segment `j` been subdivided yet,
/// when the tiling stands at row `vi`, column `hi`?
pub open spec fn cell_processed(k: int, j: int, vi: int, hi: int) -> bool {
    k < vi || (k == vi && j < hi)
}

/// The square lies in a cell the tiling has already subdivided.
pub open spec fn point_in_processed(
    p: BoardPos,
    horizontal: Seq<(u32, u32)>,
    vertical: Seq<(u32, u32)>,
    vi: int,
    hi: int,
) -> bool {
    exists|k: int, j: int|
        #![trigger vertical[k], horizontal[j]]
        0 <= k < vertical.len() && 0 <= j < horizontal.len() && cell_processed(k, j, vi, hi)
            && in_cell(p, horizontal[j], vertical[k])
}

/// One tiling step: subdividing the cell at row-segment `vi`,
/// column-segment `hi` extends coverage to that cell and preserves the
/// bookkeeping of the tiling loop.
#[verifier::rlimit(100)]
proof fn lemma_partition_step(
    pre: Seq<(BoardPos, BoardSize, Direction)>,
    post: Seq<(BoardPos, BoardSize, Direction)>,
    horizontal: Seq<(u32, u32)>,
    vertical: Seq<(u32, u32)>,
    size: BoardSize,
    vi: int,
    hi: int,
)
    requires
        0 <= vi < vertical.len(),
        0 <= hi < horizontal.len(),
        segments_contiguous(horizontal, 0, size.width as int),
        segments_contiguous(vertical, 0, size.height as int),
        cell_split_ok(
            pre,
            post,
            size,
            BoardPos { col: horizontal[hi].0, row: vertical[vi].0 },
            BoardSize { width: horizontal[hi].1, height: vertical[vi].1 },
        ),
        forall|t: int|
            0 <= t < pre.len() ==> sector_ok(#[trigger] pre[t], size) && pre[t].2
                == spec_merge_direction(pre[t].0),
        forall|k: int, j: int, p: BoardPos|
            #![trigger in_cell(p, horizontal[j], vertical[k])]
            0 <= k < vertical.len() && 0 <= j < horizontal.len() && cell_processed(k, j, vi, hi)
                && in_cell(p, horizontal[j], vertical[k]) ==> covered_by(pre, p),
        forall|t: int, p: BoardPos|
            0 <= t < pre.len() && #[trigger] sector_contains(pre[t], p) ==> point_in_processed(
                p,
                horizontal,
                vertical,
                vi,
                hi,
            ),
        sectors_disjoint(pre),
    ensures
        forall|t: int| 0 <= t < pre.len() ==> #[trigger] post[t] == pre[t],
        forall|t: int|
            0 <= t < post.len() ==> sector_ok(#[trigger] post[t], size) && post[t].2
                == spec_merge_direction(post[t].0),
        forall|k: int, j: int, p: BoardPos|
            #![trigger in_cell(p, horizontal[j], vertical[k])]
            0 <= k < vertical.len() && 0 <= j < horizontal.len() && cell_processed(k, j, vi, hi + 1)
                && in_cell(p, horizontal[j], vertical[k]) ==> covered_by(post, p),
        forall|t: int, p: BoardPos|
            0 <= t < post.len() && #[trigger] sector_contains(post[t], p) ==> point_in_processed(
                p,
                horizontal,
                vertical,
                vi,
                hi + 1,
            ),
        sectors_disjoint(post),
{
    let cell_pos = BoardPos { col: horizontal[hi].0, row: vertical[vi].0 };
    let cell_tile = BoardSize { width: horizontal[hi].1, height: vertical[vi].1 };
    assert forall|t: int| 0 <= t < pre.len() implies #[trigger] post[t] == pre[t] by {
        assert(post.subrange(0, pre.len() as int)[t] == post[t]);
    }
    assert forall|k: int, j: int, p: BoardPos|
        #![trigger in_cell(p, horizontal[j], vertical[k])]
        0 <= k < vertical.len() && 0 <= j < horizontal.len() && cell_processed(k, j, vi, hi + 1)
            && in_cell(p, horizontal[j], vertical[k]) implies covered_by(post, p) by {
        if cell_processed(k, j, vi, hi) {
            assert(covered_by(pre, p));
            let i = choose|i: int| 0 <= i < pre.len() && sector_contains(#[trigger] pre[i], p);
            assert(sector_contains(post[i], p));
        } else {
            assert(k == vi && j == hi);
            assert(spec_in_rect(p, cell_pos, cell_tile.width, cell_tile.height));
            let kk = choose|kk: int|
                pre.len() <= kk < post.len() && sector_contains(#[trigger] post[kk], p);
        }
    }
    assert forall|t: int, p: BoardPos|
        0 <= t < post.len() && #[trigger] sector_contains(post[t], p) implies point_in_processed(
        p,
        horizontal,
        vertical,
        vi,
        hi + 1,
    ) by {
        if t < pre.len() {
            assert(sector_contains(pre[t], p));
            assert(point_in_processed(p, horizontal, vertical, vi, hi));
            let (k, j) = choose|k: int, j: int|
                #![trigger vertical[k], horizontal[j]]
                0 <= k < vertical.len() && 0 <= j < horizontal.len() && cell_processed(k, j, vi, hi)
                    && in_cell(p, horizontal[j], vertical[k]);
            assert(cell_processed(k, j, vi, hi + 1));
        } else {
            assert(sector_in_box(post[t], cell_pos, cell_tile));
            assert(in_cell(p, horizontal[hi], vertical[vi]));
            assert(cell_processed(vi, hi, vi, hi + 1));
        }
    }
    assert forall|a: int, b: int, p: BoardPos|
        #![trigger sector_contains(post[a], p), sector_contains(post[b], p)]
        0 <= a < b < post.len() && sector_contains(post[a], p) && sector_contains(
            post[b],
            p,
        ) implies false by {
        if b < pre.len() {
            assert(sector_contains(pre[a], p));
            assert(sector_contains(pre[b], p));
        } else if a >= pre.len() {
        } else {
            assert(sector_contains(pre[a], p));
            assert(point_in_processed(p, horizontal, vertical, vi, hi));
            let (k, j) = choose|k: int, j: int|
                #![trigger vertical[k], horizontal[j]]
                0 <= k < vertical.len() && 0 <= j < horizontal.len() && cell_processed(k, j, vi, hi)
                    && in_cell(p, horizontal[j], vertical[k]);
            assert(sector_in_box(post[b], cell_pos, cell_tile));
            assert(in_cell(p, horizontal[hi], vertical[vi]));
            if k != vi {
                lemma_contiguous_ordered(vertical, 0, size.height as int, k, vi);
            } else {
                lemma_contiguous_ordered(horizontal, 0, size.width as int, j, hi);
            }
        }
    }
}

/// Decompose the board into an ordered list of tiles: each at most ten
/// squares a side and lying within the board, the tiles pairwise disjoint
/// and together covering every square, the first tile holding the global
/// origin, and every tile tagged with the merge direction the stitcher
/// derives from its corner.
#[verifier::loop_isolation(false)]
#[verifier::rlimit(100)]
pub fn partition_size(size: BoardSize) -> (r: Vec<(BoardPos, BoardSize, Direction)>)
    requires
        size.width >= 1,
        size.height >= 1,
    ensures
        forall|i: int| 0 <= i < r@.len() ==> sector_ok(#[trigger] r@[i], size),
        forall|i: int| 0 <= i < r@.len() ==> (#[trigger] r@[i]).2 == spec_merge_direction(r@[i].0),
        r@.len() >= 1,
        r@[0].0 == (BoardPos { col: 0, row: 0 }),
        forall|p: BoardPos|
            p.col < size.width && p.row < size.height ==> #[trigger] covered_by(r@, p),
        sectors_disjoint(r@),
{
    let horizontal = segment_length(size.width, size.height);
    let vertical = segment_length(size.height, size.width);
    let mut sectors: Vec<(BoardPos, BoardSize, Direction)> = Vec::new();
    let vn = vertical.len();
    let hn = horizontal.len();
    let mut vi: usize = 0;
    while vi < vn
        invariant
            vi <= vn,
            forall|t: int|
                0 <= t < sectors@.len() ==> sector_ok(#[trigger] sectors@[t], size)
                    && sectors@[t].2 == spec_merge_direction(sectors@[t].0),
            vi == 0 ==> sectors@.len() == 0,
            vi > 0 ==> sectors@.len() >= 1 && sectors@[0].0 == (BoardPos { col: 0, row: 0 }),
            forall|k: int, j: int, p: BoardPos|
                #![trigger in_cell(p, horizontal@[j], vertical@[k])]
                0 <= k < vn && 0 <= j < hn && cell_processed(k, j, vi as int, 0) && in_cell(
                    p,
                    horizontal@[j],
                    vertical@[k],
                ) ==> covered_by(sectors@, p),
            forall|t: int, p: BoardPos|
                0 <= t < sectors@.len() && #[trigger] sector_contains(sectors@[t], p)
                    ==> point_in_processed(p, horizontal@, vertical@, vi as int, 0),
            sectors_disjoint(sectors@),
        decreases vn - vi,
    {
        let (y, height) = vertical[vi];
        let mut hi: usize = 0;
        while hi < hn
            invariant
                vi < vn,
                hi <= hn,
                (y, height) == vertical@[vi as int],
                forall|t: int|
                    0 <= t < sectors@.len() ==> sector_ok(#[trigger] sectors@[t], size)
                        && sectors@[t].2 == spec_merge_direction(sectors@[t].0),
                (vi == 0 && hi == 0) ==> sectors@.len() == 0,
                (vi > 0 || hi > 0) ==> sectors@.len() >= 1 && sectors@[0].0 == (BoardPos {
                    col: 0,
                    row: 0,
                }),
                forall|k: int, j: int, p: BoardPos|
                    #![trigger in_cell(p, horizontal@[j], vertical@[k])]
                    0 <= k < vn && 0 <= j < hn && cell_processed(k, j, vi as int, hi as int)
                        && in_cell(p, horizontal@[j], vertical@[k]) ==> covered_by(sectors@, p),
                forall|t: int, p: BoardPos|
                    0 <= t < sectors@.len() && #[trigger] sector_contains(sectors@[t], p)
                        ==> point_in_processed(p, horizontal@, vertical@, vi as int, hi as int),
                sectors_disjoint(sectors@),
            decreases hn - hi,
        {
            let (x, width) = horizontal[hi];
            let cell_pos = BoardPos { col: x, row: y };
            let cell_tile = BoardSize { width, height };
            let ghost pre = sectors@;
            partition_sector_further(&mut sectors, size, cell_pos, cell_tile);
            proof {
                lemma_partition_step(
                    pre,
                    sectors@,
                    horizontal@,
                    vertical@,
                    size,
                    vi as int,
                    hi as int,
                );
                if vi == 0 && hi == 0 {
                    assert(sectors@[0].0 == cell_pos);
                    assert(horizontal@[0].0 == 0);
                    assert(vertical@[0].0 == 0);
                } else {
                    assert(sectors@[0] == sectors@.subrange(0, pre.len() as int)[0]);
                }
            }
            hi = hi + 1;
        }
        vi = vi + 1;
    }
    proof {
        assert forall|p: BoardPos| p.col < size.width && p.row < size.height implies #[trigger]
            covered_by(sectors@, p) by {
            lemma_contiguous_covers(vertical@, 0, size.height as int, p.row as int);
            lemma_contiguous_covers(horizontal@, 0, size.width as int, p.col as int);
            let k = choose|k: int|
                0 <= k < vertical@.len() && (#[trigger] vertical@[k].0) <= p.row < vertical@[k].0
                    + vertical@[k].1;
            let j = choose|j: int|
                0 <= j < horizontal@.len() && (#[trigger] horizontal@[j].0) <= p.col
                    < horizontal@[j].0 + horizontal@[j].1;
            assert(in_cell(p, horizontal@[j], vertical@[k]));
            assert(cell_processed(k, j, vn as int, 0));
        }
        assert(in_cell(
            BoardPos { col: 0, row: 0 },
            horizontal@[0],
            vertical@[0],
        ));
        assert(covered_by(sectors@, BoardPos { col: 0, row: 0 }));
    }
    sectors
}

} // verus!
