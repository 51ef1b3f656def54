use vstd::prelude::*;
use crate::board_pos::BoardPos;
use crate::board_size::BoardSize;
use crate::move_graph::{Direction, MoveGraph, Node, spec_in_rect};

verus! {

/// The diagnostic context of a failed splice: the node whose links matched
/// no expected pattern, its links as found, and what the merge was trying
/// to do. A failure here means the partitioner or search produced a
/// structurally invalid intermediate tour; it is never a normal outcome.
#[derive(Clone, Copy, PartialEq, Eq, Structural, Debug)]
pub struct MergeError {
    pub node_pos: BoardPos,
    pub node_prev: Option<BoardPos>,
    pub node_next: Option<BoardPos>,
    pub old_target: Option<BoardPos>,
    pub new_target: BoardPos,
    pub direction: Direction,
}

/// The first tile-side square of the seam: the tile's origin.
pub open spec fn spec_second_start(pos: BoardPos, direction: Direction) -> BoardPos {
    pos
}

/// The second tile-side square of the seam.
pub open spec fn spec_second_end(pos: BoardPos, direction: Direction) -> BoardPos {
    match direction {
        Direction::Horizontal => BoardPos { col: pos.col, row: (pos.row + 1) as u32 },
        Direction::Vertical => BoardPos { col: (pos.col + 1) as u32, row: pos.row },
    }
}

/// The assembled-side square whose tour edge is cut by the splice.
pub open spec fn spec_first_end(pos: BoardPos, direction: Direction) -> BoardPos {
    match direction {
        Direction::Horizontal => BoardPos { col: (pos.col - 2) as u32, row: pos.row },
        Direction::Vertical => BoardPos { col: pos.col, row: (pos.row - 2) as u32 },
    }
}

/// The other assembled-side square of the cut edge.
pub open spec fn spec_first_start(pos: BoardPos, direction: Direction) -> BoardPos {
    match direction {
        Direction::Horizontal => BoardPos { col: (pos.col - 1) as u32, row: (pos.row + 2) as u32 },
        Direction::Vertical => BoardPos { col: (pos.col + 2) as u32, row: (pos.row - 1) as u32 },
    }
}

/// Redirect whichever of the links points at (or, for an unset sentinel
/// link, stands in for) the old partner to the new cross-seam partner,
/// yielding the new `(prev, next)` pair. No matching link means the splice
/// cannot proceed.
pub open spec fn spec_redirect_links(
    pos: BoardPos,
    prev: Option<BoardPos>,
    next: Option<BoardPos>,
    old_target: Option<BoardPos>,
    new_target: BoardPos,
) -> Option<(Option<BoardPos>, Option<BoardPos>)> {
    if prev == old_target || (old_target is None && prev == Some(pos)) {
        Some((Some(new_target), next))
    } else if next == old_target || (old_target is None && next == Some(pos)) {
        Some((prev, Some(new_target)))
    } else {
        None
    }
}

/// The node after its matching link is redirected at the new partner.
pub open spec fn spec_redirect(n: Node, old_target: Option<BoardPos>, new_target: BoardPos) -> Option<
    Node,
> {
    match spec_redirect_links(n.pos, n.prev, n.next, old_target, new_target) {
        Some(links) => Some(Node { prev: links.0, next: links.1, ..n }),
        None => None,
    }
}

/// The node as it stands after the optional orientation fix: inside the
/// tile's rectangle the links are exchanged when the seam needed reversing;
/// everywhere else nothing moved.
pub open spec fn after_orientation<'a>(
    g: MoveGraph<'a>,
    pos: BoardPos,
    size: BoardSize,
    rev: bool,
    q: BoardPos,
) -> Node {
    if rev && spec_in_rect(q, pos, size.width, size.height) {
        g.spec_node(q).spec_reversed()
    } else {
        g.spec_node(q)
    }
}

/// The diagnostic a failed splice reports: the first of the four boundary
/// nodes, in splice order, whose links match no expected pattern, together
/// with its links as found and the edge the merge was trying to install.
pub open spec fn spec_merge_failure(
    mid_fs: Node,
    mid_fe: Node,
    mid_ss: Node,
    mid_se: Node,
    pos: BoardPos,
    direction: Direction,
) -> MergeError {
    let fs = spec_first_start(pos, direction);
    let fe = spec_first_end(pos, direction);
    let ss = spec_second_start(pos, direction);
    let se = spec_second_end(pos, direction);
    if spec_redirect(mid_fs, Some(fe), ss) is None {
        MergeError {
            node_pos: mid_fs.pos,
            node_prev: mid_fs.prev,
            node_next: mid_fs.next,
            old_target: Some(fe),
            new_target: ss,
            direction,
        }
    } else if spec_redirect(mid_fe, Some(fs), se) is None {
        MergeError {
            node_pos: mid_fe.pos,
            node_prev: mid_fe.prev,
            node_next: mid_fe.next,
            old_target: Some(fs),
            new_target: se,
            direction,
        }
    } else if spec_redirect(mid_ss, None, fs) is None {
        MergeError {
            node_pos: mid_ss.pos,
            node_prev: mid_ss.prev,
            node_next: mid_ss.next,
            old_target: None,
            new_target: fs,
            direction,
        }
    } else {
        MergeError {
            node_pos: mid_se.pos,
            node_prev: mid_se.prev,
            node_next: mid_se.next,
            old_target: None,
            new_target: fe,
            direction,
        }
    }
}

/// The bounds the seam geometry needs from the caller.
pub open spec fn merge_requires<'a>(
    board: MoveGraph<'a>,
    pos: BoardPos,
    latter_size: BoardSize,
    direction: Direction,
) -> bool {
    &&& board.wf()
    &&& board.is_direct()
    &&& pos.col + latter_size.width <= board.width
    &&& pos.row + latter_size.height <= board.height
    &&& match direction {
        Direction::Horizontal => pos.col >= 2 && pos.row + 2 < board.height
            && latter_size.height >= 2 && latter_size.width >= 1,
        Direction::Vertical => pos.row >= 2 && pos.col + 2 < board.width && latter_size.width >= 2
            && latter_size.height >= 1,
    }
}

fn opt_eq(a: Option<BoardPos>, b: Option<BoardPos>) -> (r: bool)
    ensures
        r == (a == b),
{
    match (a, b) {
        (Some(x), Some(y)) => x == y,
        (None, None) => true,
        _ => false,
    }
}

/// Which link to redirect, decided from the node as read.
fn plan_update(
    node_pos: BoardPos,
    node_prev: Option<BoardPos>,
    node_next: Option<BoardPos>,
    old_target: Option<BoardPos>,
    new_target: BoardPos,
    direction: Direction,
) -> (r: Result<bool, MergeError>)
    ensures
        r is Ok <==> spec_redirect_links(node_pos, node_prev, node_next, old_target, new_target)
            is Some,
        r is Ok ==> spec_redirect_links(node_pos, node_prev, node_next, old_target, new_target)
            == Some(
            if r.unwrap() {
                (Some(new_target), node_next)
            } else {
                (node_prev, Some(new_target))
            },
        ),
        r is Err ==> r.unwrap_err() == (MergeError {
            node_pos,
            node_prev,
            node_next,
            old_target,
            new_target,
            direction,
        }),
{
    if opt_eq(node_prev, old_target) || (old_target.is_none() && opt_eq(node_prev, Some(node_pos))) {
        Ok(true)
    } else if opt_eq(node_next, old_target) || (old_target.is_none() && opt_eq(
        node_next,
        Some(node_pos),
    )) {
        Ok(false)
    } else {
        Err(
            MergeError {
                node_pos,
                node_prev,
                node_next,
                old_target,
                new_target,
                direction,
            },
        )
    }
}

/// Splice an already-solved tile into the assembled graph in place. The
/// tile's rectangle is first reversed when its orientation does not match
/// the seam; then the single tour edge between the two assembled-side
/// squares is replaced by two edges across the seam, touching exactly the
/// four boundary nodes. Every other node of the assembled side is left
/// byte for byte as it was.
#[verifier::rlimit(100)]
pub fn merge(
    board: &mut MoveGraph<'_>,
    pos: BoardPos,
    latter_size: BoardSize,
    direction: Direction,
) -> (r: Result<(), MergeError>)
    requires
        merge_requires(*old(board), pos, latter_size, direction),
    ensures
        final(board).wf(),
        final(board).is_direct(),
        final(board).width == old(board).width,
        final(board).height == old(board).height,
        ({
            let fs = spec_first_start(pos, direction);
            let fe = spec_first_end(pos, direction);
            let ss = spec_second_start(pos, direction);
            let se = spec_second_end(pos, direction);
            let rev = old(board).spec_node(fe).next == Some(fs);
            let mid_fs = after_orientation(*old(board), pos, latter_size, rev, fs);
            let mid_fe = after_orientation(*old(board), pos, latter_size, rev, fe);
            let mid_ss = after_orientation(*old(board), pos, latter_size, rev, ss);
            let mid_se = after_orientation(*old(board), pos, latter_size, rev, se);
            &&& (r is Ok <==> spec_redirect(mid_fs, Some(fe), ss) is Some && spec_redirect(
                mid_fe,
                Some(fs),
                se,
            ) is Some && spec_redirect(mid_ss, None, fs) is Some && spec_redirect(
                mid_se,
                None,
                fe,
            ) is Some)
            &&& forall|q: BoardPos|
                old(board).spec_in_range(q) && q != fs && q != fe && q != ss && q != se
                    ==> final(board).spec_node(q) == after_orientation(
                    *old(board),
                    pos,
                    latter_size,
                    rev,
                    q,
                )
            &&& (r is Ok ==> final(board).spec_node(fs) == spec_redirect(
                mid_fs,
                Some(fe),
                ss,
            ).unwrap() && final(board).spec_node(fe) == spec_redirect(mid_fe, Some(fs), se).unwrap()
                && final(board).spec_node(ss) == spec_redirect(mid_ss, None, fs).unwrap()
                && final(board).spec_node(se) == spec_redirect(mid_se, None, fe).unwrap())
            &&& (r is Err ==> final(board).spec_node(fs) == mid_fs && final(board).spec_node(fe)
                == mid_fe && final(board).spec_node(ss) == mid_ss && final(board).spec_node(se)
                == mid_se)
            &&& (r is Err ==> r.unwrap_err() == spec_merge_failure(
                mid_fs,
                mid_fe,
                mid_ss,
                mid_se,
                pos,
                direction,
            ))
        }),
{
    let (first_end, first_start, second_end) = match direction {
        Direction::Horizontal => (
            BoardPos { col: pos.col - 2, row: pos.row },
            BoardPos { col: pos.col - 1, row: pos.row + 2 },
            BoardPos { col: pos.col, row: pos.row + 1 },
        ),
        Direction::Vertical => (
            BoardPos { col: pos.col, row: pos.row - 2 },
            BoardPos { col: pos.col + 2, row: pos.row - 1 },
            BoardPos { col: pos.col + 1, row: pos.row },
        ),
    };
    let second_start = pos;
    if opt_eq(board.node(first_end).next(), Some(first_start)) {
        board.reverse_section(pos, latter_size);
    }
    let ghost b1 = *board;
    proof {
        assert forall|q: BoardPos| board.spec_in_range(q) implies b1.spec_node(q)
            == after_orientation(
            *old(board),
            pos,
            latter_size,
            old(board).spec_node(spec_first_end(pos, direction)).next == Some(
                spec_first_start(pos, direction),
            ),
            q,
        ) by {}
    }
    let node = board.node(first_start);
    let plan_fs = plan_update(node.pos(), node.prev(), node.next(), Some(first_end), second_start, direction);
    let node = board.node(first_end);
    let plan_fe = plan_update(node.pos(), node.prev(), node.next(), Some(first_start), second_end, direction);
    let node = board.node(second_start);
    let plan_ss = plan_update(node.pos(), node.prev(), node.next(), None, first_start, direction);
    let node = board.node(second_end);
    let plan_se = plan_update(node.pos(), node.prev(), node.next(), None, first_end, direction);
    let (dir_fs, dir_fe, dir_ss, dir_se) = match (plan_fs, plan_fe, plan_ss, plan_se) {
        (Ok(a), Ok(b), Ok(c), Ok(d)) => (a, b, c, d),
        (Err(e), _, _, _) => {
            return Err(e);
        },
        (_, Err(e), _, _) => {
            return Err(e);
        },
        (_, _, Err(e), _) => {
            return Err(e);
        },
        (_, _, _, Err(e)) => {
            return Err(e);
        },
    };
    {
        let n = board.node_mut(first_start);
        if dir_fs {
            *n.prev_mut() = Some(second_start);
        } else {
            *n.next_mut() = Some(second_start);
        }
    }
    {
        let n = board.node_mut(first_end);
        if dir_fe {
            *n.prev_mut() = Some(second_end);
        } else {
            *n.next_mut() = Some(second_end);
        }
    }
    {
        let n = board.node_mut(second_start);
        if dir_ss {
            *n.prev_mut() = Some(first_start);
        } else {
            *n.next_mut() = Some(first_start);
        }
    }
    {
        let n = board.node_mut(second_end);
        if dir_se {
            *n.prev_mut() = Some(first_end);
        } else {
            *n.next_mut() = Some(first_end);
        }
    }
    Ok(())
}

} // verus!
