use knights_tour::board::Board;
use knights_tour::board::corner_radius::{CornerRadius, dead_squares_from_corner_radius};
use knights_tour::board::corner::Corner;
use knights_tour::board_pos::BoardPos;
use knights_tour::board_size::BoardSize;
use knights_tour::divide_and_conquer::bases;
use knights_tour::divide_and_conquer::merge::merge;
use knights_tour::divide_and_conquer::partitions;
use knights_tour::knight::Knight;
use knights_tour::move_graph::{Direction, MoveGraph};
use knights_tour::board::{ImageMode, pixel_visible};
use knights_tour::tour::{check_closed_tour, check_path_tour};
use knights_tour::warnsdorff::{Mode, StretchedCache, StructureMode};
use knights_tour::warnsdorff::move_tracker::MoveTracker;

fn pos(col: u32, row: u32) -> BoardPos {
    BoardPos::new(col, row)
}

#[test]
fn knight_move_legality() {
    assert!(pos(0, 0).is_knight_move(pos(2, 1)));
    assert!(pos(0, 0).is_knight_move(pos(1, 2)));
    assert!(pos(5, 5).is_knight_move(pos(3, 4)));
    assert!(!pos(0, 0).is_knight_move(pos(2, 2)));
    assert!(!pos(0, 0).is_knight_move(pos(0, 0)));
    assert!(!pos(0, 0).is_knight_move(pos(3, 1)));
}

#[test]
fn translate_checks_bounds() {
    let size = BoardSize::new(8, 8);
    assert_eq!(pos(0, 0).try_translate_on_board(2, 1, size), Some(pos(2, 1)));
    assert_eq!(pos(0, 0).try_translate_on_board(-1, 0, size), None);
    assert_eq!(pos(7, 7).try_translate_on_board(1, 0, size), None);
    assert_eq!(pos(3, 3).try_translate_on_board(-2, -1, size), Some(pos(1, 2)));
    assert_eq!(pos(0, 0).try_translate(-1, 0), None);
    assert_eq!(pos(4, 2).flip(), pos(2, 4));
}

#[test]
fn knight_generates_moves_accepted_by_the_predicate() {
    let knight = Knight::new(pos(0, 0));
    let all = |_from: BoardPos, _to: BoardPos| true;
    let moves = knight.get_possible_moves(&all);
    assert_eq!(moves.len(), 2);
    for m in &moves {
        assert!(pos(0, 0).is_knight_move(*m));
    }
    let none = |_from: BoardPos, _to: BoardPos| false;
    assert_eq!(knight.get_possible_moves(&none).len(), 0);
    assert_eq!(knight.possible_moves_count(&all, 1), 2);
    // away from the edges all eight moves appear, each once
    let centre = Knight::new(pos(4, 4));
    let eight = centre.get_possible_moves(&all);
    assert_eq!(eight.len(), 8);
    for i in 0..eight.len() {
        for j in 0..i {
            assert!(eight[i] != eight[j], "no move is listed twice");
        }
    }
    assert_eq!(centre.possible_moves_count(&all, 1), 8);
}

#[test]
fn graph_views_swap_links_on_read() {
    let mut g = MoveGraph::new(4, 4);
    {
        let n = g.node_mut(pos(0, 0));
        *n.next_mut() = Some(pos(2, 1));
    }
    {
        let n = g.node_mut(pos(2, 1));
        *n.prev_mut() = Some(pos(0, 0));
    }
    assert_eq!(g.node(pos(0, 0)).next(), Some(pos(2, 1)));
    assert_eq!(g.node(pos(0, 0)).prev(), None);
    let view = g.ref_to();
    assert_eq!(view.node(pos(0, 0)).next(), Some(pos(2, 1)));
    let reversed = view.reverse();
    assert_eq!(reversed.node(pos(0, 0)).next(), None);
    assert_eq!(reversed.node(pos(0, 0)).prev(), Some(pos(2, 1)));
    assert_eq!(reversed.node(pos(2, 1)).next(), Some(pos(0, 0)));
    // a reversal of a reversal collapses back
    let twice = reversed.reverse();
    assert_eq!(twice.node(pos(0, 0)).next(), Some(pos(2, 1)));
}

#[test]
fn graph_flip_transposes_links() {
    let mut g = MoveGraph::new(3, 5);
    {
        let n = g.node_mut(pos(1, 2));
        *n.next_mut() = Some(pos(2, 4));
    }
    let f = g.flip();
    assert_eq!(f.width(), 5);
    assert_eq!(f.height(), 3);
    assert_eq!(f.node(pos(2, 1)).next(), Some(pos(4, 2)));
}

#[test]
fn graph_combine_places_tiles_side_by_side() {
    let mut a = MoveGraph::new(2, 3);
    {
        let n = a.node_mut(pos(1, 1));
        *n.next_mut() = Some(pos(0, 2));
    }
    let mut b = MoveGraph::new(2, 3);
    {
        let n = b.node_mut(pos(0, 0));
        *n.next_mut() = Some(pos(1, 2));
    }
    let c = a.combine(b, Direction::Horizontal);
    assert_eq!(c.width(), 4);
    assert_eq!(c.height(), 3);
    assert_eq!(c.node(pos(1, 1)).next(), Some(pos(0, 2)));
    assert_eq!(c.node(pos(2, 0)).next(), Some(pos(3, 2)));
}

#[test]
fn reverse_section_only_touches_the_rectangle() {
    let mut g = MoveGraph::new(4, 4);
    {
        let n = g.node_mut(pos(0, 0));
        *n.next_mut() = Some(pos(2, 1));
    }
    {
        let n = g.node_mut(pos(3, 3));
        *n.next_mut() = Some(pos(1, 2));
    }
    g.reverse_section(pos(0, 0), BoardSize::new(2, 2));
    assert_eq!(g.node(pos(0, 0)).next(), None);
    assert_eq!(g.node(pos(0, 0)).prev(), Some(pos(2, 1)));
    assert_eq!(g.node(pos(3, 3)).next(), Some(pos(1, 2)));
}

#[test]
fn merge_reports_unexpected_adjacency() {
    // a fresh graph has no links at the seam, so the assembled-side nodes
    // match no expected pattern
    let mut g = MoveGraph::new(8, 8);
    let r = merge(&mut g, pos(4, 0), BoardSize::new(4, 4), Direction::Horizontal);
    assert!(r.is_err());
    let e = r.unwrap_err();
    assert_eq!(e.direction, Direction::Horizontal);
}

#[test]
fn split_length_keeps_second_part_even() {
    for n in 1..60u32 {
        let (a, b) = partitions::split_length(n);
        assert_eq!(a + b, n);
        assert_eq!(b % 2, 0);
    }
    assert_eq!(partitions::split_length(11), (5, 6));
    assert_eq!(partitions::split_length(20), (10, 10));
}

#[test]
fn partition_covers_the_board_with_small_tiles() {
    for (w, h) in [(8u32, 8u32), (12, 12), (21, 17), (40, 3)] {
        let size = BoardSize::new(w, h);
        let sectors = partitions::partition_size(size);
        let mut covered = vec![false; (w * h) as usize];
        for (p, tile, _dir) in &sectors {
            assert!(tile.width() >= 1 && tile.width() <= 10);
            assert!(tile.height() >= 1 && tile.height() <= 10);
            assert!(p.col() + tile.width() <= w);
            assert!(p.row() + tile.height() <= h);
            for c in p.col()..p.col() + tile.width() {
                for r in p.row()..p.row() + tile.height() {
                    let idx = (c * h + r) as usize;
                    assert!(!covered[idx], "tiles overlap at {c},{r}");
                    covered[idx] = true;
                }
            }
        }
        assert!(covered.iter().all(|x| *x), "tiles cover the board");
        assert_eq!(sectors[0].0, pos(0, 0), "the first tile holds the origin");
        for (p, _tile, dir) in &sectors {
            let expected = if p.col() <= p.row() { Direction::Vertical } else { Direction::Horizontal };
            assert_eq!(*dir, expected, "the tag matches the stitcher's rule");
        }
    }
}

#[test]
fn stretched_cache_round_trip() {
    let mut cache = StretchedCache::new();
    let size = BoardSize::new(5, 6);
    assert!(cache.get(size, Direction::Vertical).is_none());
    let mut c2 = StretchedCache::new();
    let solved = knights_tour::warnsdorff::solve_internal(
        size,
        Mode::Structured(StructureMode::Stretched(Direction::Vertical)),
        &mut c2,
    )
    .expect("a 5x6 stretched tile exists");
    // the solved tile was memoized under its size and direction
    assert!(c2.get(size, Direction::Vertical).is_some());
    assert!(c2.get(size, Direction::Horizontal).is_none());
    let _ = solved;
    let _ = cache;
}

#[test]
fn transposed_cache_entry_is_derived_by_flipping() {
    let mut cache = StretchedCache::new();
    let first = knights_tour::warnsdorff::solve_internal(
        BoardSize::new(5, 6),
        Mode::Structured(StructureMode::Stretched(Direction::Vertical)),
        &mut cache,
    )
    .expect("a 5x6 stretched tile exists");
    let second = knights_tour::warnsdorff::solve_internal(
        BoardSize::new(6, 5),
        Mode::Structured(StructureMode::Stretched(Direction::Horizontal)),
        &mut cache,
    )
    .expect("the transposed orientation is derived from the memo");
    // same visiting order under the axis swap
    for col in 0..5u32 {
        for row in 0..6u32 {
            let a = first.node(pos(col, row));
            let b = second.node(pos(row, col));
            assert_eq!(b.next(), a.next().map(|p| p.flip()));
            assert_eq!(b.prev(), a.prev().map(|p| p.flip()));
        }
    }
}

#[test]
fn four_by_ten_base_is_a_stretched_tour() {
    let mut cache = StretchedCache::new();
    let g = bases::get(Direction::Horizontal, BoardSize::new(4, 10), &mut cache)
        .expect("the 4x10 base exists");
    let board = g.to_board();
    let mut seen = 0;
    for col in 0..4 {
        for row in 0..10 {
            if *board.at(pos(col, row)) > 0 {
                seen += 1;
            }
        }
    }
    assert_eq!(seen, 40);
    // and the flipped orientation comes from the same memo
    assert!(cache.get(BoardSize::new(10, 4), Direction::Vertical).is_some());
    assert!(bases::get(Direction::Vertical, BoardSize::new(10, 4), &mut cache).is_some());
    assert!(bases::get(Direction::Horizontal, BoardSize::new(5, 5), &mut cache).is_none());
}

#[test]
fn board_tracks_dead_squares() {
    let board = Board::new(3, 3, 0).with_dead_squares(vec![pos(1, 1), pos(9, 9)]);
    assert!(!board.is_alive(pos(1, 1)));
    assert!(board.is_alive(pos(0, 0)));
}

#[test]
fn corner_radius_excludes_far_corner_squares() {
    let c = Corner::from(5u32);
    let radius = CornerRadius { top_left: c, top_right: c, bottom_right: c, bottom_left: c };
    let size = BoardSize::new(10, 10);
    assert!(!radius.is_in_range(pos(0, 0), size));
    assert!(radius.is_in_range(pos(5, 5), size));
    let dead = dead_squares_from_corner_radius(&radius, size);
    assert!(dead.contains(&pos(0, 0)));
    assert!(!dead.contains(&pos(5, 5)));
}

fn no_dead_mask(w: u32, h: u32) -> knights_tour::board::matrix2d::Matrix2D<bool> {
    knights_tour::board::matrix2d::Matrix2D::new(w, h, || false)
}

#[test]
fn tour_checkers_accept_and_reject() {
    // the one-square board is a trivial open tour: just the root sentinel
    let mut g = MoveGraph::new(1, 1);
    {
        let n = g.node_mut(pos(0, 0));
        *n.prev_mut() = Some(pos(0, 0));
    }
    let mask = no_dead_mask(1, 1);
    assert!(check_path_tour(&g, &mask, pos(0, 0), None));
    assert!(!check_closed_tour(&g, &mask, pos(0, 0)));

    // a half-linked pair of squares is no tour at all
    let mut h = MoveGraph::new(3, 3);
    {
        let n = h.node_mut(pos(0, 0));
        *n.next_mut() = Some(pos(2, 1));
    }
    let mask3 = no_dead_mask(3, 3);
    assert!(!check_path_tour(&h, &mask3, pos(0, 0), None));
    assert!(!check_closed_tour(&h, &mask3, pos(0, 0)));
}

#[test]
fn pixel_classification_by_mode() {
    assert_eq!(pixel_visible(ImageMode::Alpha, 0, 0, 0, 200, 128), Ok(true));
    assert_eq!(pixel_visible(ImageMode::Alpha, 0, 0, 0, 100, 128), Ok(false));
    assert_eq!(pixel_visible(ImageMode::BlackWhite, 0, 0, 0, 255, 128), Ok(true));
    assert_eq!(pixel_visible(ImageMode::BlackWhite, 255, 255, 255, 255, 128), Ok(false));
    assert!(pixel_visible(ImageMode::BlackWhite, 128, 0, 0, 255, 128).is_err());
    // pure white has luma 255, pure black 0
    assert_eq!(pixel_visible(ImageMode::Luminance, 255, 255, 255, 0, 128), Ok(true));
    assert_eq!(pixel_visible(ImageMode::Luminance, 0, 0, 0, 255, 128), Ok(false));
    // the luma weights: a mid grey of 128 sits exactly at the threshold
    assert_eq!(pixel_visible(ImageMode::Luminance, 128, 128, 128, 0, 128), Ok(true));
    assert_eq!(pixel_visible(ImageMode::Luminance, 128, 128, 128, 0, 129), Ok(false));
}

#[test]
fn to_board_marks_linkless_squares_dead() {
    // no links anywhere: every square is recorded as dead, and only the
    // walk's root receives a number
    let g = MoveGraph::new(2, 2);
    let board = g.to_board();
    assert_eq!(*board.at(pos(0, 0)), 1);
    assert_eq!(*board.at(pos(1, 0)), 0);
    assert_eq!(*board.at(pos(0, 1)), 0);
    assert_eq!(*board.at(pos(1, 1)), 0);
    assert!(!board.is_alive(pos(1, 1)));
}

#[test]
fn move_tracker_is_a_stack() {
    let mut t = MoveTracker::new(4);
    t.push(pos(0, 0));
    t.push(pos(2, 1));
    assert_eq!(t.pop(), Some(pos(2, 1)));
    assert_eq!(t.pop(), Some(pos(0, 0)));
    assert_eq!(t.pop(), None);
}
