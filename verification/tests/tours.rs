use knights_tour::board_pos::BoardPos;
use knights_tour::board_size::BoardSize;
use knights_tour::divide_and_conquer;
use knights_tour::warnsdorff;
use knights_tour::warnsdorff::StretchedCache;

fn pos(col: u32, row: u32) -> BoardPos {
    BoardPos::new(col, row)
}

/// Collect the numbered squares of a solved graph: position by tour index.
fn numbering(board: &knights_tour::board::Board, w: u32, h: u32) -> Vec<Option<BoardPos>> {
    let mut by_number: Vec<Option<BoardPos>> = vec![None; (w * h) as usize + 1];
    for col in 0..w {
        for row in 0..h {
            let v = *board.at(pos(col, row));
            if v > 0 {
                assert!(v <= (w * h) as usize, "number out of range");
                assert!(by_number[v].is_none(), "number assigned twice");
                by_number[v] = Some(pos(col, row));
            }
        }
    }
    by_number
}

#[test]
fn trivial_board_has_one_square_tour() {
    let mut cache = StretchedCache::new();
    let graph = warnsdorff::engine::solve(BoardSize::new(1, 1), Vec::new(), pos(0, 0), &mut cache)
        .expect("a 1x1 board has a trivial tour");
    let board = graph.to_board();
    assert_eq!(*board.at(pos(0, 0)), 1);
}

#[test]
fn small_boards_without_tours_report_failure() {
    // minimum dimension at most two
    for (w, h) in [(1, 2), (2, 2), (2, 5)] {
        let mut cache = StretchedCache::new();
        let r = warnsdorff::engine::solve(BoardSize::new(w, h), Vec::new(), pos(0, 0), &mut cache);
        assert!(r.is_none(), "{w}x{h} should have no tour");
    }
    // the known small impossible shapes
    for (w, h) in [(3, 3), (3, 5), (3, 6), (4, 4)] {
        let mut cache = StretchedCache::new();
        let r = warnsdorff::engine::solve(BoardSize::new(w, h), Vec::new(), pos(0, 0), &mut cache);
        assert!(r.is_none(), "{w}x{h} should have no tour");
    }
}

#[test]
fn warnsdorff_solves_five_by_six() {
    let mut cache = StretchedCache::new();
    let graph = warnsdorff::engine::solve(BoardSize::new(5, 6), Vec::new(), pos(0, 0), &mut cache)
        .expect("a 5x6 open tour exists");
    let board = graph.to_board();
    let by_number = numbering(&board, 5, 6);
    for v in 1..=30 {
        let p = by_number[v].expect("every number 1..=30 appears");
        if v > 1 {
            let prev = by_number[v - 1].unwrap();
            assert!(prev.is_knight_move(p), "step {v} is a knight move");
        }
        let _ = p;
    }
}

#[test]
fn warnsdorff_rejects_dead_start() {
    let mut cache = StretchedCache::new();
    let r = warnsdorff::engine::solve(
        BoardSize::new(5, 6),
        vec![pos(0, 0)],
        pos(0, 0),
        &mut cache,
    );
    assert!(r.is_none(), "a dead starting square has no tour from it");
}

#[test]
fn divide_and_conquer_rejects_three_by_three() {
    let mut cache = StretchedCache::new();
    assert!(divide_and_conquer::solve(BoardSize::new(3, 3), &mut cache).is_none());
}

#[test]
fn divide_and_conquer_solves_eight_by_eight_closed() {
    let mut cache = StretchedCache::new();
    let graph = divide_and_conquer::solve(BoardSize::new(8, 8), &mut cache)
        .expect("an 8x8 closed tour exists");
    let board = graph.to_board();
    let by_number = numbering(&board, 8, 8);
    // a full Hamiltonian cycle of 64 squares
    for v in 1..=64 {
        assert!(by_number[v].is_some(), "number {v} appears");
    }
    for v in 2..=64 {
        let prev = by_number[v - 1].unwrap();
        let here = by_number[v].unwrap();
        assert!(prev.is_knight_move(here), "step {v} is a knight move");
    }
    let first = by_number[1].unwrap();
    let last = by_number[64].unwrap();
    assert!(last.is_knight_move(first), "the tour closes back to its root");
}

#[test]
fn divide_and_conquer_solves_odd_board_open() {
    // both dimensions odd: assembled as if closed with the origin corner
    // excluded, then the origin is wired in as the sole endpoint
    let mut cache = StretchedCache::new();
    let graph = divide_and_conquer::solve(BoardSize::new(9, 9), &mut cache)
        .expect("a 9x9 open tour exists");
    let board = graph.to_board();
    let by_number = numbering(&board, 9, 9);
    for v in 1..=81 {
        assert!(by_number[v].is_some(), "number {v} appears");
    }
    for v in 2..=81 {
        let prev = by_number[v - 1].unwrap();
        let here = by_number[v].unwrap();
        assert!(prev.is_knight_move(here), "step {v} is a knight move");
    }
    assert_eq!(by_number[1], Some(pos(0, 0)), "the origin starts the open tour");
}

#[test]
fn divide_and_conquer_solves_tiny_freeform_board() {
    // a 4-wide board has no structured closed tile; the origin tile is
    // solved freeform and the result is an open tour
    let mut cache = StretchedCache::new();
    let graph = divide_and_conquer::solve(BoardSize::new(4, 6), &mut cache)
        .expect("a 4x6 open tour exists");
    let board = graph.to_board();
    let by_number = numbering(&board, 4, 6);
    for v in 1..=24 {
        assert!(by_number[v].is_some(), "number {v} appears");
    }
    for v in 2..=24 {
        let prev = by_number[v - 1].unwrap();
        let here = by_number[v].unwrap();
        assert!(prev.is_knight_move(here), "step {v} is a knight move");
    }
}

#[test]
fn divide_and_conquer_solves_twelve_by_twelve() {
    let mut cache = StretchedCache::new();
    let graph = divide_and_conquer::solve(BoardSize::new(12, 12), &mut cache)
        .expect("a 12x12 closed tour exists");
    let board = graph.to_board();
    let by_number = numbering(&board, 12, 12);
    for v in 1..=144 {
        assert!(by_number[v].is_some(), "number {v} appears");
    }
    for v in 2..=144 {
        let prev = by_number[v - 1].unwrap();
        let here = by_number[v].unwrap();
        assert!(prev.is_knight_move(here), "step {v} is a knight move");
    }
}
