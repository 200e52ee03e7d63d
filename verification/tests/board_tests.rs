use battleship::board::{Board, BOARD_SIZE};
use battleship::cell::{CellState, Mark};

fn count_cells(board: &Board, wanted: CellState) -> usize {
    let mut n = 0;
    for r in 0..BOARD_SIZE {
        for c in 0..BOARD_SIZE {
            if board.cell(r, c) == wanted {
                n += 1;
            }
        }
    }
    n
}

#[test]
fn new_board_is_empty() {
    let board = Board::new();
    assert_eq!(count_cells(&board, CellState::Empty), 100);
    assert!(board.is_game_over());
}

#[test]
fn two_square_ship_is_sunk_by_two_hits() {
    let mut board = Board::new();
    assert!(board.place_ship_at(0, 0, 2, true));
    assert_eq!(board.cell(0, 0), CellState::Ship);
    assert_eq!(board.cell(0, 1), CellState::Ship);
    assert_eq!(count_cells(&board, CellState::Ship), 2);
    assert!(!board.is_game_over());
    assert_eq!(board.fire(0, 0), CellState::Hit);
    assert!(!board.is_game_over());
    assert_eq!(board.fire(0, 1), CellState::Hit);
    assert!(board.is_game_over());
    assert_eq!(board.fire(5, 5), CellState::Miss);
    assert_eq!(board.cell(5, 5), CellState::Miss);
    assert!(board.is_game_over());
}

#[test]
fn miss_on_empty_board_and_refire() {
    let mut board = Board::new();
    assert_eq!(board.fire(3, 3), CellState::Miss);
    assert_eq!(board.cell(3, 3), CellState::Miss);
    assert_eq!(board.fire(3, 3), CellState::Miss);
    assert_eq!(board.cell(3, 3), CellState::Miss);
    assert_eq!(count_cells(&board, CellState::Miss), 1);
    assert_eq!(count_cells(&board, CellState::Empty), 99);
}

#[test]
fn refire_on_hit_reports_miss_and_keeps_hit() {
    let mut board = Board::new();
    assert!(board.place_ship_at(4, 4, 3, false));
    assert_eq!(board.fire(5, 4), CellState::Hit);
    let before = board.snapshot(false);
    assert_eq!(board.fire(5, 4), CellState::Miss);
    assert_eq!(board.cell(5, 4), CellState::Hit);
    assert_eq!(board.snapshot(false), before);
    assert!(!board.is_game_over());
}

#[test]
fn game_over_needs_every_part_hit() {
    let mut board = Board::new();
    assert!(board.place_ship_at(2, 2, 3, true));
    assert!(board.place_ship_at(7, 0, 2, false));
    for (r, c) in [(2, 2), (2, 3), (2, 4), (7, 0)] {
        assert_eq!(board.fire(r, c), CellState::Hit);
        assert!(!board.is_game_over());
    }
    assert_eq!(board.cell(8, 0), CellState::Ship);
    assert_eq!(board.fire(8, 0), CellState::Hit);
    assert!(board.is_game_over());
}

#[test]
fn can_place_checks_bounds() {
    let board = Board::new();
    assert!(board.can_place_ship(0, 0, 10, true));
    assert!(board.can_place_ship(0, 0, 10, false));
    assert!(!board.can_place_ship(0, 1, 10, true));
    assert!(!board.can_place_ship(1, 0, 10, false));
    assert!(board.can_place_ship(9, 5, 5, true));
    assert!(!board.can_place_ship(9, 6, 5, true));
    assert!(board.can_place_ship(5, 9, 5, false));
    assert!(!board.can_place_ship(6, 9, 5, false));
    assert!(!board.can_place_ship(10, 0, 1, true));
    assert!(!board.can_place_ship(0, 10, 1, false));
    assert!(!board.can_place_ship(0, 0, 11, true));
    assert!(!board.can_place_ship(3, 3, usize::MAX, true));
    assert!(!board.can_place_ship(3, 3, usize::MAX, false));
    assert!(board.can_place_ship(9, 9, 1, true));
}

#[test]
fn can_place_checks_overlap() {
    let mut board = Board::new();
    assert!(board.place_ship_at(3, 3, 4, true));
    assert!(!board.can_place_ship(3, 0, 4, true));
    assert!(board.can_place_ship(3, 0, 3, true));
    assert!(!board.can_place_ship(1, 5, 3, false));
    assert!(board.can_place_ship(1, 5, 2, false));
    assert!(board.can_place_ship(4, 3, 4, true));
    assert!(!board.can_place_ship(3, 6, 1, false));
    assert!(board.can_place_ship(3, 7, 1, false));
}

#[test]
fn can_place_sees_resolved_squares_as_taken() {
    let mut board = Board::new();
    assert_eq!(board.fire(0, 2), CellState::Miss);
    assert!(!board.can_place_ship(0, 0, 3, true));
    assert!(board.can_place_ship(0, 0, 2, true));
}

#[test]
fn can_place_gives_the_same_answer_again() {
    let mut board = Board::new();
    assert!(board.place_ship_at(0, 0, 5, false));
    for r in 0..BOARD_SIZE {
        for c in 0..BOARD_SIZE {
            for size in 1..=5 {
                for horizontal in [true, false] {
                    let first = board.can_place_ship(r, c, size, horizontal);
                    let second = board.can_place_ship(r, c, size, horizontal);
                    assert_eq!(first, second);
                }
            }
        }
    }
    assert_eq!(count_cells(&board, CellState::Ship), 5);
}

#[test]
fn refused_placement_changes_nothing() {
    let mut board = Board::new();
    assert!(board.place_ship_at(0, 0, 3, true));
    let before = board.snapshot(false);
    assert!(!board.place_ship_at(0, 2, 3, false));
    assert!(!board.place_ship_at(8, 8, 3, true));
    assert_eq!(board.snapshot(false), before);
    assert_eq!(count_cells(&board, CellState::Ship), 3);
}

#[test]
fn vertical_placement_marks_a_column() {
    let mut board = Board::new();
    assert!(board.place_ship_at(2, 7, 4, false));
    for r in 0..BOARD_SIZE {
        for c in 0..BOARD_SIZE {
            let expected = if c == 7 && (2..6).contains(&r) { CellState::Ship } else { CellState::Empty };
            assert_eq!(board.cell(r, c), expected);
        }
    }
}

#[test]
fn full_length_ship_spans_a_row_or_a_column() {
    for _ in 0..50 {
        let mut board = Board::new();
        assert!(board.place_ship(10));
        assert_eq!(count_cells(&board, CellState::Ship), 10);
        let row_spanned = (0..BOARD_SIZE)
            .any(|r| (0..BOARD_SIZE).all(|c| board.cell(r, c) == CellState::Ship));
        let col_spanned = (0..BOARD_SIZE)
            .any(|c| (0..BOARD_SIZE).all(|r| board.cell(r, c) == CellState::Ship));
        assert!(row_spanned != col_spanned);
    }
}

#[test]
fn place_ship_adds_one_straight_run() {
    for size in 1..=10 {
        let mut board = Board::new();
        assert!(board.place_ship(size));
        assert_eq!(count_cells(&board, CellState::Ship), size);
        let mut rows = Vec::new();
        let mut cols = Vec::new();
        for r in 0..BOARD_SIZE {
            for c in 0..BOARD_SIZE {
                if board.cell(r, c) == CellState::Ship {
                    rows.push(r);
                    cols.push(c);
                }
            }
        }
        let one_row = rows.iter().all(|r| *r == rows[0]);
        let one_col = cols.iter().all(|c| *c == cols[0]);
        assert!(one_row || one_col);
        if one_row {
            assert_eq!(cols[size - 1] - cols[0], size - 1);
        } else {
            assert_eq!(rows[size - 1] - rows[0], size - 1);
        }
    }
}

#[test]
fn place_ship_finds_the_only_free_run() {
    let mut board = Board::new();
    for r in 0..9 {
        assert!(board.place_ship_at(r, 0, 10, true));
    }
    assert!(board.place_ship_at(9, 0, 7, true));
    assert!(board.place_ship(3));
    assert_eq!(count_cells(&board, CellState::Ship), 100);
    for c in 7..10 {
        assert_eq!(board.cell(9, c), CellState::Ship);
    }
}

#[test]
fn place_ship_reports_a_full_board() {
    let mut board = Board::new();
    for r in 0..10 {
        assert!(board.place_ship_at(r, 0, 10, true));
    }
    let before = board.snapshot(false);
    assert!(!board.place_ship(1));
    assert_eq!(board.snapshot(false), before);
}

#[test]
fn place_ship_reports_no_room_for_a_long_ship() {
    let mut board = Board::new();
    for i in 0..10 {
        assert_eq!(board.fire(i, i), CellState::Miss);
    }
    assert!(!board.place_ship(10));
    assert!(board.place_ship(9));
    assert_eq!(count_cells(&board, CellState::Ship), 9);
}

#[test]
fn fleet_covers_seventeen_squares() {
    for _ in 0..100 {
        let board = Board::with_fleet();
        assert_eq!(count_cells(&board, CellState::Ship), 17);
        assert_eq!(count_cells(&board, CellState::Empty), 83);
        assert!(!board.is_game_over());
    }
}

#[test]
fn fleet_is_sunk_after_every_square_was_shot() {
    let mut board = Board::with_fleet();
    let mut hits = 0;
    for r in 0..BOARD_SIZE {
        for c in 0..BOARD_SIZE {
            assert_eq!(board.is_game_over(), hits == 17);
            if board.fire(r, c) == CellState::Hit {
                hits += 1;
            }
        }
    }
    assert_eq!(hits, 17);
    assert!(board.is_game_over());
    assert_eq!(count_cells(&board, CellState::Hit), 17);
    assert_eq!(count_cells(&board, CellState::Miss), 83);
}

#[test]
fn snapshot_hides_only_unresolved_squares() {
    let mut board = Board::new();
    assert!(board.place_ship_at(0, 0, 2, true));
    assert_eq!(board.fire(0, 0), CellState::Hit);
    assert_eq!(board.fire(1, 0), CellState::Miss);
    let open = board.snapshot(false);
    let hidden = board.snapshot(true);
    assert_eq!(open.len(), 10);
    assert_eq!(hidden.len(), 10);
    assert!(open.iter().all(|row| row.len() == 10));
    assert_eq!(open[0][0], Mark::Hit);
    assert_eq!(open[0][1], Mark::Ship);
    assert_eq!(open[1][0], Mark::Miss);
    assert_eq!(open[1][1], Mark::Water);
    assert_eq!(hidden[0][0], Mark::Hit);
    assert_eq!(hidden[0][1], Mark::Blank);
    assert_eq!(hidden[1][0], Mark::Miss);
    assert_eq!(hidden[1][1], Mark::Blank);
}

#[test]
fn marks_of_each_state() {
    assert_eq!(CellState::Empty.shown_as(false), Mark::Water);
    assert_eq!(CellState::Empty.shown_as(true), Mark::Blank);
    assert_eq!(CellState::Ship.shown_as(false), Mark::Ship);
    assert_eq!(CellState::Ship.shown_as(true), Mark::Blank);
    assert_eq!(CellState::Hit.shown_as(false), Mark::Hit);
    assert_eq!(CellState::Hit.shown_as(true), Mark::Hit);
    assert_eq!(CellState::Miss.shown_as(false), Mark::Miss);
    assert_eq!(CellState::Miss.shown_as(true), Mark::Miss);
}
