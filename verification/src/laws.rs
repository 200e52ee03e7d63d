//! What holds of every board, proved over the boards' mathematical content.

use crate::board::{in_bounds, lemma_with_ship_wf, Board, BoardView};
use crate::game::GameState;
use crate::cell::CellState;
use vstd::prelude::*;
use vstd::set_lib::{lemma_int_range, lemma_len_subset, set_int_range};

verus! {

/// The half row, counted row by row from the top left, in which a square lies.
pub open spec fn half_row_of(p: (int, int)) -> int {
    p.0 * 2 + (if p.1 < 5 {
        0int
    } else {
        1int
    })
}

/// Adding a ship keeps the board well formed, records exactly `size` more
/// parts, and lands no shot.
pub proof fn lemma_ship_added(before: BoardView, size: int, after: BoardView)
    requires
        before.wf(),
        0 <= size,
        before.ship_added(size, after),
    ensures
        after.wf(),
        after.parts.len() == before.parts.len() + size,
        before.untouched() ==> after.untouched(),
{
    let (row, col, horizontal) = choose|row: int, col: int, horizontal: bool|
        #![trigger before.can_place(row, col, size, horizontal)]
        before.can_place(row, col, size, horizontal) && after == before.with_ship(
            row,
            col,
            size,
            horizontal,
        );
    lemma_with_ship_wf(before, row, col, size, horizontal);
    if before.untouched() {
        assert forall|r: int, c: int| in_bounds(r, c) implies !(#[trigger] after.cells[r][c]).is_resolved() by {
            assert(!before.cells[r][c].is_resolved());
        }
    }
}

/// A board on which no shot has landed and fewer than twenty ship parts lie
/// has room for a ship of up to five squares: the parts cannot reach all
/// twenty half rows, and a half row without a part is free.
pub proof fn lemma_sparse_board_has_room(v: BoardView, size: int)
    requires
        v.wf(),
        v.untouched(),
        v.parts.len() < 20,
        0 <= size <= 5,
    ensures
        v.has_room(size),
{
    broadcast use vstd::seq_lib::seq_to_set_is_finite;

    let reached = v.parts.map_values(|p: (int, int)| half_row_of(p));
    let covered = reached.to_set();
    reached.lemma_cardinality_of_set();
    lemma_int_range(0, 20);
    if forall|w: int| 0 <= w < 20 ==> covered.contains(w) {
        assert(set_int_range(0, 20).subset_of(covered));
        lemma_len_subset(set_int_range(0, 20), covered);
        assert(false);
    }
    let w = choose|w: int| 0 <= w < 20 && !covered.contains(w);
    let row = w / 2;
    let col = 5 * (w % 2);
    assert forall|i: int| 0 <= i < size implies #[trigger] v.run_free(row, col, true, i) by {
        let c = col + i;
        assert(in_bounds(row, c));
        if v.cells[row][c] != CellState::Empty {
            assert(!v.cells[row][c].is_resolved());
            assert(v.cells[row][c].holds_ship());
            assert(v.parts.contains((row, c)));
            let k = choose|k: int| 0 <= k < v.parts.len() && v.parts[k] == (row, c);
            assert(reached[k] == w);
            assert(reached.contains(w));
            assert(false);
        }
    }
    assert(v.can_place(row, col, size, true));
}

/// The empty board is well formed, and no shot has landed on it.
pub proof fn lemma_empty_board()
    ensures
        BoardView::empty().wf(),
        BoardView::empty().untouched(),
        BoardView::empty().parts.len() == 0,
{
}

/// On a board that holds the standard fleet, exactly 17 squares hold a ship
/// part, all of them on the grid and intact, and no ship covers a square of
/// another: the 17 recorded parts are pairwise different.
pub proof fn lemma_fleet_layout(v: BoardView)
    requires
        v.holds_fleet(),
    ensures
        v.wf(),
        v.untouched(),
        v.parts.len() == 17,
        v.parts.no_duplicates(),
        forall|i: int| 0 <= i < 17 ==> in_bounds((#[trigger] v.parts[i]).0, v.parts[i].1),
        v.ship_squares() == v.parts.to_set(),
        v.ship_squares().finite(),
        v.ship_squares().len() == 17,
{
    broadcast use vstd::seq_lib::seq_to_set_is_finite;

    let (a, b, c, d) = choose|a: BoardView, b: BoardView, c: BoardView, d: BoardView|
        #![trigger a.ship_added(4, b), c.ship_added(3, d)]
        BoardView::empty().ship_added(5, a) && a.ship_added(4, b) && b.ship_added(3, c)
            && c.ship_added(3, d) && d.ship_added(2, v);
    lemma_empty_board();
    lemma_ship_added(BoardView::empty(), 5, a);
    lemma_ship_added(a, 4, b);
    lemma_ship_added(b, 3, c);
    lemma_ship_added(c, 3, d);
    lemma_ship_added(d, 2, v);
    assert forall|p: (int, int)| v.ship_squares().contains(p) <==> v.parts.to_set().contains(
        p,
    ) by {
        if v.ship_squares().contains(p) {
            assert(v.cells[p.0][p.1].holds_ship());
            assert(v.parts.contains((p.0, p.1)));
        }
        if v.parts.to_set().contains(p) {
            let k = choose|k: int| 0 <= k < v.parts.len() && v.parts[k] == p;
            assert(v.cells[v.parts[k].0][v.parts[k].1].holds_ship());
            assert(!v.cells[p.0][p.1].is_resolved());
        }
    }
    assert(v.ship_squares() =~= v.parts.to_set());
    v.parts.unique_seq_to_set();
}

/// Whether a ship may be placed depends on the board's content and the
/// arguments alone: asked again of a board with the same content, the answer
/// is the same.
pub proof fn lemma_can_place_repeatable(
    first: Board,
    second: Board,
    row: int,
    col: int,
    size: int,
    horizontal: bool,
)
    requires
        first@ == second@,
    ensures
        first@.can_place(row, col, size, horizontal) == second@.can_place(
            row,
            col,
            size,
            horizontal,
        ),
{
}

/// After a first shot at a square, every further shot at it is reported as
/// `Miss` and leaves the board exactly as the first shot left it.
pub proof fn lemma_refire_changes_nothing(v: BoardView, row: int, col: int)
    requires
        v.wf(),
        in_bounds(row, col),
    ensures
        v.fired(row, col).cells[row][col].is_resolved(),
        v.fired(row, col).cells[row][col].shot_report() == CellState::Miss,
        v.fired(row, col).fired(row, col) == v.fired(row, col),
{
    let once = v.fired(row, col);
    assert(once.fired(row, col).cells =~~= once.cells);
}

/// A fleet is sunk exactly when every recorded part is `Hit`, and on a well
/// formed board that is exactly when no square holds an intact ship part.
pub proof fn lemma_destroyed_iff_no_ship_left(v: BoardView)
    requires
        v.wf(),
    ensures
        v.destroyed() <==> (forall|i: int|
            0 <= i < v.parts.len() ==> v.cells[(#[trigger] v.parts[i]).0][v.parts[i].1]
                == CellState::Hit),
        v.destroyed() <==> (forall|r: int, c: int|
            in_bounds(r, c) ==> #[trigger] v.cells[r][c] != CellState::Ship),
{
    if v.destroyed() {
        assert forall|r: int, c: int| in_bounds(r, c) implies #[trigger] v.cells[r][c]
            != CellState::Ship by {
            if v.cells[r][c] == CellState::Ship {
                assert(v.cells[r][c].holds_ship());
                assert(v.parts.contains((r, c)));
                let k = choose|k: int| 0 <= k < v.parts.len() && v.parts[k] == (r, c);
                assert(v.cells[v.parts[k].0][v.parts[k].1] == CellState::Hit);
            }
        }
    }
    if forall|r: int, c: int| in_bounds(r, c) ==> #[trigger] v.cells[r][c] != CellState::Ship {
        assert forall|i: int| 0 <= i < v.parts.len() implies {
            let p = #[trigger] v.parts[i];
            v.cells[p.0][p.1] == CellState::Hit
        } by {
            let p = v.parts[i];
            assert(v.cells[p.0][p.1].holds_ship());
        }
    }
}

/// A shot taken on the player's turn leads to the opponent's turn or to the
/// player's win, never to the opponent's win; a shot taken on the opponent's
/// turn leads to the player's turn or to the opponent's win, never to the
/// player's win. A win is declared exactly when the fleet shot at is sunk;
/// a session that is over stays over, and nothing leads back to setup.
pub proof fn lemma_turn_alternation(state: GameState, target_sunk: bool)
    ensures
        state == GameState::PlayerTurn ==> state.after_shot(target_sunk) == (if target_sunk {
            GameState::PlayerWon
        } else {
            GameState::OpponentTurn
        }),
        state == GameState::OpponentTurn ==> state.after_shot(target_sunk) == (if target_sunk {
            GameState::OpponentWon
        } else {
            GameState::PlayerTurn
        }),
        state == GameState::PlayerTurn ==> state.after_shot(target_sunk) != GameState::OpponentWon,
        state == GameState::OpponentTurn ==> state.after_shot(target_sunk) != GameState::PlayerWon,
        state.is_active() ==> state.after_shot(target_sunk) != state,
        !state.is_active() ==> state.after_shot(target_sunk) == state,
        state.is_terminal() ==> state.after_shot(target_sunk) == state,
        state.after_shot(target_sunk).is_terminal() <==> state.is_terminal() || (state.is_active()
            && target_sunk),
        state.after_shot(target_sunk) == GameState::SetUp ==> state == GameState::SetUp,
{
}

/// A ship as long as the grid is wide fits on the empty board exactly where
/// it spans a whole row (horizontal, starting in the first column) or a whole
/// column (vertical, starting in the first row); so the empty board has room
/// for it.
pub proof fn lemma_full_length_ship(row: int, col: int, horizontal: bool)
    ensures
        BoardView::empty().can_place(row, col, 10, horizontal) <==> in_bounds(row, col) && (if horizontal {
            col == 0
        } else {
            row == 0
        }),
        BoardView::empty().has_room(10),
{
    let v = BoardView::empty();
    if v.can_place(row, col, 10, horizontal) {
        assert(v.run_free(row, col, horizontal, 0));
        assert(v.run_free(row, col, horizontal, 9));
    }
    assert(v.can_place(0, 0, 10, true)) by {
        assert forall|i: int| 0 <= i < 10 implies #[trigger] v.run_free(0, 0, true, i) by {}
    }
}

} // verus!
