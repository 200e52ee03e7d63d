//! One side's grid: ship placement, shot resolution and win detection.

use crate::cell::{CellState, Mark};
use crate::laws::{lemma_ship_added, lemma_sparse_board_has_room};
use crate::random::{random_below, random_bool, thread_rng};
use vstd::prelude::*;

verus! {

/// Side length of the square grid.
pub const BOARD_SIZE: usize = 10;

/// How many random positions `place_ship` tries before it falls back on a
/// scan of the whole grid.
pub const RANDOM_ATTEMPTS: usize = 1000;

/// `(row, col)` names a square of the grid.
pub open spec fn in_bounds(row: int, col: int) -> bool {
    0 <= row < BOARD_SIZE && 0 <= col < BOARD_SIZE
}

/// The `i`-th square of a run that starts at `(row, col)` and extends to the
/// right (`horizontal`) or downwards.
pub open spec fn run_square(row: int, col: int, horizontal: bool, i: int) -> (int, int) {
    if horizontal {
        (row, col + i)
    } else {
        (row + i, col)
    }
}

/// The squares of a run of `size` squares, in order from its start.
pub open spec fn run_squares(row: int, col: int, size: int, horizontal: bool) -> Seq<(int, int)> {
    Seq::new(size as nat, |i: int| run_square(row, col, horizontal, i))
}

/// `(r, c)` is one of the squares of the run of `size` squares starting at
/// `(row, col)`.
pub open spec fn run_covers(row: int, col: int, size: int, horizontal: bool, r: int, c: int) -> bool {
    if horizontal {
        r == row && col <= c < col + size
    } else {
        c == col && row <= r < row + size
    }
}

/// The mathematical content of a board: the grid, row by row, and the
/// coordinates of the ship parts in the order in which they were placed.
pub struct BoardView {
    pub cells: Seq<Seq<CellState>>,
    pub parts: Seq<(int, int)>,
}

impl BoardView {
    /// The board with nothing on it.
    pub open spec fn empty() -> BoardView {
        BoardView {
            cells: Seq::new(
                BOARD_SIZE as nat,
                |r: int| Seq::new(BOARD_SIZE as nat, |c: int| CellState::Empty),
            ),
            parts: Seq::empty(),
        }
    }

    /// The grid is square, and the recorded ship parts are exactly the
    /// squares that hold a ship part (intact or hit), each recorded once.
    pub open spec fn wf(self) -> bool {
        &&& self.cells.len() == BOARD_SIZE
        &&& forall|r: int| 0 <= r < BOARD_SIZE ==> (#[trigger] self.cells[r]).len() == BOARD_SIZE
        &&& forall|i: int|
            0 <= i < self.parts.len() ==> {
                let p = #[trigger] self.parts[i];
                in_bounds(p.0, p.1) && self.cells[p.0][p.1].holds_ship()
            }
        &&& forall|r: int, c: int|
            in_bounds(r, c) && (#[trigger] self.cells[r][c]).holds_ship() ==> self.parts.contains(
                (r, c),
            )
        &&& self.parts.no_duplicates()
    }

    /// The `i`-th square of the given run lies on the grid and is `Empty`.
    pub open spec fn run_free(self, row: int, col: int, horizontal: bool, i: int) -> bool {
        let p = run_square(row, col, horizontal, i);
        in_bounds(p.0, p.1) && self.cells[p.0][p.1] == CellState::Empty
    }

    /// A ship of `size` squares may be put at `(row, col)`: the whole run lies
    /// on the grid and covers only `Empty` squares.
    pub open spec fn can_place(self, row: int, col: int, size: int, horizontal: bool) -> bool {
        forall|i: int| 0 <= i < size ==> #[trigger] self.run_free(row, col, horizontal, i)
    }

    /// Some position and orientation admits a ship of `size` squares.
    pub open spec fn has_room(self, size: int) -> bool {
        exists|row: int, col: int, horizontal: bool| #[trigger]
            self.can_place(row, col, size, horizontal)
    }

    /// The board with a ship of `size` squares added at `(row, col)`: the
    /// squares of the run hold `Ship`, and their coordinates follow the parts
    /// recorded before.
    pub open spec fn with_ship(self, row: int, col: int, size: int, horizontal: bool) -> BoardView {
        BoardView {
            cells: Seq::new(
                BOARD_SIZE as nat,
                |r: int|
                    Seq::new(
                        BOARD_SIZE as nat,
                        |c: int|
                            if run_covers(row, col, size, horizontal, r, c) {
                                CellState::Ship
                            } else {
                                self.cells[r][c]
                            },
                    ),
            ),
            parts: self.parts + run_squares(row, col, size, horizontal),
        }
    }

    /// The board after a shot at `(row, col)`: that one square is resolved,
    /// nothing else changes.
    pub open spec fn fired(self, row: int, col: int) -> BoardView {
        BoardView {
            cells: self.cells.update(
                row,
                self.cells[row].update(col, self.cells[row][col].after_shot()),
            ),
            parts: self.parts,
        }
    }

    /// Every recorded ship part has been hit.
    pub open spec fn destroyed(self) -> bool {
        forall|i: int|
            0 <= i < self.parts.len() ==> {
                let p = #[trigger] self.parts[i];
                self.cells[p.0][p.1] == CellState::Hit
            }
    }

    /// No shot has landed yet: every square is `Empty` or `Ship`.
    pub open spec fn untouched(self) -> bool {
        forall|r: int, c: int|
            in_bounds(r, c) ==> !(#[trigger] self.cells[r][c]).is_resolved()
    }

    /// The squares that hold an intact ship part.
    pub open spec fn ship_squares(self) -> Set<(int, int)> {
        Set::new(|p: (int, int)| in_bounds(p.0, p.1) && self.cells[p.0][p.1] == CellState::Ship)
    }

    /// `after` is this board with one more ship of `size` squares, put at a
    /// position where it may be put.
    pub open spec fn ship_added(self, size: int, after: BoardView) -> bool {
        exists|row: int, col: int, horizontal: bool|
            #![trigger self.can_place(row, col, size, horizontal)]
            self.can_place(row, col, size, horizontal) && after == self.with_ship(
                row,
                col,
                size,
                horizontal,
            )
    }

    /// This board is the empty board with the standard fleet put on it, one
    /// ship after the other, the longest first.
    pub open spec fn holds_fleet(self) -> bool {
        exists|a: BoardView, b: BoardView, c: BoardView, d: BoardView|
            #![trigger a.ship_added(4, b), c.ship_added(3, d)]
            BoardView::empty().ship_added(5, a) && a.ship_added(4, b) && b.ship_added(3, c)
                && c.ship_added(3, d) && d.ship_added(2, self)
    }
}

/// Placing a ship where it may be placed keeps the board well formed.
pub proof fn lemma_with_ship_wf(v: BoardView, row: int, col: int, size: int, horizontal: bool)
    requires
        v.wf(),
        0 <= size,
        v.can_place(row, col, size, horizontal),
    ensures
        v.with_ship(row, col, size, horizontal).wf(),
{
    let w = v.with_ship(row, col, size, horizontal);
    let run = run_squares(row, col, size, horizontal);
    assert forall|i: int| 0 <= i < size implies {
        let p = #[trigger] run[i];
        &&& in_bounds(p.0, p.1)
        &&& v.cells[p.0][p.1] == CellState::Empty
        &&& run_covers(row, col, size, horizontal, p.0, p.1)
    } by {
        assert(v.run_free(row, col, horizontal, i));
    }
    assert forall|i: int| 0 <= i < w.parts.len() implies {
        let p = #[trigger] w.parts[i];
        in_bounds(p.0, p.1) && w.cells[p.0][p.1].holds_ship()
    } by {
        if i < v.parts.len() {
            assert(w.parts[i] == v.parts[i]);
        } else {
            assert(w.parts[i] == run[i - v.parts.len()]);
        }
    }
    assert forall|r: int, c: int|
        in_bounds(r, c) && (#[trigger] w.cells[r][c]).holds_ship() implies w.parts.contains(
        (r, c),
    ) by {
        if run_covers(row, col, size, horizontal, r, c) {
            let i = if horizontal { c - col } else { r - row };
            assert(run[i] == (r, c));
            assert(w.parts[v.parts.len() + i] == (r, c));
        } else {
            assert(v.cells[r][c].holds_ship());
            assert(v.parts.contains((r, c)));
            let i = choose|i: int| 0 <= i < v.parts.len() && v.parts[i] == (r, c);
            assert(w.parts[i] == (r, c));
        }
    }
    assert forall|i: int, j: int|
        0 <= i < w.parts.len() && 0 <= j < w.parts.len() && i != j implies w.parts[i]
        != w.parts[j] by {
        let n = v.parts.len() as int;
        if i < n && j < n {
            assert(w.parts[i] == v.parts[i] && w.parts[j] == v.parts[j]);
        } else if i >= n && j >= n {
            assert(w.parts[i] == run[i - n] && w.parts[j] == run[j - n]);
        } else if i < n {
            assert(w.parts[i] == v.parts[i] && w.parts[j] == run[j - n]);
        } else {
            assert(w.parts[j] == v.parts[j] && w.parts[i] == run[i - n]);
        }
    }
}

/// A shot keeps the board well formed.
pub proof fn lemma_fired_wf(v: BoardView, row: int, col: int)
    requires
        v.wf(),
        in_bounds(row, col),
    ensures
        v.fired(row, col).wf(),
{
    let w = v.fired(row, col);
    assert forall|r: int, c: int| in_bounds(r, c) implies #[trigger] w.cells[r][c] == (if r == row
        && c == col {
        v.cells[r][c].after_shot()
    } else {
        v.cells[r][c]
    }) by {}
    assert forall|i: int| 0 <= i < w.parts.len() implies {
        let p = #[trigger] w.parts[i];
        in_bounds(p.0, p.1) && w.cells[p.0][p.1].holds_ship()
    } by {
        let p = v.parts[i];
        assert(v.cells[p.0][p.1].holds_ship());
    }
    assert forall|r: int, c: int|
        in_bounds(r, c) && (#[trigger] w.cells[r][c]).holds_ship() implies w.parts.contains(
        (r, c),
    ) by {
        assert(v.cells[r][c].holds_ship());
    }
}

/// One side's grid and fleet.
pub struct Board {
    grid: Vec<CellState>,
    ships: Vec<(usize, usize)>,
}

/// Position of `(row, col)` in the row-major grid.
spec fn flat_index(row: int, col: int) -> int {
    row * BOARD_SIZE + col
}

impl View for Board {
    type V = BoardView;

    closed spec fn view(&self) -> BoardView {
        BoardView {
            cells: Seq::new(
                BOARD_SIZE as nat,
                |r: int| Seq::new(BOARD_SIZE as nat, |c: int| self.grid@[flat_index(r, c)]),
            ),
            parts: Seq::new(
                self.ships@.len(),
                |i: int| (self.ships@[i].0 as int, self.ships@[i].1 as int),
            ),
        }
    }
}

impl Board {
    /// The representation holds a full grid and its content is well formed.
    pub closed spec fn wf(&self) -> bool {
        &&& self.grid@.len() == BOARD_SIZE * BOARD_SIZE
        &&& self@.wf()
    }

    /// A well-formed board has a well-formed view.
    pub proof fn lemma_view_wf(&self)
        requires
            self.wf(),
        ensures
            self@.wf(),
    {
    }

    /// A board with every square `Empty` and no ship part recorded.
    pub fn new() -> (board: Board)
        ensures
            board.wf(),
            board@ == BoardView::empty(),
    {
        let mut grid: Vec<CellState> = Vec::new();
        let mut i: usize = 0;
        while i < BOARD_SIZE * BOARD_SIZE
            invariant
                i <= BOARD_SIZE * BOARD_SIZE,
                grid@.len() == i,
                forall|j: int| 0 <= j < i ==> grid@[j] == CellState::Empty,
            decreases BOARD_SIZE * BOARD_SIZE - i,
        {
            grid.push(CellState::Empty);
            i += 1;
        }
        let board = Board { grid, ships: Vec::new() };
        proof {
            assert(board@.cells =~~= BoardView::empty().cells);
            assert(board@.parts =~= BoardView::empty().parts);
        }
        board
    }

    /// The state of the square at `(row, col)`.
    pub fn cell(&self, row: usize, col: usize) -> (state: CellState)
        requires
            self.wf(),
            in_bounds(row as int, col as int),
        ensures
            state == self@.cells[row as int][col as int],
    {
        self.grid[row * BOARD_SIZE + col]
    }

    /// The whole grid as a viewer sees it, row by row: every square as
    /// `CellState::mark` shows it, ships hidden or not.
    pub fn snapshot(&self, hide_ships: bool) -> (rows: Vec<Vec<Mark>>)
        requires
            self.wf(),
        ensures
            rows@.len() == BOARD_SIZE,
            forall|r: int| 0 <= r < BOARD_SIZE ==> (#[trigger] rows@[r])@.len() == BOARD_SIZE,
            forall|r: int, c: int|
                in_bounds(r, c) ==> #[trigger] rows@[r]@[c] == self@.cells[r][c].mark(hide_ships),
    {
        let mut rows: Vec<Vec<Mark>> = Vec::new();
        let mut row: usize = 0;
        while row < BOARD_SIZE
            invariant
                self.wf(),
                row <= BOARD_SIZE,
                rows@.len() == row,
                forall|r: int| 0 <= r < row ==> (#[trigger] rows@[r])@.len() == BOARD_SIZE,
                forall|r: int, c: int|
                    0 <= r < row && 0 <= c < BOARD_SIZE ==> #[trigger] rows@[r]@[c]
                        == self@.cells[r][c].mark(hide_ships),
            decreases BOARD_SIZE - row,
        {
            let mut line: Vec<Mark> = Vec::new();
            let mut col: usize = 0;
            while col < BOARD_SIZE
                invariant
                    self.wf(),
                    row < BOARD_SIZE,
                    col <= BOARD_SIZE,
                    line@.len() == col,
                    forall|c: int|
                        0 <= c < col ==> #[trigger] line@[c] == self@.cells[row as int][c].mark(
                            hide_ships,
                        ),
                decreases BOARD_SIZE - col,
            {
                line.push(self.cell(row, col).shown_as(hide_ships));
                col += 1;
            }
            rows.push(line);
            row += 1;
        }
        rows
    }

    /// Whether a ship of `size` squares may be put at `(row, col)`, extending
    /// to the right if `horizontal` and downwards otherwise. Changes nothing.
    pub fn can_place_ship(&self, row: usize, col: usize, size: usize, horizontal: bool) -> (ok: bool)
        requires
            self.wf(),
        ensures
            ok == self@.can_place(row as int, col as int, size as int, horizontal),
    {
        if size == 0 {
            return true;
        }
        if row >= BOARD_SIZE || col >= BOARD_SIZE {
            assert(!self@.run_free(row as int, col as int, horizontal, 0));
            return false;
        }
        let start: usize = if horizontal { col } else { row };
        if size > BOARD_SIZE - start {
            assert(!self@.run_free(row as int, col as int, horizontal, size - 1));
            return false;
        }
        let mut i: usize = 0;
        while i < size
            invariant
                self.wf(),
                i <= size,
                row < BOARD_SIZE,
                col < BOARD_SIZE,
                start == if horizontal { col } else { row },
                size <= BOARD_SIZE - start,
                forall|j: int| 0 <= j < i ==> #[trigger] self@.run_free(row as int, col as int, horizontal, j),
            decreases size - i,
        {
            let r: usize = if horizontal { row } else { row + i };
            let c: usize = if horizontal { col + i } else { col };
            if self.grid[r * BOARD_SIZE + c] != CellState::Empty {
                assert(!self@.run_free(row as int, col as int, horizontal, i as int));
                return false;
            }
            i += 1;
        }
        true
    }

    /// Puts a ship of `size` squares at `(row, col)` if it may be put there,
    /// and says whether it did. Otherwise the board stays as it was.
    pub fn place_ship_at(&mut self, row: usize, col: usize, size: usize, horizontal: bool) -> (placed: bool)
        requires
            old(self).wf(),
        ensures
            final(self).wf(),
            placed == old(self)@.can_place(row as int, col as int, size as int, horizontal),
            placed ==> final(self)@ == old(self)@.with_ship(
                row as int,
                col as int,
                size as int,
                horizontal,
            ),
            !placed ==> final(self)@ == old(self)@,
    {
        if !self.can_place_ship(row, col, size, horizontal) {
            return false;
        }
        let ghost before = *self;
        let mut i: usize = 0;
        while i < size
            invariant
                i <= size,
                before.wf(),
                before@.can_place(row as int, col as int, size as int, horizontal),
                self.grid@.len() == BOARD_SIZE * BOARD_SIZE,
                forall|r: int, c: int|
                    in_bounds(r, c) ==> #[trigger] self.grid@[flat_index(r, c)] == (if run_covers(
                        row as int,
                        col as int,
                        i as int,
                        horizontal,
                        r,
                        c,
                    ) {
                        CellState::Ship
                    } else {
                        before.grid@[flat_index(r, c)]
                    }),
                self.ships@.len() == before.ships@.len() + i,
                forall|k: int| 0 <= k < before.ships@.len() ==> self.ships@[k] == before.ships@[k],
                forall|k: int|
                    0 <= k < i ==> {
                        let s = #[trigger] self.ships@[before.ships@.len() + k];
                        (s.0 as int, s.1 as int) == run_square(row as int, col as int, horizontal, k)
                    },
            decreases size - i,
        {
            assert(before@.run_free(row as int, col as int, horizontal, i as int));
            let r: usize = if horizontal { row } else { row + i };
            let c: usize = if horizontal { col + i } else { col };
            let ghost prev = self.grid@;
            self.grid[r * BOARD_SIZE + c] = CellState::Ship;
            self.ships.push((r, c));
            proof {
                assert forall|r2: int, c2: int| in_bounds(r2, c2) implies #[trigger] self.grid@[flat_index(
                    r2,
                    c2,
                )] == (if run_covers(row as int, col as int, i + 1, horizontal, r2, c2) {
                    CellState::Ship
                } else {
                    before.grid@[flat_index(r2, c2)]
                }) by {
                    if r2 == r && c2 == c {
                    } else {
                        assert(flat_index(r2, c2) != flat_index(r as int, c as int));
                        assert(self.grid@[flat_index(r2, c2)] == prev[flat_index(r2, c2)]);
                    }
                }
            }
            i += 1;
        }
        proof {
            let target = before@.with_ship(row as int, col as int, size as int, horizontal);
            assert(self@.cells =~~= target.cells);
            let n = before.ships@.len() as int;
            assert forall|k: int| 0 <= k < n + size implies self@.parts[k] == target.parts[k] by {
                if k >= n {
                    let s = self.ships@[n + (k - n)];
                    assert((s.0 as int, s.1 as int) == run_square(
                        row as int,
                        col as int,
                        horizontal,
                        k - n,
                    ));
                }
            }
            assert(self@.parts =~= target.parts);
            lemma_with_ship_wf(before@, row as int, col as int, size as int, horizontal);
        }
        true
    }

    /// Resolves a shot at `(row, col)`: an `Empty` square becomes `Miss`, an
    /// intact ship part becomes `Hit`, a square already shot at stays as it
    /// is. Reports `Hit` only where an intact ship part was struck.
    pub fn fire(&mut self, row: usize, col: usize) -> (outcome: CellState)
        requires
            old(self).wf(),
            in_bounds(row as int, col as int),
        ensures
            final(self).wf(),
            outcome == old(self)@.cells[row as int][col as int].shot_report(),
            final(self)@ == old(self)@.fired(row as int, col as int),
    {
        let ghost before = *self;
        let at: usize = row * BOARD_SIZE + col;
        let outcome = match self.grid[at] {
            CellState::Empty => {
                self.grid[at] = CellState::Miss;
                CellState::Miss
            },
            CellState::Ship => {
                self.grid[at] = CellState::Hit;
                CellState::Hit
            },
            _ => CellState::Miss,
        };
        proof {
            let target = before@.fired(row as int, col as int);
            assert forall|r: int, c: int| in_bounds(r, c) implies #[trigger] self@.cells[r][c]
                == target.cells[r][c] by {
                if r == row && c == col {
                } else {
                    assert(flat_index(r, c) != flat_index(row as int, col as int));
                }
            }
            assert(self@.cells =~~= target.cells);
            assert(self@.parts =~= target.parts);
            lemma_fired_wf(before@, row as int, col as int);
        }
        outcome
    }

    /// Whether the whole fleet is sunk: every recorded ship part is `Hit`.
    pub fn is_game_over(&self) -> (over: bool)
        requires
            self.wf(),
        ensures
            over == self@.destroyed(),
    {
        let mut i: usize = 0;
        while i < self.ships.len()
            invariant
                self.wf(),
                i <= self.ships@.len(),
                forall|k: int|
                    0 <= k < i ==> {
                        let p = #[trigger] self@.parts[k];
                        self@.cells[p.0][p.1] == CellState::Hit
                    },
            decreases self.ships@.len() - i,
        {
            let (r, c) = self.ships[i];
            let ghost p = self@.parts[i as int];
            assert(in_bounds(p.0, p.1));
            if self.grid[r * BOARD_SIZE + c] != CellState::Hit {
                assert(self@.cells[p.0][p.1] != CellState::Hit);
                return false;
            }
            i += 1;
        }
        true
    }

    /// Puts a ship of `size` squares at the first position, in row-major
    /// order and horizontal before vertical, at which it may be put.
    fn place_ship_scan(&mut self, size: usize) -> (placed: bool)
        requires
            old(self).wf(),
            1 <= size,
        ensures
            final(self).wf(),
            placed == old(self)@.has_room(size as int),
            placed ==> old(self)@.ship_added(size as int, final(self)@),
            !placed ==> final(self)@ == old(self)@,
    {
        let mut row: usize = 0;
        while row < BOARD_SIZE
            invariant
                row <= BOARD_SIZE,
                1 <= size,
                self@ == old(self)@,
                self.wf(),
                forall|r: int, c: int, h: bool|
                    0 <= r < row && 0 <= c < BOARD_SIZE ==> !#[trigger] self@.can_place(
                        r,
                        c,
                        size as int,
                        h,
                    ),
            decreases BOARD_SIZE - row,
        {
            let mut col: usize = 0;
            while col < BOARD_SIZE
                invariant
                    row < BOARD_SIZE,
                    col <= BOARD_SIZE,
                    1 <= size,
                    self@ == old(self)@,
                    self.wf(),
                    forall|r: int, c: int, h: bool|
                        0 <= r < row && 0 <= c < BOARD_SIZE ==> !#[trigger] self@.can_place(
                            r,
                            c,
                            size as int,
                            h,
                        ),
                    forall|c: int, h: bool|
                        0 <= c < col ==> !#[trigger] self@.can_place(row as int, c, size as int, h),
                decreases BOARD_SIZE - col,
            {
                if self.place_ship_at(row, col, size, true) {
                    return true;
                }
                if self.place_ship_at(row, col, size, false) {
                    return true;
                }
                col += 1;
            }
            row += 1;
        }
        proof {
            assert forall|r: int, c: int, h: bool| !#[trigger] self@.can_place(
                r,
                c,
                size as int,
                h,
            ) by {
                if !in_bounds(r, c) {
                    assert(!self@.run_free(r, c, h, 0));
                }
            }
        }
        false
    }

    /// Puts a ship of `size` squares somewhere on the board where it may be
    /// put, and says whether it found a place: it does whenever there is one.
    ///
    /// The position is drawn at random, row, column and orientation, up to
    /// `RANDOM_ATTEMPTS` times; if none of the draws admits the ship, the
    /// first admissible position in row-major order is taken. A board without
    /// room for the ship stays as it was.
    pub fn place_ship(&mut self, size: usize) -> (placed: bool)
        requires
            old(self).wf(),
            1 <= size <= BOARD_SIZE,
        ensures
            final(self).wf(),
            placed == old(self)@.has_room(size as int),
            placed ==> old(self)@.ship_added(size as int, final(self)@),
            !placed ==> final(self)@ == old(self)@,
    {
        let mut rng = thread_rng();
        let mut attempts: usize = 0;
        while attempts < RANDOM_ATTEMPTS
            invariant
                self@ == old(self)@,
                self.wf(),
            decreases RANDOM_ATTEMPTS - attempts,
        {
            let row = random_below(&mut rng, BOARD_SIZE);
            let col = random_below(&mut rng, BOARD_SIZE);
            let horizontal = random_bool(&mut rng);
            if self.place_ship_at(row, col, size, horizontal) {
                assert(old(self)@.can_place(row as int, col as int, size as int, horizontal));
                return true;
            }
            attempts += 1;
        }
        self.place_ship_scan(size)
    }

    /// A board that holds the standard fleet: ships of 5, 4, 3, 3 and 2
    /// squares, each put at random where it fits beside those before it.
    pub fn with_fleet() -> (board: Board)
        ensures
            board.wf(),
            board@.holds_fleet(),
    {
        let mut board = Board::new();
        let ghost start = board@;
        proof {
            assert(start.parts.len() == 0);
            lemma_sparse_board_has_room(start, 5);
        }
        let first = board.place_ship(5);
        let ghost a = board@;
        proof {
            lemma_ship_added(start, 5, a);
            lemma_sparse_board_has_room(a, 4);
        }
        let second = board.place_ship(4);
        let ghost b = board@;
        proof {
            lemma_ship_added(a, 4, b);
            lemma_sparse_board_has_room(b, 3);
        }
        let third = board.place_ship(3);
        let ghost c = board@;
        proof {
            lemma_ship_added(b, 3, c);
            lemma_sparse_board_has_room(c, 3);
        }
        let fourth = board.place_ship(3);
        let ghost d = board@;
        proof {
            lemma_ship_added(c, 3, d);
            lemma_sparse_board_has_room(d, 2);
        }
        let fifth = board.place_ship(2);
        // Seventeen parts never fill the twenty half rows, so each ship found room.
        assert(first && second && third && fourth && fifth);
        assert(a.ship_added(4, b) && c.ship_added(3, d));
        board
    }
}

} // verus!
