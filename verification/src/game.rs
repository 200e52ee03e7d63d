//! The turn coordinator: two boards and the state machine that alternates
//! shots between them until one fleet is sunk.

use crate::board::{in_bounds, Board, BoardView, BOARD_SIZE};
use crate::cell::CellState;
use crate::random::{random_below, thread_rng};
use vstd::prelude::*;

verus! {

/// Where a session stands.
#[derive(Clone, Copy, Debug, PartialEq, Eq, Structural)]
pub enum GameState {
    /// The fleets are not on the boards yet.
    SetUp,
    /// The player shoots next, at the opponent's board.
    PlayerTurn,
    /// The opponent shoots next, at the player's board.
    OpponentTurn,
    /// The opponent's fleet is sunk.
    PlayerWon,
    /// The player's fleet is sunk.
    OpponentWon,
}

impl GameState {
    /// A side is about to shoot.
    pub open spec fn is_active(self) -> bool {
        self == GameState::PlayerTurn || self == GameState::OpponentTurn
    }

    /// The session is over.
    pub open spec fn is_terminal(self) -> bool {
        self == GameState::PlayerWon || self == GameState::OpponentWon
    }

    /// The state that follows a shot taken in this state, given whether the
    /// fleet shot at is sunk after it. Only an active state moves on.
    pub open spec fn after_shot(self, target_sunk: bool) -> GameState {
        match self {
            GameState::PlayerTurn => if target_sunk {
                GameState::PlayerWon
            } else {
                GameState::OpponentTurn
            },
            GameState::OpponentTurn => if target_sunk {
                GameState::OpponentWon
            } else {
                GameState::PlayerTurn
            },
            other => other,
        }
    }
}

/// A session: each side's own board, and whose turn it is.
pub struct Game {
    pub player_board: Board,
    pub opponent_board: Board,
    pub state: GameState,
}

impl Game {
    /// Both boards are well formed.
    pub open spec fn wf(&self) -> bool {
        self.player_board.wf() && self.opponent_board.wf()
    }

    /// The content of the board that the side to move shoots at.
    pub open spec fn target(&self) -> BoardView {
        if self.state == GameState::PlayerTurn {
            self.opponent_board@
        } else {
            self.player_board@
        }
    }

    /// A session before setup: both boards empty.
    pub fn new() -> (game: Game)
        ensures
            game.wf(),
            game.state == GameState::SetUp,
            game.player_board@ == BoardView::empty(),
            game.opponent_board@ == BoardView::empty(),
    {
        Game { player_board: Board::new(), opponent_board: Board::new(), state: GameState::SetUp }
    }

    /// Puts the standard fleet on each board, independently of the other, and
    /// hands the first turn to the player.
    pub fn set_up(&mut self)
        requires
            old(self).state == GameState::SetUp,
        ensures
            final(self).wf(),
            final(self).state == GameState::PlayerTurn,
            final(self).player_board@.holds_fleet(),
            final(self).opponent_board@.holds_fleet(),
    {
        self.player_board = Board::with_fleet();
        self.opponent_board = Board::with_fleet();
        self.state = GameState::PlayerTurn;
    }

    /// The side to move shoots at `(row, col)` on the other side's board.
    /// Returns what the shot did. The shooter has won if the fleet shot at is
    /// sunk after the shot; otherwise the turn passes to the other side. The
    /// shooter's own board is not touched.
    pub fn take_turn(&mut self, row: usize, col: usize) -> (outcome: CellState)
        requires
            old(self).wf(),
            old(self).state.is_active(),
            in_bounds(row as int, col as int),
        ensures
            final(self).wf(),
            outcome == old(self).target().cells[row as int][col as int].shot_report(),
            old(self).state == GameState::PlayerTurn ==> {
                &&& final(self).opponent_board@ == old(self).opponent_board@.fired(
                    row as int,
                    col as int,
                )
                &&& final(self).player_board == old(self).player_board
            },
            old(self).state == GameState::OpponentTurn ==> {
                &&& final(self).player_board@ == old(self).player_board@.fired(
                    row as int,
                    col as int,
                )
                &&& final(self).opponent_board == old(self).opponent_board
            },
            final(self).state == old(self).state.after_shot(
                old(self).target().fired(row as int, col as int).destroyed(),
            ),
    {
        match self.state {
            GameState::PlayerTurn => {
                let outcome = self.opponent_board.fire(row, col);
                let sunk = self.opponent_board.is_game_over();
                self.state = if sunk {
                    GameState::PlayerWon
                } else {
                    GameState::OpponentTurn
                };
                outcome
            },
            _ => {
                let outcome = self.player_board.fire(row, col);
                let sunk = self.player_board.is_game_over();
                self.state = if sunk {
                    GameState::OpponentWon
                } else {
                    GameState::PlayerTurn
                };
                outcome
            },
        }
    }
}

/// The opponent's move: a square of the grid drawn at random, with no memory
/// of earlier shots.
pub fn generate_opponent_move() -> (target: (usize, usize))
    ensures
        in_bounds(target.0 as int, target.1 as int),
{
    let mut rng = thread_rng();
    let row = random_below(&mut rng, BOARD_SIZE);
    let col = random_below(&mut rng, BOARD_SIZE);
    (row, col)
}

} // verus!
