//! The states a single square of a board goes through.

use vstd::prelude::*;

verus! {

/// What one square of a board holds.
///
/// A square starts `Empty` or, once a ship covers it, `Ship`. A shot turns
/// `Empty` into `Miss` and `Ship` into `Hit`; `Hit` and `Miss` never change
/// again.
#[derive(Clone, Copy, Debug, PartialEq, Eq, Structural)]
pub enum CellState {
    Empty,
    Ship,
    Hit,
    Miss,
}

/// How a square is shown to a viewer.
#[derive(Clone, Copy, Debug, PartialEq, Eq, Structural)]
pub enum Mark {
    /// Nothing is shown: the viewer may not know what the square holds.
    Blank,
    /// Open water.
    Water,
    /// An intact ship part.
    Ship,
    /// A ship part that was hit.
    Hit,
    /// A shot that struck water.
    Miss,
}

impl CellState {
    /// How a square in this state is shown. With `hide_ships` a square that
    /// was not shot at is blank, whether a ship lies on it or not; resolved
    /// squares are shown to everyone.
    pub open spec fn mark(self, hide_ships: bool) -> Mark {
        match self {
            CellState::Empty => if hide_ships {
                Mark::Blank
            } else {
                Mark::Water
            },
            CellState::Ship => if hide_ships {
                Mark::Blank
            } else {
                Mark::Ship
            },
            CellState::Hit => Mark::Hit,
            CellState::Miss => Mark::Miss,
        }
    }

    /// How a square in this state is shown to a viewer who may
    /// (`hide_ships` false) or may not see the ships.
    pub fn shown_as(self, hide_ships: bool) -> (shown: Mark)
        ensures
            shown == self.mark(hide_ships),
    {
        match self {
            CellState::Empty => if hide_ships {
                Mark::Blank
            } else {
                Mark::Water
            },
            CellState::Ship => if hide_ships {
                Mark::Blank
            } else {
                Mark::Ship
            },
            CellState::Hit => Mark::Hit,
            CellState::Miss => Mark::Miss,
        }
    }

    /// The state of a square once a shot has landed on it.
    pub open spec fn after_shot(self) -> CellState {
        match self {
            CellState::Empty => CellState::Miss,
            CellState::Ship => CellState::Hit,
            CellState::Hit => CellState::Hit,
            CellState::Miss => CellState::Miss,
        }
    }

    /// What the shooter is told about a shot on a square in this state:
    /// `Hit` for an intact ship part, `Miss` for everything else, a square
    /// that was already shot at included.
    pub open spec fn shot_report(self) -> CellState {
        if self == CellState::Ship {
            CellState::Hit
        } else {
            CellState::Miss
        }
    }

    /// A ship part lies on the square, intact or hit.
    pub open spec fn holds_ship(self) -> bool {
        self == CellState::Ship || self == CellState::Hit
    }

    /// The square has been shot at.
    pub open spec fn is_resolved(self) -> bool {
        self == CellState::Hit || self == CellState::Miss
    }
}

} // verus!
