//! The library's view of one board position. Move generation, check and
//! draw detection live in an external board library; what the search reads
//! of a position enters here as plain values: the side to move, both
//! sides' piece tallies, the number of legal successors, and the terminal
//! classification the external rules give the position.

use vstd::prelude::*;

use crate::eval::Side;
use crate::phase::PieceTally;

verus! {

/// What the game rules say about a position once the side to move has no
/// legal successor: either a win for one side (checkmate) or a draw
/// (stalemate).
#[derive(Clone, Copy, Debug, PartialEq, Eq, Structural)]
pub enum NoMoveOutcome {
    Win(Side),
    Draw,
}

/// The terminal-state classification of a position, given how many legal
/// successors it has.
#[derive(Clone, Copy, Debug, PartialEq, Eq, Structural)]
pub enum TerminalState {
    Ongoing,
    Win(Side),
    Draw,
}

/// One reachable position, as plain values. `mobility` is the number of
/// legal successor positions; `no_move_outcome` classifies the position
/// under the assumption that no legal move exists; `drawn` marks a draw
/// that holds regardless of mobility (insufficient material, repetition).
#[derive(Clone, Copy, Debug, PartialEq, Eq, Structural)]
pub struct Position {
    pub side_to_move: Side,
    pub white: PieceTally,
    pub black: PieceTally,
    pub mobility: usize,
    pub no_move_outcome: NoMoveOutcome,
    pub drawn: bool,
}

/// The terminal state of `p` when it has `mobility` legal successors: a
/// standing draw wins over everything, a position without successors is
/// decided by its no-move outcome, and anything else is ongoing.
pub open spec fn spec_game_state(p: Position, mobility: usize) -> TerminalState {
    if p.drawn {
        TerminalState::Draw
    } else if mobility == 0 {
        match p.no_move_outcome {
            NoMoveOutcome::Win(s) => TerminalState::Win(s),
            NoMoveOutcome::Draw => TerminalState::Draw,
        }
    } else {
        TerminalState::Ongoing
    }
}

impl Position {
    /// Classifies this position given `mobility` legal successors.
    pub fn game_state(&self, mobility: usize) -> (r: TerminalState)
        ensures
            r == spec_game_state(*self, mobility),
    {
        if self.drawn {
            TerminalState::Draw
        } else if mobility == 0 {
            match self.no_move_outcome {
                NoMoveOutcome::Win(s) => TerminalState::Win(s),
                NoMoveOutcome::Draw => TerminalState::Draw,
            }
        } else {
            TerminalState::Ongoing
        }
    }
}

} // verus!
