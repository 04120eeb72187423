//! Position scoring. A finished position scores absolutely: a forced mate
//! credited to the winning side at the current search depth, or an even
//! score for a draw. An ongoing position scores heuristically as the
//! weighted material balance, after the node's game phase has been
//! re-derived from the material on the board.

use vstd::prelude::*;

use crate::eval::Eval;
use crate::phase::GamePhase;
use crate::phase::PieceTally;
use crate::phase::spec_determine_phase;
use crate::position::Position;
use crate::position::TerminalState;
use crate::position::spec_game_state;
use crate::tree::Branch;

verus! {

// Piece values
pub const PAWN_VAL: i64 = 1;

pub const KNIGHT_VAL: i64 = 3;

pub const BISHOP_VAL: i64 = 3;

pub const ROOK_VAL: i64 = 5;

pub const QUEEN_VAL: i64 = 9;

/// The weighted material value of one side's pieces.
pub open spec fn material(t: PieceTally) -> int {
    PAWN_VAL * t.pawns + KNIGHT_VAL * t.knights + BISHOP_VAL * t.bishops + ROOK_VAL * t.rooks
        + QUEEN_VAL * t.queens
}

/// The heuristic score of an ongoing position: White's material minus
/// Black's.
pub open spec fn spec_eval_heuristic(p: Position) -> Eval {
    Eval::Numeric((material(p.white) - material(p.black)) as i64)
}

/// The score of a position with `mobility` legal successors at search
/// depth `depth`: a mate in `depth` plies for the winner of a finished
/// position, an even score for a draw, and the material balance otherwise.
pub open spec fn spec_eval_position(p: Position, mobility: usize, depth: usize) -> Eval {
    match spec_game_state(p, mobility) {
        TerminalState::Ongoing => spec_eval_heuristic(p),
        TerminalState::Win(s) => Eval::Mate(depth, s),
        TerminalState::Draw => Eval::Numeric(0),
    }
}

/// Scores a position directly, without touching any tree node.
pub fn eval_position(position: &Position, mobility: usize, depth: usize) -> (r: Eval)
    ensures
        r == spec_eval_position(*position, mobility, depth),
{
    match position.game_state(mobility) {
        TerminalState::Ongoing => Eval::Numeric(
            eval_pieces(&position.white) - eval_pieces(&position.black),
        ),
        TerminalState::Win(s) => Eval::Mate(depth, s),
        TerminalState::Draw => Eval::Numeric(0),
    }
}

/// The weighted material value of one side's pieces. Each count is at
/// most 255, so the sum stays far below the integer limits.
fn eval_pieces(pieces: &PieceTally) -> (r: i64)
    ensures
        r == material(*pieces),
{
    PAWN_VAL * pieces.pawns as i64 + KNIGHT_VAL * pieces.knights as i64 + BISHOP_VAL
        * pieces.bishops as i64 + ROOK_VAL * pieces.rooks as i64 + QUEEN_VAL * pieces.queens as i64
}

impl Branch {
    /// Scores this node's position with `mobility` legal successors at
    /// search depth `depth`. For an ongoing position the node's game
    /// phase is re-derived first, since evaluation may depend on it; a
    /// finished position scores absolutely and the phase is untouched.
    pub fn eval_position(&mut self, mobility: usize, depth: usize) -> (r: Eval)
        requires
            !(old(self).phase matches Some(GamePhase::Opening(_))),
        ensures
            r == spec_eval_position(old(self).position, mobility, depth),
            final(self).position == old(self).position,
            final(self).eval == old(self).eval,
            final(self).children == old(self).children,
            final(self).is_terminal == old(self).is_terminal,
            spec_game_state(old(self).position, mobility) is Ongoing ==> final(self).phase == Some(
                spec_determine_phase(
                    old(self).phase,
                    old(self).position.white,
                    old(self).position.black,
                ),
            ),
            !(spec_game_state(old(self).position, mobility) is Ongoing) ==> final(self).phase
                == old(self).phase,
    {
        match self.position.game_state(mobility) {
            TerminalState::Ongoing => self.eval_heuristic(mobility),
            TerminalState::Win(s) => Eval::Mate(depth, s),
            TerminalState::Draw => Eval::Numeric(0),
        }
    }

    /// Scores this node's position as the material balance, re-deriving
    /// the node's game phase first.
    pub fn eval_heuristic(&mut self, _mobility: usize) -> (r: Eval)
        requires
            !(old(self).phase matches Some(GamePhase::Opening(_))),
        ensures
            r == spec_eval_heuristic(old(self).position),
            final(self).position == old(self).position,
            final(self).eval == old(self).eval,
            final(self).children == old(self).children,
            final(self).is_terminal == old(self).is_terminal,
            final(self).phase == Some(
                spec_determine_phase(
                    old(self).phase,
                    old(self).position.white,
                    old(self).position.black,
                ),
            ),
    {
        let white = self.position.white;
        let black = self.position.black;

        // Evaluation may depend on the game phase, so it is re-derived
        // before the material terms are read.
        self.phase = Some(GamePhase::determine_phase(self.phase, &white, &black));

        let piece_value_white = eval_pieces(&white);
        let piece_value_black = eval_pieces(&black);

        Eval::Numeric(piece_value_white - piece_value_black)
    }
}

} // verus!
