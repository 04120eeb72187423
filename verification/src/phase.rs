//! Game phase classification: a small one-way state machine
//! (Opening, then MiddleGame, then EndGame) that decides which static
//! evaluation weights and which opening-book behaviour apply. Once a line
//! reaches the endgame it never reverts.

use vstd::prelude::*;

verus! {

/// Piece counts of one side, read off an external board representation.
/// A chess board has 64 squares, so no count can exceed 64; a byte per
/// count is ample.
#[derive(Clone, Copy, Debug, PartialEq, Eq, Structural)]
pub struct PieceTally {
    pub kings: u8,
    pub queens: u8,
    pub rooks: u8,
    pub bishops: u8,
    pub knights: u8,
    pub pawns: u8,
}

/// The phase of the game for one line of play. `Opening` carries the
/// opening-book position identifier used for book lookups.
#[derive(Clone, Copy, Debug, PartialEq, Eq, Structural)]
pub enum GamePhase {
    Opening(i64),
    MiddleGame,
    EndGame,
}

/// Total non-king piece count at or below which a position counts as an
/// endgame. A tunable constant, not derived.
pub const ENDGAME_PIECE_LIMIT: u32 = 14;

/// The non-king piece count of one side's tally.
pub open spec fn non_king_count(t: PieceTally) -> int {
    t.queens + t.rooks + t.bishops + t.knights + t.pawns
}

/// The phase that `GamePhase::determine_phase` assigns when the previous
/// phase does not force the answer: endgame when the sides' combined
/// non-king material is at most the limit, middlegame otherwise.
pub open spec fn spec_middle_or_end(white: PieceTally, black: PieceTally) -> GamePhase {
    if non_king_count(white) + non_king_count(black) <= ENDGAME_PIECE_LIMIT {
        GamePhase::EndGame
    } else {
        GamePhase::MiddleGame
    }
}

/// The phase that `GamePhase::determine_phase` assigns: the endgame is
/// preserved unconditionally, and otherwise the material on the board
/// decides between middlegame and endgame.
pub open spec fn spec_determine_phase(
    current_phase: Option<GamePhase>,
    white: PieceTally,
    black: PieceTally,
) -> GamePhase {
    if current_phase == Some(GamePhase::EndGame) {
        GamePhase::EndGame
    } else {
        spec_middle_or_end(white, black)
    }
}

impl GamePhase {
    /// Re-derives the phase of a line from its previous phase and both
    /// sides' piece tallies. The transition is monotone: a line that has
    /// reached the endgame stays there. Whether book coverage continues
    /// for a line still in the opening is decided by the book gateway,
    /// not here, so an `Opening` phase must not be handed in.
    pub fn determine_phase(
        current_phase: Option<GamePhase>,
        white_pieces: &PieceTally,
        black_pieces: &PieceTally,
    ) -> (r: Self)
        requires
            !(current_phase matches Some(GamePhase::Opening(_))),
        ensures
            r == spec_determine_phase(current_phase, *white_pieces, *black_pieces),
            current_phase == Some(GamePhase::EndGame) ==> r == GamePhase::EndGame,
    {
        if let Some(phase) = current_phase {
            match phase {
                GamePhase::Opening(_) => vstd::pervasive::unreached(),
                GamePhase::MiddleGame => Self::determine_middle_or_end(
                    white_pieces,
                    black_pieces,
                ),
                GamePhase::EndGame => GamePhase::EndGame,
            }
        } else {
            Self::determine_middle_or_end(white_pieces, black_pieces)
        }
    }

    fn determine_middle_or_end(white_pieces: &PieceTally, black_pieces: &PieceTally) -> (r:
        GamePhase)
        ensures
            r == spec_middle_or_end(*white_pieces, *black_pieces),
    {
        if piece_count(white_pieces) + piece_count(black_pieces) <= ENDGAME_PIECE_LIMIT {
            GamePhase::EndGame
        } else {
            GamePhase::MiddleGame
        }
    }
}

/// The non-king piece count of one side.
fn piece_count(pieces: &PieceTally) -> (r: u32)
    ensures
        r == non_king_count(*pieces),
{
    pieces.queens as u32 + pieces.rooks as u32 + pieces.bishops as u32 + pieces.knights as u32
        + pieces.pawns as u32
}

} // verus!
