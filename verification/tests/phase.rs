use chess_engine::eval::Eval;
use chess_engine::eval::Side;
use chess_engine::heuristics::eval_position;
use chess_engine::phase::GamePhase;
use chess_engine::phase::PieceTally;
use chess_engine::position::NoMoveOutcome;
use chess_engine::position::Position;
use chess_engine::tree::Branch;

fn tally(queens: u8, rooks: u8, bishops: u8, knights: u8, pawns: u8) -> PieceTally {
    PieceTally { kings: 1, queens, rooks, bishops, knights, pawns }
}

#[test]
fn full_boards_are_middlegame() {
    let full = tally(1, 2, 2, 2, 8);
    let phase = GamePhase::determine_phase(None, &full, &full);
    assert!(matches!(phase, GamePhase::MiddleGame));
}

#[test]
fn sparse_boards_are_endgame() {
    let sparse = tally(0, 1, 0, 0, 3);
    let phase = GamePhase::determine_phase(Some(GamePhase::MiddleGame), &sparse, &sparse);
    assert!(matches!(phase, GamePhase::EndGame));
}

#[test]
fn endgame_threshold_is_fourteen_non_king_pieces() {
    let seven = tally(1, 1, 1, 1, 3);
    assert!(matches!(GamePhase::determine_phase(None, &seven, &seven), GamePhase::EndGame));
    let eight = tally(1, 1, 1, 1, 4);
    assert!(matches!(GamePhase::determine_phase(None, &eight, &seven), GamePhase::MiddleGame));
}

#[test]
fn endgame_never_reverts() {
    let full = tally(1, 2, 2, 2, 8);
    let phase = GamePhase::determine_phase(Some(GamePhase::EndGame), &full, &full);
    assert!(matches!(phase, GamePhase::EndGame));
}

#[test]
fn insufficient_material_draw_scores_even_and_classifies_endgame() {
    // King against king and one extra minor piece: the game rules call it
    // drawn regardless of the moves available.
    let bare_king = tally(0, 0, 0, 0, 0);
    let king_and_knight = tally(0, 0, 0, 1, 0);
    let position = Position {
        side_to_move: Side::White,
        white: bare_king,
        black: king_and_knight,
        mobility: 5,
        no_move_outcome: NoMoveOutcome::Draw,
        drawn: true,
    };
    assert_eq!(eval_position(&position, 5, 0), Eval::Numeric(0));

    let mut node = Branch::from_parent(position, None);
    let score = node.eval_position(5, 0);
    assert_eq!(score, Eval::Numeric(0));
    let phase = GamePhase::determine_phase(None, &bare_king, &king_and_knight);
    assert!(matches!(phase, GamePhase::EndGame));
}

#[test]
fn material_balance_counts_weighted_pieces() {
    // Pawn 1, knight 3, bishop 3, rook 5, queen 9.
    let white = tally(1, 2, 2, 2, 8);
    let black = tally(1, 2, 2, 2, 8);
    let level = Position {
        side_to_move: Side::White,
        white,
        black,
        mobility: 20,
        no_move_outcome: NoMoveOutcome::Draw,
        drawn: false,
    };
    assert_eq!(eval_position(&level, 20, 0), Eval::Numeric(0));

    let up_a_rook = Position { black: tally(1, 1, 2, 2, 8), ..level };
    assert_eq!(eval_position(&up_a_rook, 20, 0), Eval::Numeric(5));

    let down_queen_up_pawn = Position { white: tally(0, 2, 2, 2, 9), ..level };
    assert_eq!(eval_position(&down_queen_up_pawn, 20, 0), Eval::Numeric(-8));
}

#[test]
fn checkmate_scores_as_mate_at_the_current_depth() {
    let even = tally(1, 2, 2, 2, 8);
    let mated = Position {
        side_to_move: Side::Black,
        white: even,
        black: even,
        mobility: 0,
        no_move_outcome: NoMoveOutcome::Win(Side::White),
        drawn: false,
    };
    assert_eq!(eval_position(&mated, 0, 3), Eval::Mate(3, Side::White));
    let stalemate = Position { no_move_outcome: NoMoveOutcome::Draw, ..mated };
    assert_eq!(eval_position(&stalemate, 0, 3), Eval::Numeric(0));
}

#[test]
fn evaluating_an_ongoing_position_re_derives_the_phase() {
    let sparse = tally(0, 1, 0, 0, 2);
    let position = Position {
        side_to_move: Side::White,
        white: sparse,
        black: sparse,
        mobility: 12,
        no_move_outcome: NoMoveOutcome::Draw,
        drawn: false,
    };
    let mut node = Branch::from_parent(position, Some(GamePhase::MiddleGame));
    node.eval_heuristic(12);
    assert_eq!(node.phase, Some(GamePhase::EndGame));
}
