use chess_engine::book::BOOK_MIN_FREQUENCY;
use chess_engine::book::phase_after_reply;
use chess_engine::book::BookMove;
use chess_engine::book::select_book_move;
use chess_engine::phase::GamePhase;

fn reply(id: i64, san: &str, freq: i64) -> BookMove {
    BookMove { id, parent_move: 1, san: san.to_string(), eval_milli: 0, freq, terminal: false }
}

#[test]
fn most_frequent_reply_wins() {
    let replies = vec![reply(10, "e4", 40), reply(11, "d4", 55), reply(12, "c4", 8)];
    assert_eq!(select_book_move(&replies, BOOK_MIN_FREQUENCY), Some(1));
}

#[test]
fn replies_below_the_support_threshold_are_ignored() {
    let replies = vec![reply(10, "e4", 2), reply(11, "d4", 1), reply(12, "c4", 3)];
    // Only the last reply clears the threshold of more than two sightings.
    assert_eq!(select_book_move(&replies, BOOK_MIN_FREQUENCY), Some(2));
}

#[test]
fn no_qualifying_reply_means_fall_back_to_search() {
    let replies = vec![reply(10, "e4", 2), reply(11, "d4", 0)];
    assert_eq!(select_book_move(&replies, BOOK_MIN_FREQUENCY), None);
    assert_eq!(select_book_move(&Vec::new(), BOOK_MIN_FREQUENCY), None);
}

#[test]
fn frequency_ties_keep_the_later_reply() {
    let replies = vec![reply(10, "e4", 30), reply(11, "d4", 30), reply(12, "c4", 30)];
    assert_eq!(select_book_move(&replies, BOOK_MIN_FREQUENCY), Some(2));
}

#[test]
fn terminal_reply_leaves_the_opening() {
    assert_eq!(phase_after_reply(42, false), Some(GamePhase::Opening(42)));
    assert_eq!(phase_after_reply(42, true), None);
}
