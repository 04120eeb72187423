use chess_engine::engine::Engine;
use chess_engine::engine::escalated_budget;
use chess_engine::engine::book_move_testing;
use chess_engine::engine::initial_criteria;
use chess_engine::engine::opening_book_id;
use chess_engine::engine::worker_primary;
use chess_engine::engine::worker_secondary;
use chess_engine::eval::Eval;
use chess_engine::eval::Side;
use chess_engine::phase::GamePhase;
use chess_engine::phase::PieceTally;
use chess_engine::position::NoMoveOutcome;
use chess_engine::position::Position;
use chess_engine::tree::Branch;

fn tally(queens: u8, rooks: u8, bishops: u8, knights: u8, pawns: u8) -> PieceTally {
    PieceTally { kings: 1, queens, rooks, bishops, knights, pawns }
}

fn ongoing(side: Side, white: PieceTally, black: PieceTally, mobility: usize) -> Position {
    Position {
        side_to_move: side,
        white,
        black,
        mobility,
        no_move_outcome: NoMoveOutcome::Draw,
        drawn: false,
    }
}

/// A tree expanded through the fixed job search depth, rooted in a
/// White-to-move position with two lines: the first ends in a mate for
/// White when `white_wins` (a draw otherwise), the second in a draw.
fn small_tree(white_wins: bool) -> Branch {
    let even = tally(1, 2, 2, 2, 8);
    let drawn_leaf = Position {
        side_to_move: Side::Black,
        white: even,
        black: even,
        mobility: 4,
        no_move_outcome: NoMoveOutcome::Draw,
        drawn: true,
    };
    let first_leaf = if white_wins {
        Position {
            side_to_move: Side::Black,
            white: even,
            black: even,
            mobility: 0,
            no_move_outcome: NoMoveOutcome::Win(Side::White),
            drawn: false,
        }
    } else {
        drawn_leaf
    };
    let mut root = Branch::from_parent(ongoing(Side::White, even, even, 2), None);
    root.populate(vec![
        ongoing(Side::Black, even, even, 1),
        ongoing(Side::Black, even, even, 1),
    ]);
    root.children[0].populate(vec![ongoing(Side::White, even, even, 1)]);
    root.children[1].populate(vec![ongoing(Side::White, even, even, 1)]);
    root.children[0].children[0].populate(vec![first_leaf]);
    root.children[1].children[0].populate(vec![drawn_leaf]);
    root
}

#[test]
fn initial_criteria_is_worst_for_the_mover() {
    assert_eq!(initial_criteria(Side::White), Eval::NegInfinity);
    assert_eq!(initial_criteria(Side::Black), Eval::Infinity);
}

#[test]
fn opening_phase_routes_to_the_book() {
    assert_eq!(opening_book_id(Some(GamePhase::Opening(17))), Some(17));
    assert_eq!(opening_book_id(Some(GamePhase::MiddleGame)), None);
    assert_eq!(opening_book_id(Some(GamePhase::EndGame)), None);
    assert_eq!(opening_book_id(None), None);
}

#[test]
fn book_move_testing_consults_the_book_root() {
    assert_eq!(book_move_testing(), Some(1));
}

#[test]
fn primary_job_always_continues() {
    let mut node = small_tree(true);
    let (res, continue_search) = worker_primary(&mut node, &[]);
    assert!(continue_search);
    assert!(res[0].is_some());
}

#[test]
fn failing_secondary_is_not_resubmitted() {
    // Both lines of the challenged subtree end in draws; the line it
    // challenges is already worth nine pawns, so the criteria are not met
    // and the coordinator must drop the line instead of respawning jobs.
    let mut node = small_tree(false);
    let (res, continue_search) = worker_secondary(&mut node, &[1usize], Eval::Numeric(9));
    assert!(!continue_search);

    let even = tally(1, 2, 2, 2, 8);
    let mut engine = Engine::new(ongoing(Side::White, even, even, 2), None);
    engine.branch.populate(vec![
        ongoing(Side::Black, even, even, 1),
        ongoing(Side::Black, even, even, 1),
    ]);
    let [first, second, third] = res;
    let follow_up = engine.handle_result(node, &[1usize], first, second, third, continue_search);
    assert!(follow_up.is_none());
}

#[test]
fn succeeding_secondary_spawns_a_new_trio() {
    // The secondary line beats its criteria, so the coordinator spawns a
    // primary/secondary trio on its top continuations, with the best
    // line's score as the new criteria.
    let mut node = small_tree(true);
    let (res, continue_search) = worker_secondary(&mut node, &[0usize], Eval::Numeric(1));
    assert!(continue_search);

    let even = tally(1, 2, 2, 2, 8);
    let mut engine = Engine::new(ongoing(Side::White, even, even, 2), None);
    engine.branch.populate(vec![
        ongoing(Side::Black, even, even, 1),
        ongoing(Side::Black, even, even, 1),
    ]);
    let [first, second, third] = res;
    let expected = first.clone().unwrap();
    let follow_up = engine.handle_result(node, &[0usize], first, second, third, continue_search);
    let (locations, criteria) = follow_up.expect("the line stays alive");
    assert_eq!(criteria, expected.0);
    assert_eq!(locations[0].clone().unwrap(), expected.1);
}

#[test]
fn merge_updates_the_authoritative_tree() {
    let even = tally(1, 2, 2, 2, 8);
    let mut engine = Engine::new(ongoing(Side::White, even, even, 2), None);
    engine.branch.populate(vec![
        ongoing(Side::Black, even, even, 1),
        ongoing(Side::Black, even, even, 1),
    ]);
    let mut worker_result = Branch::from_parent(ongoing(Side::Black, even, even, 1), None);
    worker_result.eval = Some(Eval::Numeric(5));
    worker_result.is_terminal = true;
    engine.handle_result(worker_result, &[1usize], None, None, None, true);
    let merged = engine.branch.find_branch(&[1usize]);
    assert_eq!(merged.eval, Some(Eval::Numeric(5)));
}

#[test]
fn final_move_is_independent_of_merge_order() {
    // The same two finished jobs, merged in either order, leave the
    // coordinator choosing the same move: merging is keyed by location,
    // and disjoint locations never interfere.
    let even = tally(1, 2, 2, 2, 8);
    let short = tally(1, 2, 2, 2, 7);
    let run = |swap: bool| {
        let mut engine = Engine::new(ongoing(Side::White, even, even, 2), None);
        engine.branch.populate(vec![
            ongoing(Side::Black, even, short, 1),
            ongoing(Side::Black, even, even, 1),
        ]);
        let mut job_a = engine.branch.find_branch(&[0usize]).deep_clone();
        let mut job_b = engine.branch.find_branch(&[1usize]).deep_clone();
        // The first line mates in two plies; the second peters out drawn.
        job_a.populate(vec![ongoing(Side::White, even, short, 1)]);
        job_a.children[0].populate(vec![Position {
            side_to_move: Side::Black,
            white: even,
            black: short,
            mobility: 0,
            no_move_outcome: NoMoveOutcome::Win(Side::White),
            drawn: false,
        }]);
        job_b.populate(vec![ongoing(Side::White, even, even, 1)]);
        job_b.children[0].populate(vec![Position {
            side_to_move: Side::Black,
            white: even,
            black: even,
            mobility: 3,
            no_move_outcome: NoMoveOutcome::Draw,
            drawn: true,
        }]);
        let (_, cont_a) = worker_primary(&mut job_a, &[0usize]);
        let (_, cont_b) = worker_primary(&mut job_b, &[1usize]);
        if swap {
            engine.handle_result(job_b, &[1usize], None, None, None, cont_b);
            engine.handle_result(job_a, &[0usize], None, None, None, cont_a);
        } else {
            engine.handle_result(job_a, &[0usize], None, None, None, cont_a);
            engine.handle_result(job_b, &[1usize], None, None, None, cont_b);
        }
        let best = engine.branch.get_best(true).expect("root has children");
        (best.position, best.eval)
    };
    assert_eq!(run(false), run(true));
    let (chosen, score) = run(true);
    assert_eq!(chosen.black, short);
    assert_eq!(score, Some(Eval::Mate(2, Side::White)));
}

#[test]
fn unresolved_search_doubles_the_budget() {
    assert_eq!(escalated_budget(1000, true), None);
    assert_eq!(escalated_budget(1000, false), Some(2000));
    assert_eq!(escalated_budget(0, false), Some(0));
}
