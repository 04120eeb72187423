use chess_engine::eval::Eval;
use chess_engine::eval::Side;
use chess_engine::phase::GamePhase;
use chess_engine::phase::PieceTally;
use chess_engine::position::NoMoveOutcome;
use chess_engine::position::Position;
use chess_engine::tree::Branch;

fn tally(queens: u8, rooks: u8, bishops: u8, knights: u8, pawns: u8) -> PieceTally {
    PieceTally { kings: 1, queens, rooks, bishops, knights, pawns }
}

/// An ongoing position with the given side to move, material and number
/// of legal successors.
fn ongoing(side: Side, white: PieceTally, black: PieceTally, mobility: usize) -> Position {
    Position {
        side_to_move: side,
        white,
        black,
        mobility,
        no_move_outcome: NoMoveOutcome::Draw,
        drawn: false,
    }
}

/// A position in which the side to move has been checkmated: no legal
/// moves, and the win goes to `winner`.
fn mated(loser: Side, winner: Side, white: PieceTally, black: PieceTally) -> Position {
    Position {
        side_to_move: loser,
        white,
        black,
        mobility: 0,
        no_move_outcome: NoMoveOutcome::Win(winner),
        drawn: false,
    }
}

/// Expands `node` one level with fresh leaves for the given successor
/// positions, as the application's move generator would.
fn expand(node: &mut Branch, successors: Vec<Position>) {
    node.populate(successors);
}

#[test]
fn populate_is_idempotent() {
    let even = tally(1, 2, 2, 2, 8);
    let root_pos = ongoing(Side::White, even, even, 2);
    let succs = vec![
        ongoing(Side::Black, even, even, 3),
        ongoing(Side::Black, even, tally(1, 2, 2, 2, 7), 4),
    ];
    let mut node = Branch::from_parent(root_pos, Some(GamePhase::MiddleGame));
    node.populate(succs.clone());
    let first: Vec<Position> = node.children.iter().map(|c| c.position).collect();
    node.populate(succs.clone());
    let second: Vec<Position> = node.children.iter().map(|c| c.position).collect();
    assert_eq!(first.len(), 2);
    assert_eq!(first, second);
    for child in &node.children {
        assert!(child.eval.is_none());
        assert!(!child.is_terminal);
        assert_eq!(child.phase, Some(GamePhase::MiddleGame));
        assert!(child.children.is_empty());
    }
}

#[test]
fn splice_then_find_returns_the_spliced_subtree() {
    let even = tally(1, 2, 2, 2, 8);
    let mut root = Branch::from_parent(ongoing(Side::White, even, even, 2), None);
    expand(
        &mut root,
        vec![ongoing(Side::Black, even, even, 2), ongoing(Side::Black, even, even, 1)],
    );
    expand(
        &mut root.children[0],
        vec![ongoing(Side::White, even, even, 5), ongoing(Side::White, even, even, 6)],
    );

    let mut replacement = Branch::from_parent(ongoing(Side::White, even, even, 1), None);
    replacement.eval = Some(Eval::Numeric(42));
    replacement.is_terminal = true;
    let expected_pos = replacement.position;

    let location = [0usize, 1usize];
    root.insert_branch(replacement, &location);
    let found = root.find_branch(&location);
    assert_eq!(found.position, expected_pos);
    assert_eq!(found.eval, Some(Eval::Numeric(42)));
    assert!(found.is_terminal);
    assert!(found.children.is_empty());
    // The sibling off the spliced path is untouched.
    assert_eq!(root.children[0].children[0].position.mobility, 5);
}

#[test]
fn splice_order_does_not_matter_for_disjoint_locations() {
    let even = tally(1, 2, 2, 2, 8);
    let build = || {
        let mut root = Branch::from_parent(ongoing(Side::White, even, even, 2), None);
        root.populate(vec![
            ongoing(Side::Black, even, even, 2),
            ongoing(Side::Black, even, even, 2),
        ]);
        root
    };
    let result = |first: bool| {
        let mut root = build();
        let mut sub_a = Branch::from_parent(ongoing(Side::Black, even, even, 9), None);
        sub_a.eval = Some(Eval::Numeric(7));
        sub_a.is_terminal = true;
        let mut sub_b = Branch::from_parent(ongoing(Side::Black, even, even, 8), None);
        sub_b.eval = Some(Eval::Numeric(-2));
        sub_b.is_terminal = true;
        if first {
            root.insert_branch(sub_a, &[0usize]);
            root.insert_branch(sub_b, &[1usize]);
        } else {
            root.insert_branch(sub_b, &[1usize]);
            root.insert_branch(sub_a, &[0usize]);
        }
        let best = root.get_best(true).expect("root has children");
        (best.position, best.eval)
    };
    assert_eq!(result(true), result(false));
}

#[test]
fn search_finds_mate_in_one() {
    let even = tally(1, 2, 2, 2, 8);
    let behind = tally(0, 1, 0, 0, 3);
    // White to move, two replies: one leaves Black mated, the other leaves
    // the game running with level material.
    let mut root = Branch::from_parent(ongoing(Side::White, even, even, 2), None);
    expand(
        &mut root,
        vec![mated(Side::Black, Side::White, even, behind), ongoing(Side::Black, even, even, 1)],
    );
    // The non-mating reply needs its own children so that a depth-one
    // search can read its mobility.
    expand(&mut root.children[1], vec![ongoing(Side::White, even, even, 3)]);

    let res = root.run_node(1, &[], true);
    assert_eq!(root.eval, Some(Eval::Mate(1, Side::White)));
    let (best_eval, best_loc) = res[0].clone().expect("a best line exists");
    assert_eq!(best_eval, Eval::Mate(1, Side::White));
    assert_eq!(best_loc, vec![0usize]);

    let best = root.get_best(true).expect("root has children");
    assert_eq!(best.eval, Some(Eval::Mate(1, Side::White)));
    assert_eq!(best.position.mobility, 0);
}

#[test]
fn propagate_agrees_with_search_on_terminal_leafed_tree() {
    let even = tally(1, 2, 2, 2, 8);
    let up = tally(2, 2, 2, 2, 8);
    let down = tally(1, 1, 2, 2, 8);
    let mut root = Branch::from_parent(ongoing(Side::White, even, even, 2), None);
    expand(
        &mut root,
        vec![ongoing(Side::Black, up, even, 2), ongoing(Side::Black, down, even, 2)],
    );
    expand(
        &mut root.children[0],
        vec![ongoing(Side::White, up, even, 3), ongoing(Side::White, even, even, 3)],
    );
    expand(
        &mut root.children[1],
        vec![ongoing(Side::White, down, even, 3), ongoing(Side::White, even, even, 3)],
    );

    root.run_node(1, &[], true);
    let searched = root.eval.expect("search scores the root");
    let propagated = root.simple_minimax(true);
    assert_eq!(searched, propagated);
    // Terminal leaf scores are untouched by propagation.
    for child in &root.children {
        assert!(child.is_terminal);
        assert!(child.eval.is_some());
    }
}

#[test]
fn top_three_ranks_children_by_direction() {
    let even = tally(1, 2, 2, 2, 8);
    let mut root = Branch::from_parent(ongoing(Side::White, even, even, 4), None);
    expand(
        &mut root,
        vec![
            ongoing(Side::Black, even, even, 1),
            ongoing(Side::Black, even, even, 1),
            ongoing(Side::Black, even, even, 1),
            ongoing(Side::Black, even, even, 1),
        ],
    );
    root.children[0].eval = Some(Eval::Numeric(3));
    root.children[1].eval = Some(Eval::Numeric(9));
    root.children[2].eval = None;
    root.children[3].eval = Some(Eval::Numeric(-4));

    let top = root.get_top_three(&[5usize], true);
    let (e0, l0) = top[0].clone().unwrap();
    let (e1, l1) = top[1].clone().unwrap();
    let (e2, l2) = top[2].clone().unwrap();
    assert_eq!((e0, l0), (Eval::Numeric(9), vec![5usize, 1usize]));
    assert_eq!((e1, l1), (Eval::Numeric(3), vec![5usize, 0usize]));
    assert_eq!((e2, l2), (Eval::Numeric(-4), vec![5usize, 3usize]));

    let bottom = root.get_top_three(&[], false);
    let (b0, bl0) = bottom[0].clone().unwrap();
    assert_eq!((b0, bl0), (Eval::Numeric(-4), vec![3usize]));
}

#[test]
fn get_best_of_childless_root_is_none() {
    let even = tally(1, 2, 2, 2, 8);
    let mut root = Branch::from_parent(ongoing(Side::White, even, even, 0), None);
    root.eval = Some(Eval::Numeric(0));
    root.is_terminal = true;
    assert!(root.get_best(true).is_none());
}

#[test]
fn deep_clone_copies_the_whole_subtree() {
    let even = tally(1, 2, 2, 2, 8);
    let mut root = Branch::from_parent(ongoing(Side::White, even, even, 1), None);
    expand(&mut root, vec![ongoing(Side::Black, even, even, 2)]);
    root.children[0].eval = Some(Eval::Numeric(11));

    let copy = root.deep_clone();
    assert_eq!(copy.position, root.position);
    assert_eq!(copy.children.len(), 1);
    assert_eq!(copy.children[0].eval, Some(Eval::Numeric(11)));
    assert_eq!(copy.children[0].position, root.children[0].position);
}
