//! The laws of the search pass. The central one relates search and
//! propagation: on a fully terminal-leafed tree, a depth-limited
//! alpha-beta pass with the full window computes exactly the root score
//! that the propagation pass yields — pruning skips only work, never
//! information. Around it stand the mate-in-one laws (a position one ply
//! from checkmate for White searches, reports and selects as a forced
//! mate) and the location law (the search's returned location addresses,
//! in the tree the pass leaves behind, a terminal node storing the
//! returned score).

use vstd::prelude::*;

use crate::eval::Eval;
use crate::eval::Side;
use crate::eval::eval_cmp;
use crate::eval::eval_ge;
use crate::eval::eval_gt;
use crate::eval::eval_le;
use crate::eval::eval_lt;
use crate::eval::spec_max;
use crate::eval::spec_min;
use crate::heuristics::spec_eval_position;
use crate::tree::Branch;
use crate::tree::minimax_children;
use crate::tree::minimax_spec;
use crate::tree::search_fold;
use crate::tree::searched;
use crate::tree::searched_children;
use crate::tree::search_spec;

verus! {

broadcast use
    vstd::std_specs::vec::axiom_vec_index_decreases,
    vstd::std_specs::vec::axiom_vec_decreases_to_view,
    vstd::std_specs::vec::axiom_spec_len,
;

/// A fully terminal-leafed tree, as a completed search pass from ply `cd`
/// to ply `dd` leaves it: wherever that search bottoms out (the depth
/// limit, or a node without children) the node is terminal and stores
/// exactly the direct score of its position, and every node above the
/// limit is internal.
pub open spec fn full_to(b: Branch, cd: int, dd: int) -> bool
    decreases dd - cd,
{
    if cd >= dd || b.children@.len() == 0 {
        b.is_terminal && b.eval == Some(
            spec_eval_position(b.position, b.children@.len() as usize, cd as usize),
        )
    } else {
        !b.is_terminal && forall|i: int|
            0 <= i < b.children@.len() ==> full_to(#[trigger] b.children@[i], cd + 1, dd)
    }
}

/// Basic facts of the mate-aware order: flips between the strict and
/// reflexive forms, totality, antisymmetry and transitivity.
proof fn lemma_order(a: Eval, b: Eval, c: Eval)
    ensures
        eval_ge(a, b) <==> eval_le(b, a),
        eval_gt(a, b) <==> eval_lt(b, a),
        eval_le(a, b) || eval_le(b, a),
        eval_le(a, b) && eval_le(b, a) ==> a == b,
        eval_le(a, b) && eval_le(b, c) ==> eval_le(a, c),
        eval_lt(a, b) && eval_le(b, c) ==> eval_lt(a, c),
        eval_le(a, b) && eval_lt(b, c) ==> eval_lt(a, c),
        eval_le(a, a),
        !eval_lt(a, a),
        eval_cmp(a, b) == core::cmp::Ordering::Equal <==> a == b,
{
}

/// The extremum of two values dominates (is dominated by) both and is one
/// of them.
proof fn lemma_extrema(a: Eval, b: Eval)
    ensures
        eval_ge(spec_max(a, b), a),
        eval_ge(spec_max(a, b), b),
        spec_max(a, b) == a || spec_max(a, b) == b,
        eval_le(spec_min(a, b), a),
        eval_le(spec_min(a, b), b),
        spec_min(a, b) == a || spec_min(a, b) == b,
{
}

/// Taking extrema is associative.
proof fn lemma_extrema_assoc(a: Eval, b: Eval, c: Eval)
    ensures
        spec_max(spec_max(a, b), c) == spec_max(a, spec_max(b, c)),
        spec_min(spec_min(a, b), c) == spec_min(a, spec_min(b, c)),
{
}

/// Taking extrema is monotone in both arguments.
proof fn lemma_extrema_mono(a: Eval, b: Eval, c: Eval, d: Eval)
    ensures
        eval_ge(a, c) && eval_ge(b, d) ==> eval_ge(spec_max(a, b), spec_max(c, d)),
        eval_le(a, c) && eval_le(b, d) ==> eval_le(spec_min(a, b), spec_min(c, d)),
        eval_le(a, c) && eval_le(b, c) ==> eval_le(spec_max(a, b), c),
        eval_ge(a, c) && eval_ge(b, c) ==> eval_ge(spec_min(a, b), c),
{
}

/// The propagated score of a fully terminal-leafed tree is never one of
/// the two sentinels: it is always some leaf's direct score.
proof fn lemma_minimax_not_sentinel(b: Branch, cd: int, dd: int, maximize: bool)
    requires
        full_to(b, cd, dd),
    ensures
        minimax_spec(b, maximize) != Eval::Infinity,
        minimax_spec(b, maximize) != Eval::NegInfinity,
    decreases b, 1int, 0int,
{
    if cd >= dd || b.children@.len() == 0 {
        // Terminal: the stored score is a direct position score.
    } else {
        let cs = b.children@;
        let init: Eval = if maximize {
            Eval::NegInfinity
        } else {
            Eval::Infinity
        };
        lemma_minimax_not_sentinel(cs[0], cd + 1, dd, !maximize);
        let v0 = minimax_spec(cs[0], !maximize);
        let acc1 = if maximize {
            spec_max(init, v0)
        } else {
            spec_min(init, v0)
        };
        assert(acc1 == v0);
        lemma_mm_fold_not_sentinel(cs, 1, cd + 1, dd, acc1, maximize);
        assert(minimax_children(cs, 0, init, maximize) == minimax_children(cs, 1, acc1, maximize));
    }
}

/// The minimax fold keeps a non-sentinel accumulator non-sentinel when
/// every remaining child is fully terminal-leafed.
proof fn lemma_mm_fold_not_sentinel(
    cs: Seq<Branch>,
    i: int,
    cd: int,
    dd: int,
    acc: Eval,
    maximize: bool,
)
    requires
        forall|j: int| i <= j < cs.len() ==> full_to(#[trigger] cs[j], cd, dd),
        acc != Eval::Infinity,
        acc != Eval::NegInfinity,
    ensures
        minimax_children(cs, i, acc, maximize) != Eval::Infinity,
        minimax_children(cs, i, acc, maximize) != Eval::NegInfinity,
    decreases cs, 0int, cs.len() - i,
{
    if 0 <= i < cs.len() {
        lemma_minimax_not_sentinel(cs[i], cd, dd, !maximize);
        let v = minimax_spec(cs[i], !maximize);
        let acc2 = if maximize {
            spec_max(acc, v)
        } else {
            spec_min(acc, v)
        };
        lemma_mm_fold_not_sentinel(cs, i + 1, cd, dd, acc2, maximize);
    }
}

/// The minimax fold dominates its accumulator and every remaining child's
/// score (maximizing), or is dominated by them (minimizing).
proof fn lemma_mm_fold_bounds(cs: Seq<Branch>, i: int, acc: Eval, maximize: bool)
    requires
        0 <= i,
    ensures
        maximize ==> eval_ge(minimax_children(cs, i, acc, maximize), acc),
        !maximize ==> eval_le(minimax_children(cs, i, acc, maximize), acc),
        maximize ==> forall|j: int|
            i <= j < cs.len() ==> eval_ge(
                minimax_children(cs, i, acc, maximize),
                minimax_spec(#[trigger] cs[j], !maximize),
            ),
        !maximize ==> forall|j: int|
            i <= j < cs.len() ==> eval_le(
                minimax_children(cs, i, acc, maximize),
                minimax_spec(#[trigger] cs[j], !maximize),
            ),
    decreases cs.len() - i,
{
    if 0 <= i < cs.len() {
        let v = minimax_spec(cs[i], !maximize);
        let acc2 = if maximize {
            spec_max(acc, v)
        } else {
            spec_min(acc, v)
        };
        lemma_mm_fold_bounds(cs, i + 1, acc2, maximize);
        lemma_extrema(acc, v);
        let r = minimax_children(cs, i + 1, acc2, maximize);
        assert(minimax_children(cs, i, acc, maximize) == r);
        if maximize {
            lemma_order(acc, acc2, r);
            lemma_order(v, acc2, r);
            lemma_order(r, acc2, acc);
            lemma_order(acc2, acc, v);
            lemma_order(r, acc, v);
            lemma_order(acc2, v, r);
            lemma_order(r, v, acc);
            assert(eval_ge(r, acc));
            assert forall|j: int| i <= j < cs.len() implies eval_ge(
                r,
                minimax_spec(#[trigger] cs[j], !maximize),
            ) by {
                if j == i {
                    lemma_order(v, acc2, r);
                }
            }
        } else {
            lemma_order(r, acc2, acc);
            lemma_order(r, acc2, v);
            lemma_order(acc, acc2, r);
            lemma_order(acc2, acc, v);
            lemma_order(r, acc, v);
            lemma_order(acc2, v, r);
            lemma_order(r, v, acc);
            assert(eval_le(r, acc));
            assert forall|j: int| i <= j < cs.len() implies eval_le(
                r,
                minimax_spec(#[trigger] cs[j], !maximize),
            ) by {
                if j == i {
                    lemma_order(r, acc2, v);
                }
            }
        }
    }
}

/// The window account of one alpha-beta scan, after Knuth and Moore: a
/// value landing at or below the window low is an upper bound on the true
/// score, one landing strictly above the window high is a lower bound,
/// and one landing strictly inside the window is exact.
proof fn lemma_km(b: Branch, cd: int, dd: int, alpha: Eval, beta: Eval, maximize: bool, loc: Seq<
    usize,
>)
    requires
        full_to(b, cd, dd),
        eval_le(alpha, beta),
    ensures
        eval_le(search_spec(b, cd, dd, alpha, beta, maximize, loc).0, alpha) ==> eval_le(
            minimax_spec(b, maximize),
            search_spec(b, cd, dd, alpha, beta, maximize, loc).0,
        ),
        eval_gt(search_spec(b, cd, dd, alpha, beta, maximize, loc).0, beta) ==> eval_ge(
            minimax_spec(b, maximize),
            search_spec(b, cd, dd, alpha, beta, maximize, loc).0,
        ),
        eval_lt(alpha, search_spec(b, cd, dd, alpha, beta, maximize, loc).0) && eval_le(
            search_spec(b, cd, dd, alpha, beta, maximize, loc).0,
            beta,
        ) ==> search_spec(b, cd, dd, alpha, beta, maximize, loc).0 == minimax_spec(b, maximize),
    decreases b, 1int, 0int,
{
    let v = search_spec(b, cd, dd, alpha, beta, maximize, loc).0;
    let g = minimax_spec(b, maximize);
    if cd >= dd || b.children@.len() == 0 {
        // The search scores the leaf directly; propagation returns the
        // stored score, and a fully terminal-leafed tree stores exactly
        // the direct score.
        assert(v == g);
        lemma_order(v, alpha, beta);
    } else {
        let cs = b.children@;
        let init: Eval = if maximize {
            Eval::NegInfinity
        } else {
            Eval::Infinity
        };
        assert(v == search_fold(cs, 0, cd, dd, init, Seq::empty(), alpha, beta, maximize, loc).0);
        assert(g == minimax_children(cs, 0, init, maximize));
        lemma_order(init, alpha, beta);
        if maximize {
            // The scan starts with the trivially bracketed running pair.
            assert(spec_max(alpha, init) == alpha);
            lemma_km_fold_max(cs, 0, cd, dd, init, Seq::empty(), init, alpha, beta, alpha, loc);
        } else {
            assert(spec_min(beta, init) == beta);
            lemma_km_fold_min(cs, 0, cd, dd, init, Seq::empty(), init, alpha, beta, beta, loc);
        }
    }
}

/// The maximizing scan preserves the three window clauses between the
/// running best `acc` and the true best so far `gacc`, relative to the
/// node's original window `(alpha0, beta)`; the scan's window low is the
/// original low raised by the running best.
proof fn lemma_km_fold_max(
    cs: Seq<Branch>,
    i: int,
    cd: int,
    dd: int,
    acc: Eval,
    acc_loc: Seq<usize>,
    gacc: Eval,
    alpha0: Eval,
    beta: Eval,
    alpha: Eval,
    loc: Seq<usize>,
)
    requires
        forall|j: int| i <= j < cs.len() ==> full_to(#[trigger] cs[j], cd + 1, dd),
        cd < dd,
        eval_le(alpha, beta),
        alpha == spec_max(alpha0, acc),
        eval_le(acc, alpha0) ==> eval_le(gacc, acc),
        eval_gt(acc, beta) ==> eval_ge(gacc, acc),
        eval_lt(alpha0, acc) && eval_le(acc, beta) ==> acc == gacc,
    ensures
        ({
            let v = search_fold(cs, i, cd, dd, acc, acc_loc, alpha, beta, true, loc).0;
            let g = minimax_children(cs, i, gacc, true);
            &&& eval_le(v, alpha0) ==> eval_le(g, v)
            &&& eval_gt(v, beta) ==> eval_ge(g, v)
            &&& eval_lt(alpha0, v) && eval_le(v, beta) ==> v == g
        }),
    decreases cs, 0int, cs.len() - i,
{
    if i < 0 || i >= cs.len() {
        // Nothing left to scan: the clauses about the running pair are
        // the conclusion.
    } else {
        let child = cs[i];
        let child_loc = loc.push(i as usize);
        let rc = search_spec(child, cd + 1, dd, alpha, beta, false, child_loc);
        let vc = rc.0;
        let gc = minimax_spec(child, false);
        lemma_km(child, cd + 1, dd, alpha, beta, false, child_loc);
        let improved = eval_gt(vc, acc);
        let acc2 = if improved {
            vc
        } else {
            acc
        };
        let acc_loc2 = if improved {
            rc.1
        } else {
            acc_loc
        };
        let alpha2 = spec_max(alpha, vc);
        let gacc2 = spec_max(gacc, gc);
        let v = search_fold(cs, i, cd, dd, acc, acc_loc, alpha, beta, true, loc).0;
        let g = minimax_children(cs, i, gacc, true);
        assert(g == minimax_children(cs, i + 1, gacc2, true));
        lemma_extrema(alpha, vc);
        lemma_extrema(acc, vc);
        lemma_extrema(gacc, gc);
        lemma_extrema(alpha0, acc);
        lemma_extrema(alpha0, acc2);
        lemma_order(vc, acc, alpha);
        assert(acc2 == spec_max(acc, vc));
        if eval_lt(beta, alpha2) {
            // Pruned: the window low that rose past the high can only be
            // the child's score, which failed high; the child's true
            // score, and hence the true fold, dominate the result.
            assert(v == acc2);
            lemma_order(beta, alpha, alpha2);
            assert(alpha2 == vc);
            assert(eval_gt(vc, beta));
            assert(eval_ge(gc, vc));
            lemma_order(acc, alpha, beta);
            lemma_order(acc, beta, vc);
            assert(eval_lt(acc, vc));
            lemma_order(vc, acc, beta);
            assert(improved && v == vc);
            lemma_mm_fold_bounds(cs, i, gacc, true);
            assert(eval_ge(g, gc));
            lemma_order(vc, gc, g);
            assert(eval_ge(g, v));
            lemma_order(alpha0, alpha, beta);
            lemma_order(v, alpha0, beta);
            assert(!eval_le(v, alpha0));
            assert(!eval_le(v, beta));
        } else {
            lemma_order(beta, alpha2, alpha2);
            assert(eval_le(alpha2, beta));
            lemma_extrema_assoc(alpha0, acc, vc);
            assert(alpha2 == spec_max(alpha0, acc2));
            // First clause: a running best at or below the original low
            // stays an upper bound on the true running best.
            if eval_le(acc2, alpha0) {
                lemma_order(acc, acc2, alpha0);
                assert(eval_le(acc, alpha0));
                assert(eval_le(gacc, acc));
                lemma_order(vc, acc2, alpha0);
                lemma_order(alpha0, alpha, vc);
                assert(eval_le(vc, alpha));
                assert(eval_le(gc, vc));
                lemma_extrema_mono(gacc, gc, acc, vc);
                assert(eval_le(gacc2, acc2));
            }
            // Second clause: a running best strictly above the high is a
            // lower bound on the true running best.
            if eval_gt(acc2, beta) {
                if improved {
                    assert(eval_gt(vc, beta));
                    assert(eval_ge(gc, vc));
                    lemma_order(acc2, gc, gacc2);
                    lemma_order(gacc2, gc, acc2);
                    assert(eval_ge(gacc2, acc2));
                } else {
                    assert(eval_ge(gacc, acc));
                    lemma_order(acc2, gacc, gacc2);
                    lemma_order(gacc2, gacc, acc2);
                    assert(eval_ge(gacc2, acc2));
                }
            }
            // Third clause: a running best strictly inside the window is
            // exact.
            if eval_lt(alpha0, acc2) && eval_le(acc2, beta) {
                if improved {
                    assert(acc2 == vc);
                    lemma_order(alpha0, vc, acc);
                    lemma_order(acc, vc, alpha0);
                    assert(eval_gt(vc, alpha));
                    lemma_order(alpha, vc, beta);
                    assert(vc == gc);
                    if eval_le(acc, alpha0) {
                        lemma_order(gacc, acc, vc);
                        assert(eval_lt(gacc, vc));
                    } else {
                        lemma_order(alpha0, acc, vc);
                        lemma_order(acc, vc, beta);
                        assert(eval_le(acc, beta));
                        assert(acc == gacc);
                        assert(eval_lt(gacc, vc));
                    }
                    lemma_order(vc, gacc, gc);
                    assert(gacc2 == vc);
                } else {
                    assert(acc2 == acc);
                    assert(acc == gacc);
                    lemma_order(alpha0, acc, vc);
                    assert(alpha == acc);
                    assert(eval_le(vc, alpha));
                    assert(eval_le(gc, vc));
                    lemma_order(gc, vc, acc);
                    assert(eval_le(gc, acc));
                    assert(gacc2 == acc);
                }
                assert(acc2 == gacc2);
            }
            lemma_km_fold_max(cs, i + 1, cd, dd, acc2, acc_loc2, gacc2, alpha0, beta, alpha2, loc);
            assert(v == search_fold(cs, i + 1, cd, dd, acc2, acc_loc2, alpha2, beta, true, loc).0);
        }
    }
}

/// The minimizing scan, mirror of the maximizing one: the scan's window
/// high is the original high lowered by the running best.
proof fn lemma_km_fold_min(
    cs: Seq<Branch>,
    i: int,
    cd: int,
    dd: int,
    acc: Eval,
    acc_loc: Seq<usize>,
    gacc: Eval,
    alpha: Eval,
    beta0: Eval,
    beta: Eval,
    loc: Seq<usize>,
)
    requires
        forall|j: int| i <= j < cs.len() ==> full_to(#[trigger] cs[j], cd + 1, dd),
        cd < dd,
        eval_le(alpha, beta),
        beta == spec_min(beta0, acc),
        eval_le(acc, alpha) ==> eval_le(gacc, acc),
        eval_gt(acc, beta0) ==> eval_ge(gacc, acc),
        eval_lt(alpha, acc) && eval_le(acc, beta0) ==> acc == gacc,
    ensures
        ({
            let v = search_fold(cs, i, cd, dd, acc, acc_loc, alpha, beta, false, loc).0;
            let g = minimax_children(cs, i, gacc, false);
            &&& eval_le(v, alpha) ==> eval_le(g, v)
            &&& eval_gt(v, beta0) ==> eval_ge(g, v)
            &&& eval_lt(alpha, v) && eval_le(v, beta0) ==> v == g
        }),
    decreases cs, 0int, cs.len() - i,
{
    if i < 0 || i >= cs.len() {
        // Nothing left to scan: the clauses about the running pair are
        // the conclusion.
    } else {
        let child = cs[i];
        let child_loc = loc.push(i as usize);
        let rc = search_spec(child, cd + 1, dd, alpha, beta, true, child_loc);
        let vc = rc.0;
        let gc = minimax_spec(child, true);
        lemma_km(child, cd + 1, dd, alpha, beta, true, child_loc);
        let improved = eval_lt(vc, acc);
        let acc2 = if improved {
            vc
        } else {
            acc
        };
        let acc_loc2 = if improved {
            rc.1
        } else {
            acc_loc
        };
        let beta2 = spec_min(beta, vc);
        let gacc2 = spec_min(gacc, gc);
        let v = search_fold(cs, i, cd, dd, acc, acc_loc, alpha, beta, false, loc).0;
        let g = minimax_children(cs, i, gacc, false);
        assert(g == minimax_children(cs, i + 1, gacc2, false));
        lemma_extrema(beta, vc);
        lemma_extrema(acc, vc);
        lemma_extrema(gacc, gc);
        lemma_extrema(beta0, acc);
        lemma_extrema(beta0, acc2);
        lemma_order(vc, acc, beta);
        assert(acc2 == spec_min(acc, vc));
        if eval_lt(beta2, alpha) {
            // Pruned: the window high that fell past the low can only be
            // the child's score, which failed low; the child's true
            // score, and hence the true fold, sit at or below the result.
            assert(v == acc2);
            lemma_order(beta2, beta, alpha);
            assert(beta2 == vc);
            assert(eval_lt(vc, alpha));
            assert(eval_le(vc, alpha));
            assert(eval_le(gc, vc));
            lemma_order(alpha, beta, acc);
            lemma_order(vc, alpha, acc);
            assert(eval_lt(vc, acc));
            assert(improved && v == vc);
            lemma_mm_fold_bounds(cs, i, gacc, false);
            assert(eval_le(g, gc));
            lemma_order(g, gc, vc);
            assert(eval_le(g, v));
            lemma_order(alpha, beta, beta0);
            lemma_order(v, alpha, beta0);
            assert(!eval_gt(v, beta0));
        } else {
            lemma_order(beta2, alpha, alpha);
            assert(eval_le(alpha, beta2));
            lemma_extrema_assoc(beta0, acc, vc);
            assert(beta2 == spec_min(beta0, acc2));
            // First clause: a running best at or below the low stays an
            // upper bound on the true running best.
            if eval_le(acc2, alpha) {
                if improved {
                    assert(acc2 == vc);
                    assert(eval_le(vc, alpha));
                    assert(eval_le(gc, vc));
                    lemma_order(gacc2, gc, vc);
                    assert(eval_le(gacc2, acc2));
                } else {
                    assert(acc2 == acc);
                    assert(eval_le(gacc, acc));
                    lemma_order(gacc2, gacc, acc);
                    assert(eval_le(gacc2, acc2));
                }
            }
            // Second clause: a running best strictly above the original
            // high is a lower bound on the true running best.
            if eval_gt(acc2, beta0) {
                lemma_order(beta0, acc2, acc);
                assert(eval_gt(acc, beta0));
                assert(eval_ge(gacc, acc));
                lemma_order(beta0, acc2, vc);
                assert(eval_gt(vc, beta0));
                lemma_order(beta, beta0, vc);
                assert(eval_gt(vc, beta));
                assert(eval_ge(gc, vc));
                lemma_extrema_mono(gacc, gc, acc, vc);
                assert(eval_ge(gacc2, acc2));
            }
            // Third clause: a running best strictly inside the window is
            // exact.
            if eval_lt(alpha, acc2) && eval_le(acc2, beta0) {
                if improved {
                    assert(acc2 == vc);
                    lemma_order(vc, acc, beta0);
                    lemma_order(vc, beta0, acc);
                    assert(eval_le(vc, beta));
                    assert(eval_lt(alpha, vc));
                    assert(vc == gc);
                    if eval_le(acc, alpha) {
                        lemma_order(alpha, acc, vc);
                        assert(false);
                    } else {
                        if eval_gt(acc, beta0) {
                            lemma_order(vc, beta0, gacc);
                            lemma_order(beta0, acc, gacc);
                            assert(eval_lt(vc, gacc));
                        } else {
                            lemma_order(alpha, acc, beta0);
                            assert(acc == gacc);
                            assert(eval_lt(vc, gacc));
                        }
                    }
                    lemma_order(gc, gacc, vc);
                    assert(gacc2 == vc);
                } else {
                    assert(acc2 == acc);
                    assert(acc == gacc);
                    lemma_order(alpha, acc, vc);
                    assert(beta == acc);
                    assert(eval_ge(vc, beta));
                    if eval_gt(vc, beta) {
                        assert(eval_ge(gc, vc));
                        lemma_order(acc, vc, gc);
                        assert(eval_ge(gc, acc));
                    } else {
                        lemma_order(vc, beta, acc);
                        assert(vc == acc);
                        assert(eval_lt(alpha, vc) && eval_le(vc, beta));
                        assert(vc == gc);
                        assert(eval_ge(gc, acc));
                    }
                    lemma_order(gc, acc, gacc2);
                    assert(gacc2 == acc);
                }
                assert(acc2 == gacc2);
            }
            lemma_km_fold_min(cs, i + 1, cd, dd, acc2, acc_loc2, gacc2, alpha, beta0, beta2, loc);
            assert(v == search_fold(cs, i + 1, cd, dd, acc2, acc_loc2, alpha, beta2, false, loc).0);
        }
    }
}

/// Propagation on a fully terminal-leafed tree yields the same root score
/// as a direct search over it with the full window and to the same
/// depth: alpha-beta pruning never changes the root score, and
/// propagation never changes already-known terminal scores.
pub proof fn lemma_search_equals_propagate(
    b: Branch,
    cd: int,
    dd: int,
    maximize: bool,
    loc: Seq<usize>,
)
    requires
        full_to(b, cd, dd),
    ensures
        search_spec(b, cd, dd, Eval::NegInfinity, Eval::Infinity, maximize, loc).0 == minimax_spec(
            b,
            maximize,
        ),
{
    lemma_km(b, cd, dd, Eval::NegInfinity, Eval::Infinity, maximize, loc);
    lemma_minimax_not_sentinel(b, cd, dd, maximize);
    let v = search_spec(b, cd, dd, Eval::NegInfinity, Eval::Infinity, maximize, loc).0;
    let g = minimax_spec(b, maximize);
    lemma_order(v, g, Eval::NegInfinity);
    if eval_le(v, Eval::NegInfinity) {
        assert(v == Eval::NegInfinity);
        assert(eval_le(g, v));
        assert(g == Eval::NegInfinity);
    } else {
        assert(!eval_gt(v, Eval::Infinity));
        assert(eval_lt(Eval::NegInfinity, v) && eval_le(v, Eval::Infinity));
    }
}

/// A child position in which the opponent has just been mated: the side
/// to move there has no successors and the rules credit the win to White.
pub open spec fn is_mating_leaf(c: Branch) -> bool {
    &&& c.children@.len() == 0
    &&& !c.position.drawn
    &&& c.position.no_move_outcome == crate::position::NoMoveOutcome::Win(Side::White)
}

/// Every position's direct score at one ply of depth is at most a mate in
/// one for White.
proof fn lemma_depth_one_eval_bounded(p: crate::position::Position, mobility: usize)
    ensures
        eval_le(spec_eval_position(p, mobility, 1), Eval::Mate(1, Side::White)),
{
}

/// A position one ply from checkmate, searched for White: a depth-one
/// pass scores the root as a forced mate in one for White, leaves every
/// child terminal with its direct score, and whatever child the selection
/// then picks as best holds exactly that mate. This is the depth the
/// worker jobs' base passes take over each freshly expanded leaf level;
/// at greater depths the root score is still the mate wherever the pass
/// explores the mating reply, but the selection may fall to an unexplored
/// sibling, so only the depth-one selection is a law.
pub proof fn lemma_mate_in_one_search(t: Branch, u: Branch, k: int, loc: Seq<usize>)
    requires
        searched(t, u, 0, 1, Eval::NegInfinity, Eval::Infinity, true, loc),
        t.children@.len() > 0,
        0 <= k < t.children@.len(),
        is_mating_leaf(t.children@[k]),
    ensures
        search_spec(t, 0, 1, Eval::NegInfinity, Eval::Infinity, true, loc).0 == Eval::Mate(
            1,
            Side::White,
        ),
        u.eval == Some(Eval::Mate(1, Side::White)),
        forall|bi: int|
            crate::tree::is_best_child(u.children@, bi, true) ==> u.children@[bi].eval == Some(
                Eval::Mate(1, Side::White),
            ),
{
    let m1 = Eval::Mate(1, Side::White);
    let cs = t.children@;
    let us = u.children@;
    let v = search_spec(t, 0, 1, Eval::NegInfinity, Eval::Infinity, true, loc).0;
    assert(v == search_fold(
        cs,
        0,
        0,
        1,
        Eval::NegInfinity,
        Seq::empty(),
        Eval::NegInfinity,
        Eval::Infinity,
        true,
        loc,
    ).0);
    lemma_mate_in_one_value(t, 1, k, loc);
    assert(v == m1);
    assert(u.eval == Some(m1));
    lemma_depth_one_children(cs, us, 0, Eval::NegInfinity, loc);
    assert(us[k].eval == Some(m1));
    assert forall|bi: int|
        crate::tree::is_best_child(us, bi, true) implies us[bi].eval == Some(m1) by {
        assert(crate::tree::opt_eval_le(us[k].eval, us[bi].eval));
        assert(eval_le(spec_eval_position(cs[bi].position, cs[bi].children@.len() as usize, 1), m1))
            by {
            lemma_depth_one_eval_bounded(cs[bi].position, cs[bi].children@.len() as usize);
        }
        lemma_order(
            m1,
            spec_eval_position(cs[bi].position, cs[bi].children@.len() as usize, 1),
            m1,
        );
    }
}

/// A depth-one scan under an unbounded window high reaches every child
/// and leaves each one terminal with the direct score of its position.
proof fn lemma_depth_one_children(
    cs: Seq<Branch>,
    us: Seq<Branch>,
    i: int,
    alpha: Eval,
    loc: Seq<usize>,
)
    requires
        0 <= i,
        searched_children(cs, us, i, 0, 1, alpha, Eval::Infinity, true, loc),
    ensures
        forall|j: int|
            i <= j < cs.len() ==> (#[trigger] us[j]).is_terminal && us[j].eval == Some(
                spec_eval_position(cs[j].position, cs[j].children@.len() as usize, 1),
            ),
    decreases cs.len() - i,
{
    if i < cs.len() {
        let child_loc = loc.push(i as usize);
        let v = search_spec(cs[i], 1, 1, alpha, Eval::Infinity, false, child_loc).0;
        let alpha2 = spec_max(alpha, v);
        assert(!eval_lt(Eval::Infinity, alpha2));
        assert(searched(cs[i], us[i], 1, 1, alpha, Eval::Infinity, false, child_loc));
        lemma_depth_one_children(cs, us, i + 1, alpha2, loc);
    }
}

/// Below the root, no search value ever beats a mate in one for White:
/// every mate found at ply `cd` is a mate in at least `cd` plies.
proof fn lemma_search_below_mate_one(
    b: Branch,
    cd: int,
    dd: int,
    alpha: Eval,
    beta: Eval,
    maximize: bool,
    loc: Seq<usize>,
)
    requires
        1 <= cd <= dd,
        dd <= usize::MAX,
    ensures
        eval_le(search_spec(b, cd, dd, alpha, beta, maximize, loc).0, Eval::Mate(1, Side::White)),
    decreases b, 1int, 0int,
{
    if cd >= dd || b.children@.len() == 0 {
        // A direct score: a mate at this ply, a draw, or material.
    } else {
        let init: Eval = if maximize {
            Eval::NegInfinity
        } else {
            Eval::Infinity
        };
        lemma_fold_below_mate_one(
            b.children@,
            0,
            cd,
            dd,
            init,
            Seq::empty(),
            alpha,
            beta,
            maximize,
            loc,
        );
    }
}

/// The scan below the root keeps its running best at or below a mate in
/// one for White; a minimizing scan may still hold its opening sentinel,
/// which the first scanned child always replaces.
proof fn lemma_fold_below_mate_one(
    cs: Seq<Branch>,
    i: int,
    cd: int,
    dd: int,
    acc: Eval,
    acc_loc: Seq<usize>,
    alpha: Eval,
    beta: Eval,
    maximize: bool,
    loc: Seq<usize>,
)
    requires
        0 <= cd < dd,
        dd <= usize::MAX,
        eval_le(acc, Eval::Mate(1, Side::White)) || (!maximize && acc == Eval::Infinity && 0 <= i
            < cs.len()),
    ensures
        eval_le(
            search_fold(cs, i, cd, dd, acc, acc_loc, alpha, beta, maximize, loc).0,
            Eval::Mate(1, Side::White),
        ),
    decreases cs, 0int, cs.len() - i,
{
    let m1 = Eval::Mate(1, Side::White);
    if i < 0 || i >= cs.len() {
    } else {
        let child = cs[i];
        let child_loc = loc.push(i as usize);
        let rc = search_spec(child, cd + 1, dd, alpha, beta, !maximize, child_loc);
        lemma_search_below_mate_one(child, cd + 1, dd, alpha, beta, !maximize, child_loc);
        let v = rc.0;
        let improved = if maximize {
            eval_gt(v, acc)
        } else {
            eval_lt(v, acc)
        };
        let acc2 = if improved {
            v
        } else {
            acc
        };
        let acc_loc2 = if improved {
            rc.1
        } else {
            acc_loc
        };
        let alpha2 = if maximize {
            spec_max(alpha, v)
        } else {
            alpha
        };
        let beta2 = if maximize {
            beta
        } else {
            spec_min(beta, v)
        };
        if acc == Eval::Infinity {
            // The sentinel loses to the first real score.
            lemma_order(v, m1, Eval::Infinity);
            assert(eval_lt(v, acc));
            assert(acc2 == v);
        }
        assert(eval_le(acc2, m1));
        if !crate::eval::eval_lt(beta2, alpha2) {
            lemma_fold_below_mate_one(
                cs,
                i + 1,
                cd,
                dd,
                acc2,
                acc_loc2,
                alpha2,
                beta2,
                maximize,
                loc,
            );
        }
    }
}

/// The full-window maximizing scan at the root reaches a mate in one for
/// White whenever its running best already holds it or a mating leaf is
/// still to be scanned: nothing prunes under an unbounded window high,
/// nothing below the root beats the mate, and the mating leaf scores it
/// exactly.
proof fn lemma_mate_fold_reaches(
    cs: Seq<Branch>,
    i: int,
    dd: int,
    acc: Eval,
    acc_loc: Seq<usize>,
    alpha: Eval,
    loc: Seq<usize>,
)
    requires
        0 <= i,
        1 <= dd <= usize::MAX,
        eval_le(acc, Eval::Mate(1, Side::White)),
        acc == Eval::Mate(1, Side::White) || (exists|k: int|
            i <= k < cs.len() && is_mating_leaf(#[trigger] cs[k])),
    ensures
        search_fold(cs, i, 0, dd, acc, acc_loc, alpha, Eval::Infinity, true, loc).0 == Eval::Mate(
            1,
            Side::White,
        ),
    decreases cs.len() - i,
{
    let m1 = Eval::Mate(1, Side::White);
    if i >= cs.len() {
        assert(acc == m1);
    } else {
        let child = cs[i];
        let child_loc = loc.push(i as usize);
        let rc = search_spec(child, 1, dd, alpha, Eval::Infinity, false, child_loc);
        lemma_search_below_mate_one(child, 1, dd, alpha, Eval::Infinity, false, child_loc);
        let v = rc.0;
        let improved = eval_gt(v, acc);
        let acc2 = if improved {
            v
        } else {
            acc
        };
        let acc_loc2 = if improved {
            rc.1
        } else {
            acc_loc
        };
        let alpha2 = spec_max(alpha, v);
        // The window high is unbounded, so the scan never stops early.
        assert(!eval_lt(Eval::Infinity, alpha2));
        lemma_order(acc2, acc, v);
        assert(eval_le(acc2, m1));
        if is_mating_leaf(child) {
            assert(v == m1);
            assert(acc2 == m1);
        }
        if acc == m1 {
            assert(acc2 == m1);
            lemma_mate_fold_reaches(cs, i + 1, dd, acc2, acc_loc2, alpha2, loc);
        } else {
            let k = choose|k: int| i <= k < cs.len() && is_mating_leaf(#[trigger] cs[k]);
            if k == i {
                assert(acc2 == m1);
                lemma_mate_fold_reaches(cs, i + 1, dd, acc2, acc_loc2, alpha2, loc);
            } else {
                assert(i + 1 <= k < cs.len() && is_mating_leaf(cs[k]));
                lemma_mate_fold_reaches(cs, i + 1, dd, acc2, acc_loc2, alpha2, loc);
            }
        }
    }
}

/// A position one ply from checkmate for White, searched for White with
/// the full window: the search returns a forced mate in one for White at
/// every depth of at least one ply.
pub proof fn lemma_mate_in_one_value(t: Branch, dd: int, k: int, loc: Seq<usize>)
    requires
        1 <= dd <= usize::MAX,
        t.children@.len() > 0,
        0 <= k < t.children@.len(),
        is_mating_leaf(t.children@[k]),
    ensures
        search_spec(t, 0, dd, Eval::NegInfinity, Eval::Infinity, true, loc).0 == Eval::Mate(
            1,
            Side::White,
        ),
{
    lemma_mate_fold_reaches(
        t.children@,
        0,
        dd,
        Eval::NegInfinity,
        Seq::empty(),
        Eval::NegInfinity,
        loc,
    );
}

/// A full-window maximizing pass reaches every root child and leaves each
/// one scored at or below a mate in one for White; a mating leaf is
/// scored as exactly that mate.
proof fn lemma_searched_root_children(
    cs: Seq<Branch>,
    us: Seq<Branch>,
    i: int,
    dd: int,
    alpha: Eval,
    loc: Seq<usize>,
)
    requires
        0 <= i,
        1 <= dd <= usize::MAX,
        searched_children(cs, us, i, 0, dd, alpha, Eval::Infinity, true, loc),
    ensures
        forall|j: int|
            i <= j < cs.len() ==> ((#[trigger] us[j].eval) matches Some(e) && eval_le(
                e,
                Eval::Mate(1, Side::White),
            )),
        forall|j: int|
            i <= j < cs.len() && is_mating_leaf(#[trigger] cs[j]) ==> us[j].eval == Some(
                Eval::Mate(1, Side::White),
            ),
    decreases cs.len() - i,
{
    let m1 = Eval::Mate(1, Side::White);
    if i < cs.len() {
        let child_loc = loc.push(i as usize);
        let v = search_spec(cs[i], 1, dd, alpha, Eval::Infinity, false, child_loc).0;
        let alpha2 = spec_max(alpha, v);
        // The window high is unbounded, so the scan never stops early.
        assert(!eval_lt(Eval::Infinity, alpha2));
        assert(searched(cs[i], us[i], 1, dd, alpha, Eval::Infinity, false, child_loc));
        if 1 >= dd || cs[i].children@.len() == 0 {
            lemma_depth_one_eval_bounded(cs[i].position, cs[i].children@.len() as usize);
        } else {
            lemma_search_below_mate_one(cs[i], 1, dd, alpha, Eval::Infinity, false, child_loc);
            lemma_order(v, m1, Eval::Infinity);
            assert(v != Eval::Infinity);
            assert(us[i].eval == Some(v));
        }
        lemma_searched_root_children(cs, us, i + 1, dd, alpha2, loc);
    }
}

/// Scanning children that are all scored at or below `m` puts a score of
/// exactly `m`, once one is present among them or already leading, into
/// the report's first slot, at a location extending the base by that
/// child's index.
proof fn lemma_top3_first_reaches(cs: Seq<Branch>, i: int, acc: crate::tree::Top3, base: Seq<
    usize,
>, m: Eval)
    requires
        0 <= i,
        forall|j: int|
            i <= j < cs.len() ==> ((#[trigger] cs[j].eval) matches Some(e) && eval_le(e, m)),
        acc.0 matches Some(f) ==> eval_le(f.0, m) && exists|j0: int|
            0 <= j0 < i && j0 < cs.len() && f.1 == base.push(#[verifier::truncate] (j0 as usize))
                && cs[j0].eval == Some(f.0),
        (acc.0 matches Some(f) && f.0 == m) || (exists|k: int|
            i <= k < cs.len() && #[trigger] cs[k].eval == Some(m)),
    ensures
        crate::tree::top3_fold(cs, i, acc, base, true).0 matches Some(f) && f.0 == m && exists|
            k: int,
        |
            0 <= k < cs.len() && f.1 == base.push(#[verifier::truncate] (k as usize)) && cs[k].eval
                == Some(m),
    decreases cs.len() - i,
{
    if i >= cs.len() {
    } else {
        let e = cs[i].eval.unwrap();
        let eloc = base.push(i as usize);
        let acc2 = crate::tree::top3_insert(acc, e, eloc, true);
        lemma_order(e, m, m);
        if acc.0 is Some {
            let f = acc.0.unwrap();
            lemma_order(e, f.0, m);
            lemma_order(f.0, e, m);
        }
        assert(acc2.0 matches Some(g) ==> eval_le(g.0, m) && exists|j0: int|
            0 <= j0 < i + 1 && j0 < cs.len() && g.1 == base.push(#[verifier::truncate] (j0 as usize))
                && cs[j0].eval == Some(g.0));
        if acc.0 matches Some(f) && f.0 == m {
            assert(!crate::tree::top3_better(e, m, true));
            assert(acc2.0 matches Some(g) && g.0 == m);
        } else {
            let k = choose|k: int| i <= k < cs.len() && #[trigger] cs[k].eval == Some(m);
            if k == i {
                assert(e == m);
                assert(acc2.0 matches Some(g) && g.0 == m);
            } else {
                assert(i + 1 <= k < cs.len() && cs[k].eval == Some(m));
            }
        }
        lemma_top3_first_reaches(cs, i + 1, acc2, base, m);
    }
}

/// A position one ply from checkmate for White, searched for White with
/// the full window at any depth of at least one ply: the pass reports a
/// mate in one for White as its best continuation, at a location
/// extending the node's own by the index of a child scored as that mate.
pub proof fn lemma_mate_in_one_report(t: Branch, u: Branch, dd: int, k: int, loc: Seq<usize>)
    requires
        searched(t, u, 0, dd, Eval::NegInfinity, Eval::Infinity, true, loc),
        1 <= dd <= usize::MAX,
        t.children@.len() > 0,
        0 <= k < t.children@.len(),
        is_mating_leaf(t.children@[k]),
    ensures
        crate::tree::top3_fold(u.children@, 0, (None, None, None), loc, true).0 matches Some(f)
            && f.0 == Eval::Mate(1, Side::White) && exists|b: int|
            0 <= b < u.children@.len() && f.1 == loc.push(#[verifier::truncate] (b as usize))
                && u.children@[b].eval == Some(Eval::Mate(1, Side::White)),
{
    let m1 = Eval::Mate(1, Side::White);
    let cs = t.children@;
    let us = u.children@;
    lemma_searched_root_children(cs, us, 0, dd, Eval::NegInfinity, loc);
    assert(us[k].eval == Some(m1));
    assert(us.len() == cs.len());
    lemma_top3_first_reaches(us, 0, (None, None, None), loc, m1);
}

/// The search never returns a sentinel score: a leaf scores directly, and
/// a scan always adopts its first child's score before anything can stop
/// it.
proof fn lemma_search_never_sentinel(
    b: Branch,
    cd: int,
    dd: int,
    alpha: Eval,
    beta: Eval,
    maximize: bool,
    loc: Seq<usize>,
)
    ensures
        search_spec(b, cd, dd, alpha, beta, maximize, loc).0 != Eval::Infinity,
        search_spec(b, cd, dd, alpha, beta, maximize, loc).0 != Eval::NegInfinity,
    decreases b, 1int, 0int,
{
    if cd >= dd || b.children@.len() == 0 {
    } else {
        let cs = b.children@;
        let init: Eval = if maximize {
            Eval::NegInfinity
        } else {
            Eval::Infinity
        };
        let child_loc = loc.push(0usize);
        lemma_search_never_sentinel(cs[0], cd + 1, dd, alpha, beta, !maximize, child_loc);
        let r0 = search_spec(cs[0], cd + 1, dd, alpha, beta, !maximize, child_loc);
        let v0 = r0.0;
        let improved = if maximize {
            eval_gt(v0, init)
        } else {
            eval_lt(v0, init)
        };
        assert(improved);
        let alpha1 = if maximize {
            spec_max(alpha, v0)
        } else {
            alpha
        };
        let beta1 = if maximize {
            beta
        } else {
            spec_min(beta, v0)
        };
        if !eval_lt(beta1, alpha1) {
            lemma_fold_never_sentinel(cs, 1, cd, dd, v0, r0.1, alpha1, beta1, maximize, loc);
        }
    }
}

/// The scan keeps a non-sentinel running best non-sentinel.
proof fn lemma_fold_never_sentinel(
    cs: Seq<Branch>,
    i: int,
    cd: int,
    dd: int,
    acc: Eval,
    acc_loc: Seq<usize>,
    alpha: Eval,
    beta: Eval,
    maximize: bool,
    loc: Seq<usize>,
)
    requires
        acc != Eval::Infinity,
        acc != Eval::NegInfinity,
    ensures
        search_fold(cs, i, cd, dd, acc, acc_loc, alpha, beta, maximize, loc).0 != Eval::Infinity,
        search_fold(cs, i, cd, dd, acc, acc_loc, alpha, beta, maximize, loc).0
            != Eval::NegInfinity,
    decreases cs, 0int, cs.len() - i,
{
    if i < 0 || i >= cs.len() || cd >= dd {
    } else {
        let child_loc = loc.push(#[verifier::truncate] (i as usize));
        lemma_search_never_sentinel(cs[i], cd + 1, dd, alpha, beta, !maximize, child_loc);
        let v = search_spec(cs[i], cd + 1, dd, alpha, beta, !maximize, child_loc).0;
        let improved = if maximize {
            eval_gt(v, acc)
        } else {
            eval_lt(v, acc)
        };
        let acc2 = if improved {
            v
        } else {
            acc
        };
        let acc_loc2 = if improved {
            search_spec(cs[i], cd + 1, dd, alpha, beta, !maximize, child_loc).1
        } else {
            acc_loc
        };
        let alpha2 = if maximize {
            spec_max(alpha, v)
        } else {
            alpha
        };
        let beta2 = if maximize {
            beta
        } else {
            spec_min(beta, v)
        };
        if !eval_lt(beta2, alpha2) {
            lemma_fold_never_sentinel(cs, i + 1, cd, dd, acc2, acc_loc2, alpha2, beta2, maximize, loc);
        }
    }
}

/// The running best of a scan points at its source: the location extends
/// the node's own by a child index and a path within that child's
/// post-search subtree, at whose end the produced score is stored in a
/// terminal node.
pub open spec fn located(
    cs: Seq<Branch>,
    us: Seq<Branch>,
    acc: Eval,
    acc_loc: Seq<usize>,
    loc: Seq<usize>,
) -> bool {
    &&& loc.len() < acc_loc.len()
    &&& loc.is_prefix_of(acc_loc)
    &&& acc_loc[loc.len() as int] < cs.len()
    &&& crate::tree::loc_valid(
        us[acc_loc[loc.len() as int] as int],
        acc_loc.skip(loc.len() as int + 1),
    )
    &&& crate::tree::spec_find(
        us[acc_loc[loc.len() as int] as int],
        acc_loc.skip(loc.len() as int + 1),
    ).is_terminal
    &&& crate::tree::spec_find(
        us[acc_loc[loc.len() as int] as int],
        acc_loc.skip(loc.len() as int + 1),
    ).eval == Some(acc)
}

/// The location the search returns addresses a node of the post-search
/// tree: the returned location extends the node's own location, remains
/// resolvable in the tree the search leaves behind, and the node it
/// addresses is terminal and stores exactly the returned score.
pub proof fn lemma_search_location(
    t: Branch,
    u: Branch,
    cd: int,
    dd: int,
    alpha: Eval,
    beta: Eval,
    maximize: bool,
    loc: Seq<usize>,
)
    requires
        searched(t, u, cd, dd, alpha, beta, maximize, loc),
    ensures
        ({
            let r = search_spec(t, cd, dd, alpha, beta, maximize, loc);
            &&& loc.is_prefix_of(r.1)
            &&& crate::tree::loc_valid(u, r.1.skip(loc.len() as int))
            &&& crate::tree::spec_find(u, r.1.skip(loc.len() as int)).is_terminal
            &&& crate::tree::spec_find(u, r.1.skip(loc.len() as int)).eval == Some(r.0)
        }),
    decreases 2 * (dd - cd), 0int,
{
    let r = search_spec(t, cd, dd, alpha, beta, maximize, loc);
    if cd >= dd || t.children@.len() == 0 {
        assert(r.1 == loc);
        assert(loc =~= loc.subrange(0, loc.len() as int));
        assert(r.1.skip(loc.len() as int) =~= Seq::<usize>::empty());
    } else {
        let cs = t.children@;
        let us = u.children@;
        let init: Eval = if maximize {
            Eval::NegInfinity
        } else {
            Eval::Infinity
        };
        assert(cd < dd);
        assert(cs.len() <= usize::MAX) by {
            vstd::std_specs::vec::axiom_spec_len(&t.children);
        }
        lemma_fold_location(cs, us, 0, cd, dd, init, Seq::empty(), alpha, beta, maximize, loc);
        lemma_search_never_sentinel(t, cd, dd, alpha, beta, maximize, loc);
        assert(located(cs, us, r.0, r.1, loc));
        let k0 = r.1[loc.len() as int] as int;
        let sfx = r.1.skip(loc.len() as int);
        assert(sfx[0] == r.1[loc.len() as int]);
        assert(sfx.skip(1) =~= r.1.skip(loc.len() as int + 1));
        assert(sfx.len() > 0);
        assert(u.children@[k0] == us[k0]);
    }
}

/// The scan invariant behind the location claim: once the running best
/// holds a real score, its location points at that score's terminal
/// source, and the scan preserves this.
proof fn lemma_fold_location(
    cs: Seq<Branch>,
    us: Seq<Branch>,
    i: int,
    cd: int,
    dd: int,
    acc: Eval,
    acc_loc: Seq<usize>,
    alpha: Eval,
    beta: Eval,
    maximize: bool,
    loc: Seq<usize>,
)
    requires
        0 <= i,
        cd < dd,
        cs.len() <= usize::MAX,
        searched_children(cs, us, i, cd, dd, alpha, beta, maximize, loc),
        (acc == if maximize {
            Eval::NegInfinity
        } else {
            Eval::Infinity
        }) || located(cs, us, acc, acc_loc, loc),
    ensures
        ({
            let r = search_fold(cs, i, cd, dd, acc, acc_loc, alpha, beta, maximize, loc);
            (r.0 == if maximize {
                Eval::NegInfinity
            } else {
                Eval::Infinity
            }) || located(cs, us, r.0, r.1, loc)
        }),
    decreases 2 * (dd - cd) - 1, cs.len() - i,
{
    if i >= cs.len() {
    } else {
        let child_loc = loc.push(#[verifier::truncate] (i as usize));
        let rc = search_spec(cs[i], cd + 1, dd, alpha, beta, !maximize, child_loc);
        let v = rc.0;
        assert(searched(cs[i], us[i], cd + 1, dd, alpha, beta, !maximize, child_loc));
        lemma_search_location(cs[i], us[i], cd + 1, dd, alpha, beta, !maximize, child_loc);
        lemma_search_never_sentinel(cs[i], cd + 1, dd, alpha, beta, !maximize, child_loc);
        let improved = if maximize {
            eval_gt(v, acc)
        } else {
            eval_lt(v, acc)
        };
        let acc2 = if improved {
            v
        } else {
            acc
        };
        let acc_loc2 = if improved {
            rc.1
        } else {
            acc_loc
        };
        if improved {
            // The new best points into the child just searched.
            let ghost ll = loc.len() as int;
            assert(child_loc.is_prefix_of(rc.1));
            assert(child_loc.len() == ll + 1);
            assert(child_loc =~= rc.1.subrange(0, ll + 1));
            assert(rc.1.len() > ll);
            assert(rc.1[ll] == rc.1.subrange(0, ll + 1)[ll]);
            assert(child_loc[ll] == i as usize);
            assert(rc.1[ll] == i as usize);
            assert forall|j: int| 0 <= j < ll implies loc[j] == rc.1[j] by {
                assert(child_loc[j] == rc.1.subrange(0, ll + 1)[j]);
            }
            assert(loc =~= rc.1.subrange(0, ll));
            assert(loc.is_prefix_of(rc.1));
            assert(rc.1.skip(ll + 1) == rc.1.skip(child_loc.len() as int));
            assert(crate::tree::loc_valid(us[i], rc.1.skip(ll + 1)));
            assert(crate::tree::spec_find(us[i], rc.1.skip(ll + 1)).is_terminal);
            assert(crate::tree::spec_find(us[i], rc.1.skip(ll + 1)).eval == Some(v));
            assert(located(cs, us, acc2, acc_loc2, loc));
        }
        let alpha2 = if maximize {
            spec_max(alpha, v)
        } else {
            alpha
        };
        let beta2 = if maximize {
            beta
        } else {
            spec_min(beta, v)
        };
        if !eval_lt(beta2, alpha2) {
            lemma_fold_location(cs, us, i + 1, cd, dd, acc2, acc_loc2, alpha2, beta2, maximize, loc);
        }
    }
}

/// The selection after a depth-one mate search: propagation leaves the
/// depth-one pass's terminal children untouched, so whatever child the
/// best-child selection then picks holds exactly the mate in one for
/// White. Together with the pass itself this is the end-to-end story of a
/// position one ply from checkmate: search it one ply deep for White and
/// the chosen move is a mating move.
pub proof fn lemma_mate_in_one_selection(t: Branch, u: Branch, w: Branch, k: int, loc: Seq<usize>)
    requires
        searched(t, u, 0, 1, Eval::NegInfinity, Eval::Infinity, true, loc),
        crate::tree::minimax_updated(u, w, true),
        t.children@.len() > 0,
        0 <= k < t.children@.len(),
        is_mating_leaf(t.children@[k]),
    ensures
        forall|bi: int|
            crate::tree::is_best_child(w.children@, bi, true) ==> w.children@[bi].eval == Some(
                Eval::Mate(1, Side::White),
            ),
{
    lemma_mate_in_one_search(t, u, k, loc);
    lemma_depth_one_children(t.children@, u.children@, 0, Eval::NegInfinity, loc);
    if u.is_terminal {
        assert(w == u);
    } else {
        // Propagation never touches the terminal children the pass left.
        assert forall|j: int|
            0 <= j < u.children@.len() implies w.children@[j] == #[trigger] u.children@[j] by {
            assert(crate::tree::minimax_updated(u.children@[j], w.children@[j], false));
        }
        assert(w.children@ =~= u.children@);
    }
}

} // verus!
