//! Evaluation values: a totally ordered score type that distinguishes
//! numeric material/positional scores from forced-mate scores and the two
//! unbounded sentinels. Scores are White-relative: greater is better for
//! White. A forced White mate beats every numeric score, and a mate in
//! fewer plies beats a mate in more; the mirror holds for Black.

use vstd::prelude::*;

verus! {

use core::cmp::Ordering;

/// The two sides of the game. White is the maximizing side by convention.
#[derive(Clone, Copy, Debug, PartialEq, Eq, Structural)]
pub enum Side {
    White,
    Black,
}

/// A position score: an ordinary numeric score, a forced mate in a given
/// number of plies credited to a side, or one of the two sentinels that
/// bound every other value.
#[derive(Clone, Copy, Debug, PartialEq, Eq, Structural)]
pub enum Eval {
    Numeric(i64),
    Mate(usize, Side),
    Infinity,
    NegInfinity,
}

/// Three-way comparison of two integers, as an `Ordering`.
pub open spec fn ord_of_ints(x: int, y: int) -> Ordering {
    if x < y {
        Ordering::Less
    } else if x == y {
        Ordering::Equal
    } else {
        Ordering::Greater
    }
}

/// The mate-aware total order on evaluation values:
/// `NegInfinity < Mate(_, Black) < Numeric(_) < Mate(_, White) < Infinity`,
/// numeric scores ordered as integers, White mates preferring smaller
/// distances and Black mates preferring larger ones.
pub open spec fn eval_cmp(a: Eval, b: Eval) -> Ordering {
    match (a, b) {
        (Eval::Numeric(x), Eval::Numeric(y)) => ord_of_ints(x as int, y as int),
        (Eval::Numeric(_), Eval::Mate(_, s)) => if s is White {
            Ordering::Less
        } else {
            Ordering::Greater
        },
        (Eval::Numeric(_), Eval::Infinity) => Ordering::Less,
        (Eval::Numeric(_), Eval::NegInfinity) => Ordering::Greater,
        (Eval::Mate(_, s), Eval::Numeric(_)) => if s is White {
            Ordering::Greater
        } else {
            Ordering::Less
        },
        (Eval::Mate(d1, s1), Eval::Mate(d2, s2)) => match (s1, s2) {
            (Side::White, Side::White) => ord_of_ints(d2 as int, d1 as int),
            (Side::White, Side::Black) => Ordering::Greater,
            (Side::Black, Side::White) => Ordering::Less,
            (Side::Black, Side::Black) => ord_of_ints(d1 as int, d2 as int),
        },
        (Eval::Mate(_, _), Eval::Infinity) => Ordering::Less,
        (Eval::Mate(_, _), Eval::NegInfinity) => Ordering::Greater,
        (Eval::Infinity, Eval::Infinity) => Ordering::Equal,
        (Eval::Infinity, _) => Ordering::Greater,
        (Eval::NegInfinity, Eval::NegInfinity) => Ordering::Equal,
        (Eval::NegInfinity, _) => Ordering::Less,
    }
}

/// `a` is strictly less than `b` in the mate-aware order.
pub open spec fn eval_lt(a: Eval, b: Eval) -> bool {
    eval_cmp(a, b) == Ordering::Less
}

/// `a` is at most `b` in the mate-aware order.
pub open spec fn eval_le(a: Eval, b: Eval) -> bool {
    eval_cmp(a, b) != Ordering::Greater
}

/// `a` is strictly greater than `b` in the mate-aware order.
pub open spec fn eval_gt(a: Eval, b: Eval) -> bool {
    eval_cmp(a, b) == Ordering::Greater
}

/// `a` is at least `b` in the mate-aware order.
pub open spec fn eval_ge(a: Eval, b: Eval) -> bool {
    eval_cmp(a, b) != Ordering::Less
}

/// The greater of two evaluation values, preferring the left on ties.
pub open spec fn spec_max(a: Eval, b: Eval) -> Eval {
    if eval_ge(a, b) {
        a
    } else {
        b
    }
}

/// The lesser of two evaluation values, preferring the left on ties.
pub open spec fn spec_min(a: Eval, b: Eval) -> Eval {
    if eval_le(a, b) {
        a
    } else {
        b
    }
}

impl Eval {
    /// The greater of `self` and `other`, preferring `self` on ties.
    pub fn max(self, other: Self) -> (r: Self)
        ensures
            r == spec_max(self, other),
    {
        if self.ge(&other) {
            self
        } else {
            other
        }
    }

    /// The lesser of `self` and `other`, preferring `self` on ties.
    pub fn min(self, other: Self) -> (r: Self)
        ensures
            r == spec_min(self, other),
    {
        if self.le(&other) {
            self
        } else {
            other
        }
    }
}

impl PartialOrd for Eval {
    fn partial_cmp(&self, other: &Self) -> (r: Option<Ordering>) {
        match (self, other) {
            (Eval::Numeric(x), Eval::Numeric(y)) => if x < y {
                Some(Ordering::Less)
            } else if x == y {
                Some(Ordering::Equal)
            } else {
                Some(Ordering::Greater)
            },
            (Eval::Numeric(_), Eval::Mate(_, s)) => match s {
                Side::White => Some(Ordering::Less),
                Side::Black => Some(Ordering::Greater),
            },
            (Eval::Numeric(_), Eval::Infinity) => Some(Ordering::Less),
            (Eval::Numeric(_), Eval::NegInfinity) => Some(Ordering::Greater),
            (Eval::Mate(_, s), Eval::Numeric(_)) => match s {
                Side::White => Some(Ordering::Greater),
                Side::Black => Some(Ordering::Less),
            },
            (Eval::Mate(d1, s1), Eval::Mate(d2, s2)) => match (s1, s2) {
                (Side::White, Side::White) => if d2 < d1 {
                    Some(Ordering::Less)
                } else if d1 == d2 {
                    Some(Ordering::Equal)
                } else {
                    Some(Ordering::Greater)
                },
                (Side::White, Side::Black) => Some(Ordering::Greater),
                (Side::Black, Side::White) => Some(Ordering::Less),
                (Side::Black, Side::Black) => if d1 < d2 {
                    Some(Ordering::Less)
                } else if d1 == d2 {
                    Some(Ordering::Equal)
                } else {
                    Some(Ordering::Greater)
                },
            },
            (Eval::Mate(_, _), Eval::Infinity) => Some(Ordering::Less),
            (Eval::Mate(_, _), Eval::NegInfinity) => Some(Ordering::Greater),
            (Eval::Infinity, Eval::Infinity) => Some(Ordering::Equal),
            (Eval::Infinity, _) => Some(Ordering::Greater),
            (Eval::NegInfinity, Eval::NegInfinity) => Some(Ordering::Equal),
            (Eval::NegInfinity, _) => Some(Ordering::Less),
        }
    }
}

impl vstd::std_specs::cmp::PartialOrdSpecImpl for Eval {
    open spec fn obeys_partial_cmp_spec() -> bool {
        true
    }

    open spec fn partial_cmp_spec(&self, other: &Self) -> Option<Ordering> {
        Some(eval_cmp(*self, *other))
    }
}

/// The comparison is a total order: it is reflexive, antisymmetric,
/// transitive and total, and two values compare equal exactly when they
/// are the same value.
pub proof fn lemma_eval_order_total(a: Eval, b: Eval, c: Eval)
    ensures
        eval_le(a, a),
        eval_le(a, b) && eval_le(b, a) ==> a == b,
        eval_le(a, b) && eval_le(b, c) ==> eval_le(a, c),
        eval_le(a, b) || eval_le(b, a),
        eval_cmp(a, b) == Ordering::Equal <==> a == b,
        eval_lt(a, b) <==> eval_cmp(b, a) == Ordering::Greater,
{
}

/// A mate in fewer plies is better for the side delivering it: for
/// distances `d1 < d2`, a White mate in `d1` beats a White mate in `d2`,
/// and a Black mate in `d1` is worse for White than a Black mate in `d2`.
pub proof fn lemma_mate_distance_order(d1: usize, d2: usize)
    requires
        d1 < d2,
    ensures
        eval_gt(Eval::Mate(d1, Side::White), Eval::Mate(d2, Side::White)),
        eval_lt(Eval::Mate(d1, Side::Black), Eval::Mate(d2, Side::Black)),
{
}

/// Any forced White mate beats any numeric score, and any numeric score
/// beats any forced Black mate.
pub proof fn lemma_mate_dominates_numeric(d: usize, x: i64)
    ensures
        eval_gt(Eval::Mate(d, Side::White), Eval::Numeric(x)),
        eval_gt(Eval::Numeric(x), Eval::Mate(d, Side::Black)),
{
}

} // verus!
