//! The search coordinator's decision core. The coordinator owns the
//! authoritative tree; worker jobs receive deep clones of subtrees, search
//! them, and report results that are spliced back in by location. The
//! thread pool, the result channel and the time budget live in the
//! surrounding application; every decision the coordinator takes — which
//! jobs follow a finished one, whether a secondary line stays alive,
//! which side's criteria start a search — is a function here.

use vstd::prelude::*;

use crate::eval::Eval;
use crate::eval::Side;
use crate::eval::eval_gt;
use crate::eval::eval_lt;
use crate::phase::GamePhase;
use crate::position::Position;
use crate::tree::Branch;
use crate::tree::is_fresh_child;
use crate::tree::is_spliced;
use crate::tree::loc_valid;
use crate::tree::lemma_minimax_updated_preserves_minimax;
use crate::tree::lemma_minimax_updated_shape;
use crate::tree::lemma_same_shape_trans;
use crate::tree::lemma_splice_preserves_scored;
use crate::tree::minimax_spec;
use crate::tree::minimax_updated;
use crate::tree::no_opening_phase;
use crate::tree::searched;
use crate::tree::same_shape;
use crate::tree::terminals_scored;
use crate::tree::top3_fold;
use crate::tree::view_slot;

verus! {

/// The fixed depth of one worker job's search pass.
pub const JOB_SEARCH_DEPTH: usize = 3;

/// The book-position identifier a fresh game starts from.
pub const OPENING_ROOT_ID: i64 = 1;

/// The coordinator's state: the single authoritative search tree. Worker
/// pool and result channel are external primitives owned by the caller.
#[derive(Debug)]
pub struct Engine {
    pub branch: Branch,
}

/// The score of one result slot, as the spec sees it.
pub open spec fn eval_of_slot(s: Option<(Eval, Vec<usize>)>) -> Option<Eval> {
    match s {
        Some(p) => Some(p.0),
        None => None,
    }
}

/// The location of one result slot, as the spec sees it.
pub open spec fn loc_of_slot(s: Option<(Eval, Vec<usize>)>) -> Option<Seq<usize>> {
    match s {
        Some(p) => Some(p.1@),
        None => None,
    }
}

/// The view of one dispatched job location.
pub open spec fn view_loc(s: Option<Vec<usize>>) -> Option<Seq<usize>> {
    match s {
        Some(l) => Some(l@),
        None => None,
    }
}

/// The criteria a fresh search starts from: the worst score for the side
/// to move, so that any explored line improves on it.
pub fn initial_criteria(side: Side) -> (r: Eval)
    ensures
        side is White ==> r == Eval::NegInfinity,
        side is Black ==> r == Eval::Infinity,
{
    if side == Side::White {
        Eval::NegInfinity
    } else {
        Eval::Infinity
    }
}

/// The book position to consult for a line, if the line is still in the
/// opening. A line out of the opening is searched instead.
pub fn opening_book_id(phase: Option<GamePhase>) -> (r: Option<i64>)
    ensures
        r == match phase {
            Some(GamePhase::Opening(id)) => Some(id),
            _ => None::<i64>,
        },
{
    match phase {
        Some(GamePhase::Opening(id)) => Some(id),
        _ => None,
    }
}

/// The book consultation a fresh game's engine makes: a new game starts
/// in the opening at the book's root position, so the first reply comes
/// from the book rather than from search.
pub fn book_move_testing() -> (r: Option<i64>)
    ensures
        r == Some(OPENING_ROOT_ID),
{
    opening_book_id(Some(GamePhase::Opening(OPENING_ROOT_ID)))
}

/// The escalation decision at the end of a search pass: a pass that
/// produced a move ends the search, and one that left the root
/// unresolved retries the whole search with a doubled time budget (in
/// milliseconds). The doubling has no enforced ceiling, so a retry loop
/// over a setup that can never produce a move (a pool without workers,
/// say) runs until its caller gives up; a caller that needs a hard
/// deadline must impose one itself.
pub fn escalated_budget(budget_millis: u64, have_move: bool) -> (r: Option<u64>)
    requires
        budget_millis <= u64::MAX / 2,
    ensures
        r == if have_move {
            None::<u64>
        } else {
            Some((2 * budget_millis) as u64)
        },
{
    if have_move {
        None
    } else {
        Some(2 * budget_millis)
    }
}

/// The body of a primary job: searches the subtree clone to the fixed
/// depth for the side to move and reports the top continuations. A
/// primary line always stays alive.
pub fn worker_primary(node: &mut Branch, location: &[usize]) -> (r: ([Option<
    (Eval, Vec<usize>),
>; 3], bool))
    requires
        terminals_scored(*old(node)),
        no_opening_phase(*old(node)),
    ensures
        r.1,
        same_shape(*old(node), *final(node)),
        terminals_scored(*final(node)),
        no_opening_phase(*final(node)),
        (view_slot(r.0@[0]), view_slot(r.0@[1]), view_slot(r.0@[2])) == top3_fold(
            final(node).children@,
            0,
            (None, None, None),
            location@,
            old(node).position.side_to_move is White,
        ),
        searched(
            Branch { is_terminal: false, ..*old(node) },
            *final(node),
            0,
            JOB_SEARCH_DEPTH as int,
            Eval::NegInfinity,
            Eval::Infinity,
            old(node).position.side_to_move is White,
            location@,
        ),
{
    let maximize = node.position.side_to_move == Side::White;
    let res = node.run_node(JOB_SEARCH_DEPTH, location, maximize);
    (res, true)
}

/// The body of a secondary job: searches the subtree clone like a primary
/// job, then recomputes the line's score by propagation and compares it
/// against the `criteria` of the line it challenges. The line stays alive
/// only if the updated score beats the criteria in the searching side's
/// favour.
pub fn worker_secondary(node: &mut Branch, location: &[usize], criteria: Eval) -> (r: ([Option<
    (Eval, Vec<usize>),
>; 3], bool))
    requires
        terminals_scored(*old(node)),
        no_opening_phase(*old(node)),
    ensures
        terminals_scored(*final(node)),
        same_shape(*old(node), *final(node)),
        no_opening_phase(*final(node)),
        r.1 == if old(node).position.side_to_move is White {
            eval_gt(minimax_spec(*final(node), true), criteria)
        } else {
            eval_lt(minimax_spec(*final(node), false), criteria)
        },
        exists|mid: Branch|
            {
                &&& searched(
                    Branch { is_terminal: false, ..*old(node) },
                    mid,
                    0,
                    JOB_SEARCH_DEPTH as int,
                    Eval::NegInfinity,
                    Eval::Infinity,
                    old(node).position.side_to_move is White,
                    location@,
                )
                &&& #[trigger] minimax_updated(
                    mid,
                    *final(node),
                    old(node).position.side_to_move is White,
                )
                &&& (view_slot(r.0@[0]), view_slot(r.0@[1]), view_slot(r.0@[2])) == top3_fold(
                    mid.children@,
                    0,
                    (None, None, None),
                    location@,
                    old(node).position.side_to_move is White,
                )
            },
{
    let maximize = node.position.side_to_move == Side::White;
    let next_location = node.run_node(JOB_SEARCH_DEPTH, location, maximize);
    let ghost mid = *node;
    let updated_value = node.simple_minimax(maximize);
    proof {
        lemma_minimax_updated_preserves_minimax(mid, *node, maximize);
        lemma_minimax_updated_shape(mid, *node, maximize);
        lemma_same_shape_trans(*old(node), mid, *node);
    }
    let continue_search = if maximize {
        updated_value > criteria
    } else {
        updated_value < criteria
    };
    (next_location, continue_search)
}

impl Engine {
    /// A coordinator over a fresh tree rooted at `position`, inheriting
    /// the line's phase.
    pub fn new(position: Position, phase: Option<GamePhase>) -> (r: Self)
        ensures
            is_fresh_child(r.branch, position, phase),
    {
        Self { branch: Branch::from_parent(position, phase) }
    }

    /// Merges one finished job into the authoritative tree and decides
    /// the follow-up: a job that stayed alive and found a best
    /// continuation spawns a new primary/secondary trio on its top three
    /// locations, with the best line's score as the new criteria; any
    /// other result ends that line.
    pub fn handle_result(
        &mut self,
        res_branch: Branch,
        location: &[usize],
        res_first: Option<(Eval, Vec<usize>)>,
        res_second: Option<(Eval, Vec<usize>)>,
        res_third: Option<(Eval, Vec<usize>)>,
        continue_search: bool,
    ) -> (r: Option<([Option<Vec<usize>>; 3], Eval)>)
        requires
            loc_valid(old(self).branch, location@),
        ensures
            is_spliced(old(self).branch, final(self).branch, res_branch, location@),
            !(continue_search && res_first is Some) ==> r is None,
            continue_search && res_first is Some ==> (r matches Some(jobs) && {
                &&& Some(jobs.1) == eval_of_slot(res_first)
                &&& view_loc(jobs.0@[0]) == loc_of_slot(res_first)
                &&& view_loc(jobs.0@[1]) == loc_of_slot(res_second)
                &&& view_loc(jobs.0@[2]) == loc_of_slot(res_third)
            }),
            terminals_scored(old(self).branch) && terminals_scored(res_branch) ==> terminals_scored(
                final(self).branch,
            ),
    {
        let ghost merged = res_branch;
        self.branch.insert_branch(res_branch, location);
        proof {
            if terminals_scored(old(self).branch) && terminals_scored(merged) {
                lemma_splice_preserves_scored(old(self).branch, self.branch, merged, location@);
            }
        }
        if continue_search {
            match res_first {
                Some((criteria, first_loc)) => {
                    let second_loc = match res_second {
                        Some(p) => Some(p.1),
                        None => None,
                    };
                    let third_loc = match res_third {
                        Some(p) => Some(p.1),
                        None => None,
                    };
                    Some(([Some(first_loc), second_loc, third_loc], criteria))
                },
                None => None,
            }
        } else {
            None
        }
    }
}

} // verus!
