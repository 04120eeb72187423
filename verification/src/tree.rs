//! The search tree. A node ("branch") owns one reachable position, an
//! optional score, an optional game phase, an ordered child sequence in
//! move-generation order, and a terminal flag marking nodes whose score
//! came from direct position evaluation rather than from children.
//!
//! Nodes are addressed by locations: sequences of child indices, the root
//! being the empty sequence. Worker results re-enter the authoritative
//! tree by splicing a subtree in at its location.

use vstd::prelude::*;

use crate::eval::Eval;
use crate::phase::GamePhase;
use crate::position::Position;

verus! {

broadcast use
    vstd::std_specs::vec::axiom_vec_index_decreases,
    vstd::std_specs::vec::axiom_vec_decreases_to_view,
;

/// One node of the game tree.
#[derive(Debug)]
pub struct Branch {
    pub position: Position,
    pub eval: Option<Eval>,
    pub phase: Option<GamePhase>,
    pub children: Vec<Branch>,
    pub is_terminal: bool,
}

/// A freshly created child: carries `p`, inherits `phase`, and has no
/// score, no children and no terminal mark yet.
pub open spec fn is_fresh_child(c: Branch, p: Position, phase: Option<GamePhase>) -> bool {
    &&& c.position == p
    &&& c.eval is None
    &&& c.phase == phase
    &&& c.children@.len() == 0
    &&& !c.is_terminal
}

/// The child sequence of `b` consists exactly of fresh children for the
/// successor positions `succs`, each inheriting `phase`.
pub open spec fn populated_from(b: Branch, phase: Option<GamePhase>, succs: Seq<Position>) -> bool {
    &&& b.children@.len() == succs.len()
    &&& forall|i: int|
        0 <= i < succs.len() ==> is_fresh_child(#[trigger] b.children@[i], succs[i], phase)
}

/// Structural equality of two trees: the same fields at every node and
/// the same shape.
pub open spec fn tree_eq(a: Branch, b: Branch) -> bool
    decreases a,
{
    &&& a.position == b.position
    &&& a.eval == b.eval
    &&& a.phase == b.phase
    &&& a.is_terminal == b.is_terminal
    &&& a.children@.len() == b.children@.len()
    &&& forall|i: int|
        0 <= i < a.children@.len() ==> tree_eq(#[trigger] a.children@[i], b.children@[i])
}

/// `loc` addresses a node of `b`: every index is in range for the child
/// sequence it walks through.
pub open spec fn loc_valid(b: Branch, loc: Seq<usize>) -> bool
    decreases loc.len(),
{
    loc.len() == 0 || (loc[0] < b.children@.len() && loc_valid(
        b.children@[loc[0] as int],
        loc.skip(1),
    ))
}

/// The node of `b` addressed by `loc`.
pub open spec fn spec_find(b: Branch, loc: Seq<usize>) -> Branch
    decreases loc.len(),
{
    if loc.len() == 0 {
        b
    } else {
        spec_find(b.children@[loc[0] as int], loc.skip(1))
    }
}

/// `u` is `t` with the subtree at `loc` replaced wholesale by `input`:
/// every node along the path keeps its own fields and all children off
/// the path, and the addressed subtree becomes `input`.
pub open spec fn is_spliced(t: Branch, u: Branch, input: Branch, loc: Seq<usize>) -> bool
    decreases loc.len(),
{
    if loc.len() == 0 {
        u == input
    } else {
        &&& loc[0] < t.children@.len()
        &&& u.position == t.position
        &&& u.eval == t.eval
        &&& u.phase == t.phase
        &&& u.is_terminal == t.is_terminal
        &&& u.children@.len() == t.children@.len()
        &&& forall|i: int|
            0 <= i < t.children@.len() && i != loc[0] as int ==> u.children@[i] == t.children@[i]
        &&& is_spliced(t.children@[loc[0] as int], u.children@[loc[0] as int], input, loc.skip(1))
    }
}

/// Every terminal node of the tree carries a score. Propagation reads
/// terminal scores without recomputing them, so they must be present.
pub open spec fn terminals_scored(b: Branch) -> bool
    decreases b,
{
    &&& (b.is_terminal ==> b.eval is Some)
    &&& forall|i: int|
        0 <= i < b.children@.len() ==> terminals_scored(#[trigger] b.children@[i])
}

/// The two trees hold the same positions in the same shape; scores,
/// phases and terminal marks may differ.
pub open spec fn same_shape(a: Branch, b: Branch) -> bool
    decreases a,
{
    &&& a.position == b.position
    &&& a.children@.len() == b.children@.len()
    &&& forall|i: int|
        0 <= i < a.children@.len() ==> same_shape(#[trigger] a.children@[i], b.children@[i])
}

/// The minimax score of a tree whose terminal nodes are already scored:
/// a terminal node keeps its stored score, and an internal node takes the
/// maximum (or minimum) of its children's scores, alternating per ply.
/// An internal node without children yields the fold's neutral sentinel.
pub open spec fn minimax_spec(b: Branch, maximize: bool) -> Eval
    decreases b, 1int, 0int,
{
    if b.is_terminal {
        b.eval.unwrap()
    } else if maximize {
        minimax_children(b.children@, 0, Eval::NegInfinity, true)
    } else {
        minimax_children(b.children@, 0, Eval::Infinity, false)
    }
}

/// The minimax fold over the children from index `i` on, starting from
/// the running extremum `acc`.
pub open spec fn minimax_children(cs: Seq<Branch>, i: int, acc: Eval, maximize: bool) -> Eval
    decreases cs, 0int, cs.len() - i,
{
    if i < 0 || i >= cs.len() {
        acc
    } else {
        let v = minimax_spec(cs[i], !maximize);
        let acc2 = if maximize {
            crate::eval::spec_max(acc, v)
        } else {
            crate::eval::spec_min(acc, v)
        };
        minimax_children(cs, i + 1, acc2, maximize)
    }
}

/// How propagation rewrites a tree: terminal nodes are untouched (their
/// scores were computed exactly and never need recomputation), and every
/// internal node with children gets its score overwritten with the
/// re-derived minimax of its children.
pub open spec fn minimax_updated(t: Branch, u: Branch, maximize: bool) -> bool
    decreases t,
{
    if t.is_terminal {
        u == t
    } else {
        &&& u.position == t.position
        &&& u.phase == t.phase
        &&& u.is_terminal == t.is_terminal
        &&& u.children@.len() == t.children@.len()
        &&& u.eval == if t.children@.len() == 0 {
            t.eval
        } else {
            Some(minimax_spec(t, maximize))
        }
        &&& forall|i: int|
            0 <= i < t.children@.len() ==> minimax_updated(
                #[trigger] t.children@[i],
                u.children@[i],
                !maximize,
            )
    }
}

/// Strict order on optional scores: a missing score ranks below every
/// present one, and present scores compare in the mate-aware order.
pub open spec fn opt_eval_lt(a: Option<Eval>, b: Option<Eval>) -> bool {
    match (a, b) {
        (None, None) => false,
        (None, Some(_)) => true,
        (Some(_), None) => false,
        (Some(x), Some(y)) => crate::eval::eval_lt(x, y),
    }
}

/// Reflexive order on optional scores.
pub open spec fn opt_eval_le(a: Option<Eval>, b: Option<Eval>) -> bool {
    opt_eval_lt(a, b) || a == b
}

/// `bi` indexes a best child of `cs` in the scanning direction, with the
/// selection's tie-breaks: when maximizing the last child of maximal
/// score, when minimizing the first child of minimal score.
pub open spec fn is_best_child(cs: Seq<Branch>, bi: int, maximize: bool) -> bool {
    &&& 0 <= bi < cs.len()
    &&& maximize ==> (forall|j: int| 0 <= j < cs.len() ==> opt_eval_le(#[trigger] cs[j].eval, cs[bi].eval))
        && (forall|j: int| bi < j < cs.len() ==> opt_eval_lt(#[trigger] cs[j].eval, cs[bi].eval))
    &&& !maximize ==> (forall|j: int| 0 <= j < cs.len() ==> opt_eval_le(cs[bi].eval, #[trigger] cs[j].eval))
        && (forall|j: int| 0 <= j < bi ==> opt_eval_lt(cs[bi].eval, #[trigger] cs[j].eval))
}

/// No node of the tree is still tagged as in the opening: search runs
/// only once a line has left the opening book, and leaf evaluation
/// re-derives phases that are never `Opening`.
pub open spec fn no_opening_phase(b: Branch) -> bool
    decreases b,
{
    &&& !(b.phase matches Some(GamePhase::Opening(_)))
    &&& forall|i: int|
        0 <= i < b.children@.len() ==> no_opening_phase(#[trigger] b.children@[i])
}

/// The score and best-child location that the depth-limited alpha-beta
/// search computes on a tree, searching from ply `cd` down to ply `dd`.
/// At the depth limit, or on a node without children, the position is
/// scored directly (its child count is its mobility) and the node's own
/// location is reported. Otherwise the children are scanned in
/// move-generation order under the running `(alpha, beta)` window.
pub open spec fn search_spec(
    b: Branch,
    cd: int,
    dd: int,
    alpha: Eval,
    beta: Eval,
    maximize: bool,
    loc: Seq<usize>,
) -> (Eval, Seq<usize>)
    decreases 2 * (dd - cd), 0int,
{
    if cd >= dd || b.children@.len() == 0 {
        (
            crate::heuristics::spec_eval_position(
                b.position,
                b.children@.len() as usize,
                cd as usize,
            ),
            loc,
        )
    } else if maximize {
        search_fold(
            b.children@,
            0,
            cd,
            dd,
            Eval::NegInfinity,
            Seq::empty(),
            alpha,
            beta,
            true,
            loc,
        )
    } else {
        search_fold(b.children@, 0, cd, dd, Eval::Infinity, Seq::empty(), alpha, beta, false, loc)
    }
}

/// The alpha-beta scan over the children from index `i` on: the running
/// best `(acc, acc_loc)` improves only on strict improvement, the window
/// tightens with every child's score, and the scan stops as soon as the
/// window empties (`beta < alpha`).
pub open spec fn search_fold(
    cs: Seq<Branch>,
    i: int,
    cd: int,
    dd: int,
    acc: Eval,
    acc_loc: Seq<usize>,
    alpha: Eval,
    beta: Eval,
    maximize: bool,
    loc: Seq<usize>,
) -> (Eval, Seq<usize>)
    decreases 2 * (dd - cd) - 1, cs.len() - i,
{
    if i < 0 || i >= cs.len() || cd >= dd {
        (acc, acc_loc)
    } else {
        let r = search_spec(
            cs[i],
            cd + 1,
            dd,
            alpha,
            beta,
            !maximize,
            loc.push(#[verifier::truncate] (i as usize)),
        );
        let improved = if maximize {
            crate::eval::eval_gt(r.0, acc)
        } else {
            crate::eval::eval_lt(r.0, acc)
        };
        let acc2 = if improved {
            r.0
        } else {
            acc
        };
        let acc_loc2 = if improved {
            r.1
        } else {
            acc_loc
        };
        let alpha2 = if maximize {
            crate::eval::spec_max(alpha, r.0)
        } else {
            alpha
        };
        let beta2 = if maximize {
            beta
        } else {
            crate::eval::spec_min(beta, r.0)
        };
        if crate::eval::eval_lt(beta2, alpha2) {
            (acc2, acc_loc2)
        } else {
            search_fold(cs, i + 1, cd, dd, acc2, acc_loc2, alpha2, beta2, maximize, loc)
        }
    }
}

/// How one search pass rewrites a tree: the analogue of
/// `minimax_updated` for `simple_alpha_beta`. Where the search bottoms
/// out (the depth limit, or a node without children) the node is marked
/// terminal and stores exactly the direct score of its position, with the
/// phase re-derived for an ongoing position. Above the limit the node
/// keeps its fields, its stored score follows the scan's result, and the
/// children are scanned left to right under the evolving window: each
/// scanned child is itself searched, and everything after the scan
/// stopped — whether by exhaustion or by pruning — is untouched.
pub open spec fn searched(
    t: Branch,
    u: Branch,
    cd: int,
    dd: int,
    alpha: Eval,
    beta: Eval,
    maximize: bool,
    loc: Seq<usize>,
) -> bool
    decreases 2 * (dd - cd), 0int,
{
    if cd >= dd || t.children@.len() == 0 {
        &&& u.position == t.position
        &&& u.children == t.children
        &&& u.is_terminal
        &&& u.eval == Some(
            crate::heuristics::spec_eval_position(
                t.position,
                t.children@.len() as usize,
                cd as usize,
            ),
        )
        &&& u.phase == if crate::position::spec_game_state(
            t.position,
            t.children@.len() as usize,
        ) is Ongoing {
            Some(crate::phase::spec_determine_phase(t.phase, t.position.white, t.position.black))
        } else {
            t.phase
        }
    } else {
        &&& u.position == t.position
        &&& u.phase == t.phase
        &&& u.is_terminal == t.is_terminal
        &&& u.children@.len() == t.children@.len()
        &&& u.eval == ({
            let v = search_spec(t, cd, dd, alpha, beta, maximize, loc).0;
            if (maximize && v != Eval::NegInfinity) || (!maximize && v != Eval::Infinity) {
                Some(v)
            } else {
                t.eval
            }
        })
        &&& searched_children(t.children@, u.children@, 0, cd, dd, alpha, beta, maximize, loc)
    }
}

/// The search pass over the children from index `i` on, under the running
/// window: the child at `i` is searched, the window tightens with its
/// score, and either the scan stops (the remaining children stay
/// untouched) or it continues at `i + 1`.
pub open spec fn searched_children(
    cs: Seq<Branch>,
    us: Seq<Branch>,
    i: int,
    cd: int,
    dd: int,
    alpha: Eval,
    beta: Eval,
    maximize: bool,
    loc: Seq<usize>,
) -> bool
    decreases 2 * (dd - cd) - 1, cs.len() - i,
{
    if i < 0 || i >= cs.len() || cd >= dd {
        forall|j: int| i <= j < cs.len() ==> us[j] == #[trigger] cs[j]
    } else {
        let child_loc = loc.push(#[verifier::truncate] (i as usize));
        let v = search_spec(cs[i], cd + 1, dd, alpha, beta, !maximize, child_loc).0;
        let alpha2 = if maximize {
            crate::eval::spec_max(alpha, v)
        } else {
            alpha
        };
        let beta2 = if maximize {
            beta
        } else {
            crate::eval::spec_min(beta, v)
        };
        &&& searched(cs[i], us[i], cd + 1, dd, alpha, beta, !maximize, child_loc)
        &&& if crate::eval::eval_lt(beta2, alpha2) {
            forall|j: int| i < j < cs.len() ==> us[j] == #[trigger] cs[j]
        } else {
            searched_children(cs, us, i + 1, cd, dd, alpha2, beta2, maximize, loc)
        }
    }
}

/// The top-three running candidates: up to three scored locations,
/// ordered best first.
pub type Top3 = (Option<(Eval, Seq<usize>)>, Option<(Eval, Seq<usize>)>, Option<(Eval, Seq<usize>)>);

/// `e` beats `x` in the scanning direction: strictly greater when
/// maximizing, strictly less when minimizing.
pub open spec fn top3_better(e: Eval, x: Eval, maximize: bool) -> bool {
    if maximize {
        crate::eval::eval_gt(e, x)
    } else {
        crate::eval::eval_lt(e, x)
    }
}

/// Inserts a scored location into the running top three: a candidate that
/// beats a slot pushes that slot and everything below it one place down,
/// and a candidate that beats nothing fills the first empty slot, if any.
pub open spec fn top3_insert(acc: Top3, e: Eval, loc: Seq<usize>, maximize: bool) -> Top3 {
    match acc.0 {
        None => (Some((e, loc)), acc.1, acc.2),
        Some(first) => if top3_better(e, first.0, maximize) {
            (Some((e, loc)), acc.0, acc.1)
        } else {
            match acc.1 {
                None => (acc.0, Some((e, loc)), acc.2),
                Some(second) => if top3_better(e, second.0, maximize) {
                    (acc.0, Some((e, loc)), acc.1)
                } else {
                    match acc.2 {
                        None => (acc.0, acc.1, Some((e, loc))),
                        Some(third) => if top3_better(e, third.0, maximize) {
                            (acc.0, acc.1, Some((e, loc)))
                        } else {
                            acc
                        },
                    }
                },
            }
        },
    }
}

/// Folds the children from index `i` on into the running top three,
/// considering only scored children and addressing each as `base`
/// extended by its child index.
pub open spec fn top3_fold(
    cs: Seq<Branch>,
    i: int,
    acc: Top3,
    base: Seq<usize>,
    maximize: bool,
) -> Top3
    decreases cs.len() - i,
{
    if i < 0 || i >= cs.len() {
        acc
    } else {
        let acc2 = match cs[i].eval {
            Some(e) => top3_insert(acc, e, base.push(i as usize), maximize),
            None => acc,
        };
        top3_fold(cs, i + 1, acc2, base, maximize)
    }
}

/// The spec-level value of one result slot: the score paired with the
/// location's view.
pub open spec fn view_slot(s: Option<(Eval, Vec<usize>)>) -> Option<(Eval, Seq<usize>)> {
    match s {
        None => None,
        Some(p) => Some((p.0, p.1@)),
    }
}

/// Two locations diverge: neither is a prefix of the other, so they
/// address disjoint subtrees.
pub open spec fn locs_diverge(l1: Seq<usize>, l2: Seq<usize>) -> bool
    decreases l1.len(),
{
    &&& l1.len() > 0
    &&& l2.len() > 0
    &&& (l1[0] != l2[0] || locs_diverge(l1.skip(1), l2.skip(1)))
}

impl Branch {
    /// Creates a new branch that inherits the game phase from its parent.
    /// If the phase is `None`, it will be determined at the next
    /// evaluation.
    pub fn from_parent(position: Position, parent_phase: Option<GamePhase>) -> (r: Self)
        ensures
            is_fresh_child(r, position, parent_phase),
    {
        Self { position, eval: None, phase: parent_phase, children: Vec::new(), is_terminal: false }
    }

    /// Regenerates the child sequence from the position's legal
    /// successors, each child inheriting this node's phase. Overwrites any
    /// existing children; every other field is kept. The successor list
    /// must be the position's own: one successor per unit of mobility.
    pub fn populate(&mut self, successors: Vec<Position>)
        requires
            successors@.len() == old(self).position.mobility,
        ensures
            populated_from(*final(self), old(self).phase, successors@),
            final(self).position == old(self).position,
            final(self).eval == old(self).eval,
            final(self).phase == old(self).phase,
            final(self).is_terminal == old(self).is_terminal,
    {
        let mut children: Vec<Branch> = Vec::new();
        let mut i: usize = 0;
        while i < successors.len()
            invariant
                i <= successors@.len(),
                children@.len() == i,
                forall|j: int|
                    0 <= j < i ==> is_fresh_child(
                        #[trigger] children@[j],
                        successors@[j],
                        self.phase,
                    ),
                *self == *old(self),
            decreases successors@.len() - i,
        {
            children.push(Branch::from_parent(successors[i], self.phase));
            i = i + 1;
        }
        self.children = children;
    }

    /// A deep copy of the subtree rooted at this node, structurally equal
    /// to it. Worker jobs operate on such copies; they never share the
    /// authoritative tree.
    pub fn deep_clone(&self) -> (r: Self)
        ensures
            tree_eq(r, *self),
        decreases *self,
    {
        let mut children: Vec<Branch> = Vec::new();
        let mut i: usize = 0;
        while i < self.children.len()
            invariant
                i <= self.children@.len(),
                children@.len() == i,
                forall|j: int|
                    0 <= j < i ==> tree_eq(#[trigger] children@[j], self.children@[j]),
            decreases self.children@.len() - i,
        {
            children.push(self.children[i].deep_clone());
            i = i + 1;
        }
        Self {
            position: self.position,
            eval: self.eval,
            phase: self.phase,
            children,
            is_terminal: self.is_terminal,
        }
    }

    /// Resolves a location by walking child indices from this node.
    pub fn find_branch(&self, location: &[usize]) -> (r: &Self)
        requires
            loc_valid(*self, location@),
        ensures
            *r == spec_find(*self, location@),
    {
        proof {
            assert(location@.skip(0) =~= location@);
        }
        self.find_from(location, 0)
    }

    fn find_from(&self, location: &[usize], from: usize) -> (r: &Self)
        requires
            from <= location@.len(),
            loc_valid(*self, location@.skip(from as int)),
        ensures
            *r == spec_find(*self, location@.skip(from as int)),
        decreases location@.len() - from,
    {
        if from == location.len() {
            self
        } else {
            let idx = location[from];
            proof {
                assert(location@.skip(from as int)[0] == location@[from as int]);
                assert(location@.skip(from as int).skip(1) =~= location@.skip(from as int + 1));
            }
            self.children[idx].find_from(location, from + 1)
        }
    }

    /// Re-derives the score of every internal node as the extremum of its
    /// children's re-derived scores, alternating maximize/minimize per
    /// ply, and returns the root's score. Terminal nodes keep their
    /// stored score unchanged: this pass rearranges with new information,
    /// it does not evaluate positions. Used after partial re-exploration
    /// to make ancestor scores consistent again.
    pub fn simple_minimax(&mut self, maximize: bool) -> (r: Eval)
        requires
            terminals_scored(*old(self)),
        ensures
            r == minimax_spec(*old(self), maximize),
            minimax_updated(*old(self), *final(self), maximize),
            terminals_scored(*final(self)),
        decreases *old(self),
    {
        if self.is_terminal {
            // All terminal nodes have been scored already.
            self.eval.unwrap()
        } else {
            let ghost t = *old(self);
            let mut acc = if maximize {
                Eval::NegInfinity
            } else {
                Eval::Infinity
            };
            let mut i: usize = 0;
            while i < self.children.len()
                invariant
                    t == *old(self),
                    terminals_scored(t),
                    !t.is_terminal,
                    i <= t.children@.len(),
                    self.position == t.position,
                    self.phase == t.phase,
                    self.is_terminal == t.is_terminal,
                    self.children@.len() == t.children@.len(),
                    forall|j: int|
                        i <= j < t.children@.len() ==> self.children@[j] == t.children@[j],
                    forall|j: int|
                        0 <= j < i ==> minimax_updated(
                            t.children@[j],
                            #[trigger] self.children@[j],
                            !maximize,
                        ),
                    forall|j: int|
                        0 <= j < i ==> terminals_scored(#[trigger] self.children@[j]),
                    minimax_children(
                        t.children@,
                        0,
                        if maximize {
                            Eval::NegInfinity
                        } else {
                            Eval::Infinity
                        },
                        maximize,
                    ) == minimax_children(t.children@, i as int, acc, maximize),
                    self.eval == if i == 0 {
                        t.eval
                    } else {
                        Some(acc)
                    },
                decreases t.children@.len() - i,
            {
                let ghost pre = self.children@;
                let mut child = self.children.remove(i);
                proof {
                    assert(child == t.children@[i as int]);
                    assert(decreases_to!(t => t.children));
                    assert(decreases_to!(t.children => t.children@));
                    assert(decreases_to!(t.children@ => t.children@[i as int]));
                }
                let eval = child.simple_minimax(!maximize);
                acc = if maximize {
                    acc.max(eval)
                } else {
                    acc.min(eval)
                };
                self.eval = Some(acc);
                self.children.insert(i, child);
                proof {
                    assert forall|j: int|
                        0 <= j < t.children@.len() && j != i as int implies self.children@[j]
                        == pre[j] by {
                        if j < i as int {
                            assert(self.children@[j] == pre.remove(i as int).insert(
                                i as int,
                                child,
                            )[j]);
                        }
                    }
                    assert(self.children@[i as int] == child);
                }
                i = i + 1;
            }
            acc
        }
    }

    /// Recursive depth-limited alpha-beta over the expanded tree. At the
    /// depth limit, or on a node without successors, the position is
    /// scored directly, stored, and the node marked terminal. Otherwise
    /// the children are scanned in move-generation order: the maximizing
    /// side raises `alpha`, the minimizing side lowers `beta`, the node's
    /// stored score follows every strict improvement, and the scan of the
    /// remaining siblings stops as soon as `beta < alpha`. Returns the
    /// best score and the full location of the node that produced it.
    fn simple_alpha_beta(
        &mut self,
        current_depth: usize,
        desired_depth: usize,
        current_location: &[usize],
        alpha: Eval,
        beta: Eval,
        maximize: bool,
    ) -> (r: (Eval, Vec<usize>))
        requires
            current_depth <= desired_depth,
            terminals_scored(*old(self)),
            no_opening_phase(*old(self)),
        ensures
            r.0 == search_spec(
                *old(self),
                current_depth as int,
                desired_depth as int,
                alpha,
                beta,
                maximize,
                current_location@,
            ).0,
            r.1@ == search_spec(
                *old(self),
                current_depth as int,
                desired_depth as int,
                alpha,
                beta,
                maximize,
                current_location@,
            ).1,
            same_shape(*old(self), *final(self)),
            terminals_scored(*final(self)),
            no_opening_phase(*final(self)),
            current_depth == desired_depth || old(self).children@.len() == 0
                ==> final(self).is_terminal && final(self).eval == Some(r.0),
            current_depth < desired_depth && old(self).children@.len() > 0 ==> {
                &&& final(self).is_terminal == old(self).is_terminal
                &&& final(self).phase == old(self).phase
                &&& final(self).eval == if (maximize && r.0 != Eval::NegInfinity) || (!maximize
                    && r.0 != Eval::Infinity) {
                    Some(r.0)
                } else {
                    old(self).eval
                }
            },
            searched(
                *old(self),
                *final(self),
                current_depth as int,
                desired_depth as int,
                alpha,
                beta,
                maximize,
                current_location@,
            ),
        decreases desired_depth - current_depth,
    {
        if current_depth == desired_depth || self.children.len() == 0 {
            let mobility = self.children.len();
            let eval = self.eval_position(mobility, current_depth);
            self.eval = Some(eval);
            self.is_terminal = true;
            proof {
                assert forall|j: int| 0 <= j < self.children@.len() implies same_shape(
                    old(self).children@[j],
                    #[trigger] self.children@[j],
                ) by {
                    lemma_same_shape_refl(self.children@[j]);
                }
            }
            return (eval, vstd::slice::slice_to_vec(current_location));
        }
        let ghost t = *old(self);
        let ghost cs = t.children@;
        let ghost sinit: Eval = if maximize {
            Eval::NegInfinity
        } else {
            Eval::Infinity
        };
        let mut acc = if maximize {
            Eval::NegInfinity
        } else {
            Eval::Infinity
        };
        let mut acc_loc: Vec<usize> = Vec::new();
        let mut cur_alpha = alpha;
        let mut cur_beta = beta;
        let mut i: usize = 0;
        proof {
            assert forall|j: int| 0 <= j < cs.len() implies same_shape(
                cs[j],
                #[trigger] self.children@[j],
            ) by {
                lemma_same_shape_refl(cs[j]);
            }
            assert(acc_loc@ =~= Seq::<usize>::empty());
        }
        while i < self.children.len()
            invariant_except_break
                search_fold(
                    cs,
                    0,
                    current_depth as int,
                    desired_depth as int,
                    sinit,
                    Seq::empty(),
                    alpha,
                    beta,
                    maximize,
                    current_location@,
                ) == search_fold(
                    cs,
                    i as int,
                    current_depth as int,
                    desired_depth as int,
                    acc,
                    acc_loc@,
                    cur_alpha,
                    cur_beta,
                    maximize,
                    current_location@,
                ),
                forall|us: Seq<Branch>|
                    (us.len() == cs.len() && (forall|j: int|
                        0 <= j < i as int ==> us[j] == self.children@[j])
                        && #[trigger] searched_children(
                        cs,
                        us,
                        i as int,
                        current_depth as int,
                        desired_depth as int,
                        cur_alpha,
                        cur_beta,
                        maximize,
                        current_location@,
                    )) ==> searched_children(
                        cs,
                        us,
                        0,
                        current_depth as int,
                        desired_depth as int,
                        alpha,
                        beta,
                        maximize,
                        current_location@,
                    ),
            invariant
                t == *old(self),
                terminals_scored(t),
                no_opening_phase(t),
                cs == t.children@,
                current_depth < desired_depth,
                cs.len() > 0,
                i <= cs.len(),
                sinit == if maximize {
                    Eval::NegInfinity
                } else {
                    Eval::Infinity
                },
                self.position == t.position,
                self.phase == t.phase,
                self.is_terminal == t.is_terminal,
                self.children@.len() == cs.len(),
                forall|j: int| i <= j < cs.len() ==> self.children@[j] == cs[j],
                forall|j: int|
                    0 <= j < cs.len() ==> same_shape(cs[j], #[trigger] self.children@[j]),
                forall|j: int| 0 <= j < cs.len() ==> terminals_scored(#[trigger] self.children@[j]),
                forall|j: int|
                    0 <= j < cs.len() ==> no_opening_phase(#[trigger] self.children@[j]),
                self.eval == if acc == sinit {
                    t.eval
                } else {
                    Some(acc)
                },
                i as int == cs.len() ==> searched_children(
                    cs,
                    self.children@,
                    0,
                    current_depth as int,
                    desired_depth as int,
                    alpha,
                    beta,
                    maximize,
                    current_location@,
                ),
            ensures
                searched_children(
                    cs,
                    self.children@,
                    0,
                    current_depth as int,
                    desired_depth as int,
                    alpha,
                    beta,
                    maximize,
                    current_location@,
                ),
                acc == search_fold(
                    cs,
                    0,
                    current_depth as int,
                    desired_depth as int,
                    sinit,
                    Seq::empty(),
                    alpha,
                    beta,
                    maximize,
                    current_location@,
                ).0,
                acc_loc@ == search_fold(
                    cs,
                    0,
                    current_depth as int,
                    desired_depth as int,
                    sinit,
                    Seq::empty(),
                    alpha,
                    beta,
                    maximize,
                    current_location@,
                ).1,
            decreases cs.len() - i,
        {
            let ghost pre = self.children@;
            let ghost acc_prev = acc;
            let ghost acc_loc_prev = acc_loc@;
            let ghost alpha_prev = cur_alpha;
            let ghost beta_prev = cur_beta;
            let mut child = self.children.remove(i);
            let child_loc = loc_push(current_location, i);
            let rr = child.simple_alpha_beta(
                current_depth + 1,
                desired_depth,
                child_loc.as_slice(),
                cur_alpha,
                cur_beta,
                !maximize,
            );
            self.children.insert(i, child);
            proof {
                assert forall|j: int|
                    0 <= j < cs.len() && j != i as int implies self.children@[j] == pre[j] by {
                    if j < i as int {
                        assert(self.children@[j] == pre.remove(i as int).insert(
                            i as int,
                            child,
                        )[j]);
                    }
                }
                assert(self.children@[i as int] == child);
            }
            let v = rr.0;
            let improved = if maximize {
                v > acc
            } else {
                v < acc
            };
            if improved {
                acc = v;
                acc_loc = rr.1;
                self.eval = Some(acc);
            }
            if maximize {
                cur_alpha = cur_alpha.max(v);
            } else {
                cur_beta = cur_beta.min(v);
            }
            let ghost old_i = i as int;
            i = i + 1;
            proof {
                assert(search_fold(
                    cs,
                    old_i,
                    current_depth as int,
                    desired_depth as int,
                    acc_prev,
                    acc_loc_prev,
                    alpha_prev,
                    beta_prev,
                    maximize,
                    current_location@,
                ) == if crate::eval::eval_lt(cur_beta, cur_alpha) {
                    (acc, acc_loc@)
                } else {
                    search_fold(
                        cs,
                        i as int,
                        current_depth as int,
                        desired_depth as int,
                        acc,
                        acc_loc@,
                        cur_alpha,
                        cur_beta,
                        maximize,
                        current_location@,
                    )
                });
            }
            let prune_now = cur_beta < cur_alpha;
            proof {
                let ghost cdi = current_depth as int;
                let ghost ddi = desired_depth as int;
                let ghost bloc = current_location@;
                // The child just searched, at its window.
                assert(pre[old_i] == cs[old_i]);
                assert(child_loc@ == bloc.push(old_i as usize));
                assert(searched(
                    cs[old_i],
                    self.children@[old_i],
                    cdi + 1,
                    ddi,
                    alpha_prev,
                    beta_prev,
                    !maximize,
                    bloc.push(old_i as usize),
                ));
                assert(v == search_spec(
                    cs[old_i],
                    cdi + 1,
                    ddi,
                    alpha_prev,
                    beta_prev,
                    !maximize,
                    bloc.push(old_i as usize),
                ).0);
                assert(forall|j: int| 0 <= j < old_i ==> self.children@[j] == pre[j]);
                if prune_now {
                    // The scan stops here: the suffix is untouched, so the
                    // whole-scan relation closes at this step.
                    assert forall|j: int| old_i < j < cs.len() implies self.children@[j] == #[trigger] cs[j] by {
                        assert(self.children@[j] == pre[j]);
                    }
                    assert(searched_children(
                        cs,
                        self.children@,
                        old_i,
                        cdi,
                        ddi,
                        alpha_prev,
                        beta_prev,
                        maximize,
                        bloc,
                    ));
                    assert(searched_children(
                        cs,
                        self.children@,
                        0,
                        cdi,
                        ddi,
                        alpha,
                        beta,
                        maximize,
                        bloc,
                    ));
                } else {
                    // The scan continues: extending a valid remainder at
                    // the new window by this step gives a valid remainder
                    // at the previous one.
                    assert forall|us: Seq<Branch>|
                        (us.len() == cs.len() && (forall|j: int|
                            0 <= j < i as int ==> us[j] == self.children@[j])
                            && #[trigger] searched_children(
                            cs,
                            us,
                            i as int,
                            cdi,
                            ddi,
                            cur_alpha,
                            cur_beta,
                            maximize,
                            bloc,
                        )) implies searched_children(
                        cs,
                        us,
                        0,
                        cdi,
                        ddi,
                        alpha,
                        beta,
                        maximize,
                        bloc,
                    ) by {
                        assert(us[old_i] == self.children@[old_i]);
                        assert(searched_children(
                            cs,
                            us,
                            old_i,
                            cdi,
                            ddi,
                            alpha_prev,
                            beta_prev,
                            maximize,
                            bloc,
                        ));
                        assert(forall|j: int| 0 <= j < old_i ==> us[j] == pre[j]);
                    }
                }
            }
            if i == self.children.len() && !prune_now {
                proof {
                    let ghost cdi = current_depth as int;
                    let ghost ddi = desired_depth as int;
                    let ghost bloc = current_location@;
                    assert(searched_children(
                        cs,
                        self.children@,
                        i as int,
                        cdi,
                        ddi,
                        cur_alpha,
                        cur_beta,
                        maximize,
                        bloc,
                    ));
                    assert(searched_children(
                        cs,
                        self.children@,
                        0,
                        cdi,
                        ddi,
                        alpha,
                        beta,
                        maximize,
                        bloc,
                    ));
                }
            }
            if prune_now {
                break ;
            }
        }
        (acc, acc_loc)
    }

    /// Runs a fresh search of the given depth from this node (clearing
    /// its terminal mark first) and reports the up-to-three best
    /// continuations found among its children, each with its full
    /// location.
    pub fn run_node(&mut self, depth: usize, location: &[usize], maximize: bool) -> (r: [Option<
        (Eval, Vec<usize>),
    >; 3])
        requires
            terminals_scored(*old(self)),
            no_opening_phase(*old(self)),
        ensures
            same_shape(*old(self), *final(self)),
            terminals_scored(*final(self)),
            no_opening_phase(*final(self)),
            (view_slot(r@[0]), view_slot(r@[1]), view_slot(r@[2])) == top3_fold(
                final(self).children@,
                0,
                (None, None, None),
                location@,
                maximize,
            ),
            depth == 0 || old(self).children@.len() == 0 ==> final(self).is_terminal
                && final(self).eval == Some(
                search_spec(
                    *old(self),
                    0,
                    depth as int,
                    Eval::NegInfinity,
                    Eval::Infinity,
                    maximize,
                    location@,
                ).0,
            ),
            depth > 0 && old(self).children@.len() > 0 ==> !final(self).is_terminal,
            searched(
                Branch { is_terminal: false, ..*old(self) },
                *final(self),
                0,
                depth as int,
                Eval::NegInfinity,
                Eval::Infinity,
                maximize,
                location@,
            ),
    {
        self.is_terminal = false;
        let ghost b0 = *self;
        let _search = self.simple_alpha_beta(
            0,
            depth,
            location,
            Eval::NegInfinity,
            Eval::Infinity,
            maximize,
        );
        proof {
            assert(search_spec(
                b0,
                0,
                depth as int,
                Eval::NegInfinity,
                Eval::Infinity,
                maximize,
                location@,
            ) == search_spec(
                *old(self),
                0,
                depth as int,
                Eval::NegInfinity,
                Eval::Infinity,
                maximize,
                location@,
            ));
        }
        self.get_top_three(location, maximize)
    }

    /// Fixes up the tree after expanded search by re-propagating scores,
    /// then returns the root's best child in the scanning direction: the
    /// move ultimately chosen. Returns nothing only when the root has no
    /// children.
    pub fn get_best(&mut self, maximize: bool) -> (r: Option<&Branch>)
        requires
            terminals_scored(*old(self)),
        ensures
            minimax_updated(*old(self), *final(self), maximize),
            terminals_scored(*final(self)),
            (old(self).children@.len() == 0) == (r is None),
            r matches Some(c) ==> exists|bi: int|
                is_best_child(final(self).children@, bi, maximize) && *c
                    == final(self).children@[bi],
    {
        // fix tree after expanded search
        self.simple_minimax(maximize);
        if self.children.len() == 0 {
            return None;
        }
        let ghost cs = self.children@;
        let mut bi: usize = 0;
        let mut j: usize = 1;
        while j < self.children.len()
            invariant
                cs == self.children@,
                (bi as int) < (j as int) <= cs.len(),
                maximize ==> forall|k: int|
                    0 <= k < j ==> opt_eval_le(#[trigger] cs[k].eval, cs[bi as int].eval),
                maximize ==> forall|k: int|
                    bi < k < j ==> opt_eval_lt(#[trigger] cs[k].eval, cs[bi as int].eval),
                !maximize ==> forall|k: int|
                    0 <= k < j ==> opt_eval_le(cs[bi as int].eval, #[trigger] cs[k].eval),
                !maximize ==> forall|k: int|
                    0 <= k < bi ==> opt_eval_lt(cs[bi as int].eval, #[trigger] cs[k].eval),
            decreases cs.len() - j,
        {
            let replace = if maximize {
                !opt_eval_less(&self.children[j].eval, &self.children[bi].eval)
            } else {
                opt_eval_less(&self.children[j].eval, &self.children[bi].eval)
            };
            if replace {
                bi = j;
            }
            j = j + 1;
        }
        proof {
            assert(is_best_child(cs, bi as int, maximize));
        }
        Some(&self.children[bi])
    }

    /// Scans the direct children for the up-to-three best scored ones in
    /// the scanning direction and returns their scores paired with their
    /// full locations (`location` extended by the child index), best
    /// first. Children without a score are skipped; ties keep the
    /// earlier-seen child.
    pub fn get_top_three(&self, location: &[usize], maximize: bool) -> (r: [Option<
        (Eval, Vec<usize>),
    >; 3])
        ensures
            (view_slot(r@[0]), view_slot(r@[1]), view_slot(r@[2])) == top3_fold(
                self.children@,
                0,
                (None, None, None),
                location@,
                maximize,
            ),
    {
        let ghost cs = self.children@;
        let ghost base = location@;
        let mut top_first: Option<(Eval, Vec<usize>)> = None;
        let mut top_second: Option<(Eval, Vec<usize>)> = None;
        let mut top_third: Option<(Eval, Vec<usize>)> = None;
        let mut i: usize = 0;
        while i < self.children.len()
            invariant
                cs == self.children@,
                base == location@,
                i <= cs.len(),
                top3_fold(cs, 0, (None, None, None), base, maximize) == top3_fold(
                    cs,
                    i as int,
                    (view_slot(top_first), view_slot(top_second), view_slot(top_third)),
                    base,
                    maximize,
                ),
            decreases cs.len() - i,
        {
            if let Some(eval) = self.children[i].eval {
                match slot_eval(&top_first) {
                    None => {
                        top_first = Some((eval, loc_push(location, i)));
                    },
                    Some(first) => {
                        let beats_first = if maximize {
                            eval > first
                        } else {
                            eval < first
                        };
                        if beats_first {
                            top_third = top_second;
                            top_second = top_first;
                            top_first = Some((eval, loc_push(location, i)));
                        } else {
                            match slot_eval(&top_second) {
                                None => {
                                    top_second = Some((eval, loc_push(location, i)));
                                },
                                Some(second) => {
                                    let beats_second = if maximize {
                                        eval > second
                                    } else {
                                        eval < second
                                    };
                                    if beats_second {
                                        top_third = top_second;
                                        top_second = Some((eval, loc_push(location, i)));
                                    } else {
                                        match slot_eval(&top_third) {
                                            None => {
                                                top_third = Some((eval, loc_push(location, i)));
                                            },
                                            Some(third) => {
                                                let beats_third = if maximize {
                                                    eval > third
                                                } else {
                                                    eval < third
                                                };
                                                if beats_third {
                                                    top_third = Some(
                                                        (eval, loc_push(location, i)),
                                                    );
                                                }
                                            },
                                        }
                                    }
                                },
                            }
                        }
                    },
                }
            }
            i = i + 1;
        }
        [top_first, top_second, top_third]
    }

    /// Replaces the subtree at `location` wholesale with an
    /// externally-computed one. This is how worker results enter the
    /// authoritative tree.
    pub fn insert_branch(&mut self, input_branch: Branch, location: &[usize])
        requires
            loc_valid(*old(self), location@),
        ensures
            is_spliced(*old(self), *final(self), input_branch, location@),
    {
        proof {
            assert(location@.skip(0) =~= location@);
        }
        self.insert_from(input_branch, location, 0)
    }

    fn insert_from(&mut self, input_branch: Branch, location: &[usize], from: usize)
        requires
            from <= location@.len(),
            loc_valid(*old(self), location@.skip(from as int)),
        ensures
            is_spliced(*old(self), *final(self), input_branch, location@.skip(from as int)),
        decreases location@.len() - from,
    {
        if from == location.len() {
            *self = input_branch;
        } else {
            let idx = location[from];
            proof {
                assert(location@.skip(from as int)[0] == location@[from as int]);
                assert(location@.skip(from as int).skip(1) =~= location@.skip(from as int + 1));
            }
            let mut child = self.children.remove(idx);
            child.insert_from(input_branch, location, from + 1);
            self.children.insert(idx, child);
            proof {
                let t = *old(self);
                let u = *final(self);
                assert(u.children@.len() == t.children@.len());
                assert forall|i: int|
                    0 <= i < t.children@.len() && i != idx as int implies u.children@[i]
                    == t.children@[i] by {
                    if i < idx as int {
                        assert(u.children@[i] == t.children@.remove(idx as int).insert(
                            idx as int,
                            child,
                        )[i]);
                    }
                }
                assert(u.children@[idx as int] == child);
            }
        }
    }
}

/// Every tree has the same positions and shape as itself.
pub proof fn lemma_same_shape_refl(b: Branch)
    ensures
        same_shape(b, b),
    decreases b,
{
    assert forall|i: int| 0 <= i < b.children@.len() implies same_shape(
        #[trigger] b.children@[i],
        b.children@[i],
    ) by {
        lemma_same_shape_refl(b.children@[i]);
    }
}

/// Strict comparison of two optional scores: a missing score ranks below
/// every present one.
fn opt_eval_less(a: &Option<Eval>, b: &Option<Eval>) -> (r: bool)
    ensures
        r == opt_eval_lt(*a, *b),
{
    match (a, b) {
        (None, None) => false,
        (None, Some(_)) => true,
        (Some(_), None) => false,
        (Some(x), Some(y)) => x < y,
    }
}

/// The score held in a result slot, if the slot is filled.
fn slot_eval(s: &Option<(Eval, Vec<usize>)>) -> (r: Option<Eval>)
    ensures
        r == match *s {
            Some(p) => Some(p.0),
            None => None::<Eval>,
        },
{
    match s {
        Some(p) => Some(p.0),
        None => None,
    }
}

/// `location` extended by one child index, as an owned vector.
fn loc_push(location: &[usize], idx: usize) -> (r: Vec<usize>)
    ensures
        r@ == location@.push(idx),
{
    let mut r = vstd::slice::slice_to_vec(location);
    r.push(idx);
    proof {
        assert(r@ =~= location@.push(idx));
    }
    r
}

/// After splicing `input` in at `loc`, resolving `loc` returns the
/// spliced subtree unchanged.
pub proof fn lemma_splice_then_find(t: Branch, u: Branch, input: Branch, loc: Seq<usize>)
    requires
        is_spliced(t, u, input, loc),
    ensures
        loc_valid(u, loc),
        spec_find(u, loc) == input,
    decreases loc.len(),
{
    if loc.len() > 0 {
        lemma_splice_then_find(
            t.children@[loc[0] as int],
            u.children@[loc[0] as int],
            input,
            loc.skip(1),
        );
    }
}

/// A splice at one location does not disturb the subtree at any location
/// diverging from it: reads at disjoint addresses are order-independent
/// under splicing.
pub proof fn lemma_splice_preserves_disjoint(
    t: Branch,
    u: Branch,
    input: Branch,
    loc: Seq<usize>,
    other: Seq<usize>,
)
    requires
        is_spliced(t, u, input, loc),
        locs_diverge(loc, other),
        loc_valid(t, other),
    ensures
        loc_valid(u, other),
        spec_find(u, other) == spec_find(t, other),
    decreases loc.len(),
{
    if loc[0] != other[0] {
        assert(u.children@[other[0] as int] == t.children@[other[0] as int]);
    } else {
        lemma_splice_preserves_disjoint(
            t.children@[loc[0] as int],
            u.children@[loc[0] as int],
            input,
            loc.skip(1),
            other.skip(1),
        );
    }
}

/// Splicing results for two diverging locations leaves both results
/// readable at their addresses, whichever was merged first: the merge
/// order of disjoint worker results does not matter.
pub proof fn lemma_splice_merge_order_independent(
    t: Branch,
    u: Branch,
    v: Branch,
    first: Branch,
    second: Branch,
    loc1: Seq<usize>,
    loc2: Seq<usize>,
)
    requires
        is_spliced(t, u, first, loc1),
        is_spliced(u, v, second, loc2),
        locs_diverge(loc1, loc2),
    ensures
        spec_find(v, loc1) == first,
        spec_find(v, loc2) == second,
{
    lemma_splice_then_find(t, u, first, loc1);
    lemma_splice_then_find(u, v, second, loc2);
    lemma_locs_diverge_symm(loc1, loc2);
    lemma_splice_preserves_disjoint(u, v, second, loc2, loc1);
}

/// Divergence of locations is symmetric.
pub proof fn lemma_locs_diverge_symm(l1: Seq<usize>, l2: Seq<usize>)
    requires
        locs_diverge(l1, l2),
    ensures
        locs_diverge(l2, l1),
    decreases l1.len(),
{
    if l1[0] == l2[0] {
        lemma_locs_diverge_symm(l1.skip(1), l2.skip(1));
    }
}

/// Propagation does not change what propagation computes: the minimax
/// score reads only the tree's shape, terminal marks and terminal scores,
/// and the propagation pass preserves all three.
pub proof fn lemma_minimax_updated_preserves_minimax(t: Branch, u: Branch, maximize: bool)
    requires
        minimax_updated(t, u, maximize),
    ensures
        minimax_spec(u, maximize) == minimax_spec(t, maximize),
    decreases t, 1int, 0int,
{
    if !t.is_terminal {
        lemma_minimax_updated_fold(t.children@, u.children@, 0, maximize);
        if maximize {
            assert(minimax_children(u.children@, 0, Eval::NegInfinity, true) == minimax_children(
                t.children@,
                0,
                Eval::NegInfinity,
                true,
            ));
        } else {
            assert(minimax_children(u.children@, 0, Eval::Infinity, false) == minimax_children(
                t.children@,
                0,
                Eval::Infinity,
                false,
            ));
        }
    }
}

proof fn lemma_minimax_updated_fold(cs: Seq<Branch>, us: Seq<Branch>, i: int, maximize: bool)
    requires
        cs.len() == us.len(),
        forall|j: int| 0 <= j < cs.len() ==> minimax_updated(#[trigger] cs[j], us[j], !maximize),
    ensures
        forall|acc: Eval|
            minimax_children(us, i, acc, maximize) == #[trigger] minimax_children(
                cs,
                i,
                acc,
                maximize,
            ),
    decreases cs, 0int, cs.len() - i,
{
    if 0 <= i < cs.len() {
        lemma_minimax_updated_preserves_minimax(cs[i], us[i], !maximize);
        lemma_minimax_updated_fold(cs, us, i + 1, maximize);
        assert forall|acc: Eval|
            minimax_children(us, i, acc, maximize) == #[trigger] minimax_children(
                cs,
                i,
                acc,
                maximize,
            ) by {
            let v = minimax_spec(cs[i], !maximize);
            let acc2 = if maximize {
                crate::eval::spec_max(acc, v)
            } else {
                crate::eval::spec_min(acc, v)
            };
            assert(minimax_children(cs, i, acc, maximize) == minimax_children(
                cs,
                i + 1,
                acc2,
                maximize,
            ));
            assert(minimax_children(us, i, acc, maximize) == minimax_children(
                us,
                i + 1,
                acc2,
                maximize,
            ));
        }
    } else {
        assert forall|acc: Eval|
            minimax_children(us, i, acc, maximize) == #[trigger] minimax_children(
                cs,
                i,
                acc,
                maximize,
            ) by {
            assert(minimax_children(cs, i, acc, maximize) == acc);
            assert(minimax_children(us, i, acc, maximize) == acc);
        }
    }
}

/// Propagation preserves the tree's positions, shape and phases: in
/// particular it keeps a tree free of opening tags.
pub proof fn lemma_minimax_updated_shape(t: Branch, u: Branch, maximize: bool)
    requires
        minimax_updated(t, u, maximize),
    ensures
        same_shape(t, u),
        no_opening_phase(t) ==> no_opening_phase(u),
    decreases t,
{
    if t.is_terminal {
        lemma_same_shape_refl(t);
    } else {
        assert forall|i: int| 0 <= i < t.children@.len() implies same_shape(
            #[trigger] t.children@[i],
            u.children@[i],
        ) by {
            lemma_minimax_updated_shape(t.children@[i], u.children@[i], !maximize);
        }
        if no_opening_phase(t) {
            assert forall|i: int| 0 <= i < u.children@.len() implies no_opening_phase(
                #[trigger] u.children@[i],
            ) by {
                lemma_minimax_updated_shape(t.children@[i], u.children@[i], !maximize);
            }
        }
    }
}

/// Sameness of positions and shape is transitive.
pub proof fn lemma_same_shape_trans(a: Branch, b: Branch, c: Branch)
    requires
        same_shape(a, b),
        same_shape(b, c),
    ensures
        same_shape(a, c),
    decreases a,
{
    assert forall|i: int| 0 <= i < a.children@.len() implies same_shape(
        #[trigger] a.children@[i],
        c.children@[i],
    ) by {
        lemma_same_shape_trans(a.children@[i], b.children@[i], c.children@[i]);
    }
}

/// Splicing a subtree whose terminal nodes are scored into a tree whose
/// terminal nodes are scored leaves every terminal node scored: merging a
/// finished job never breaks the propagation pass's precondition.
pub proof fn lemma_splice_preserves_scored(t: Branch, u: Branch, input: Branch, loc: Seq<usize>)
    requires
        is_spliced(t, u, input, loc),
        terminals_scored(t),
        terminals_scored(input),
    ensures
        terminals_scored(u),
    decreases loc.len(),
{
    if loc.len() > 0 {
        lemma_splice_preserves_scored(
            t.children@[loc[0] as int],
            u.children@[loc[0] as int],
            input,
            loc.skip(1),
        );
    }
}

/// Populating a node from the same successor list always yields a
/// structurally identical child sequence: same count, same positions,
/// no scores. Re-populating without an intervening position change is
/// therefore idempotent.
pub proof fn lemma_populate_idempotent(
    b1: Branch,
    b2: Branch,
    phase: Option<GamePhase>,
    succs: Seq<Position>,
)
    requires
        populated_from(b1, phase, succs),
        populated_from(b2, phase, succs),
    ensures
        b1.children@.len() == b2.children@.len(),
        forall|i: int|
            0 <= i < b1.children@.len() ==> #[trigger] b1.children@[i].position
                == b2.children@[i].position,
{
}

} // verus!
