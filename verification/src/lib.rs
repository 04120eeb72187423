//! Decision core of a chess-playing agent: a game tree with stable
//! location addressing, depth-limited alpha-beta search over a mate-aware
//! total order of evaluations, score propagation, and the job-dispatch
//! decisions that let a worker pool expand disjoint subtrees concurrently.
//!
//! Board representation, legal-move generation and terminal-state
//! classification are external collaborators: positions enter the library
//! as plain values (side to move, piece tallies, mobility, terminal
//! classification) and the surrounding application expands trees from its
//! move generator before handing them to the search.

pub mod book;
pub mod engine;
pub mod eval;
pub mod phase;
pub mod heuristics;
pub mod laws;
pub mod position;
pub mod tree;
