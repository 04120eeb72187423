//! The opening-book gateway's decision core. The book itself is persisted
//! move-frequency statistics behind an external storage engine; rows enter
//! here as plain values, and this module picks the reply to play: among
//! the recorded replies observed more often than the minimum support
//! threshold, the one with the highest frequency (later rows win ties).

use vstd::prelude::*;

use crate::phase::GamePhase;

verus! {

/// One recorded reply in the opening book: a move in notation together
/// with its recorded evaluation (in thousandths of a pawn), how often it
/// was observed, and whether the book line ends with it.
#[derive(Clone, Debug)]
pub struct BookMove {
    pub id: i64,
    pub parent_move: i64,
    pub san: String,
    pub eval_milli: i64,
    pub freq: i64,
    pub terminal: bool,
}

/// The minimum number of recorded observations a reply needs before the
/// book may choose it.
pub const BOOK_MIN_FREQUENCY: i64 = 2;

/// `k` indexes the reply the book chooses from `rs` under the support
/// threshold `min_frequency`: a qualifying reply of maximal frequency,
/// the last such on ties.
pub open spec fn is_chosen_reply(rs: Seq<BookMove>, k: int, min_frequency: i64) -> bool {
    &&& 0 <= k < rs.len()
    &&& rs[k].freq > min_frequency
    &&& forall|j: int| 0 <= j < rs.len() && #[trigger] rs[j].freq > min_frequency ==> rs[j].freq <= rs[k].freq
    &&& forall|j: int| k < j < rs.len() ==> #[trigger] rs[j].freq < rs[k].freq || rs[j].freq <= min_frequency
}

/// The phase a line is in after the book plays a reply: a reply that
/// ends the recorded line leaves the opening (the phase is re-derived
/// from the material at the next evaluation), and any other reply keeps
/// the line in the opening at the reply's own book position.
pub fn phase_after_reply(reply_id: i64, terminal: bool) -> (r: Option<GamePhase>)
    ensures
        r == if terminal {
            None::<GamePhase>
        } else {
            Some(GamePhase::Opening(reply_id))
        },
{
    if terminal {
        None
    } else {
        Some(GamePhase::Opening(reply_id))
    }
}

/// Picks the reply to play from the recorded replies to one book
/// position: the most frequent reply among those observed more than
/// `min_frequency` times, the last one on equal frequencies. Returns
/// nothing when no reply qualifies, signalling the caller to fall back
/// to search.
pub fn select_book_move(replies: &Vec<BookMove>, min_frequency: i64) -> (r: Option<usize>)
    ensures
        r is None ==> forall|j: int|
            0 <= j < replies@.len() ==> #[trigger] replies@[j].freq <= min_frequency,
        r matches Some(k) ==> is_chosen_reply(replies@, k as int, min_frequency),
{
    let mut best: Option<usize> = None;
    let mut i: usize = 0;
    while i < replies.len()
        invariant
            i <= replies@.len(),
            best is None ==> forall|j: int|
                0 <= j < i ==> #[trigger] replies@[j].freq <= min_frequency,
            best matches Some(k) ==> (k as int) < (i as int) && replies@[k as int].freq
                > min_frequency && (forall|j: int|
                0 <= j < i && #[trigger] replies@[j].freq > min_frequency ==> replies@[j].freq
                    <= replies@[k as int].freq) && (forall|j: int|
                k < j < i ==> #[trigger] replies@[j].freq < replies@[k as int].freq || replies@[j].freq
                    <= min_frequency),
        decreases replies@.len() - i,
    {
        if replies[i].freq > min_frequency {
            match best {
                None => {
                    best = Some(i);
                },
                Some(k) => {
                    if replies[i].freq >= replies[k].freq {
                        best = Some(i);
                    }
                },
            }
        }
        i = i + 1;
    }
    best
}

} // verus!
