//! Storing and probing searched positions in the transposition table.

use vstd::prelude::*;
use crate::statics::IS_MATE;
use crate::structs::{BoardStructure, TransTableEntry, TransFlag};

verus! {

/// Slot of the board's position in its transposition table.
pub open spec fn tt_slot(b: &BoardStructure) -> int {
    (b.pos_key as usize) as int % (b.trans_table.num_entries as int)
}

/// Mate scores are stored as distances from the stored position: a mate
/// score found `ply` half moves into the search is moved out by `ply`.
pub open spec fn mate_in(score: i32, ply: int) -> int {
    if score > IS_MATE {
        score + ply
    } else if score < -IS_MATE {
        score - ply
    } else {
        score as int
    }
}

/// A stored mate score read back `ply` half moves into the search.
pub open spec fn mate_out(score: i32, ply: int) -> int {
    if score > IS_MATE {
        score - ply
    } else if score < -IS_MATE {
        score + ply
    } else {
        score as int
    }
}

/// The entry that storing a search result of the board's position writes.
pub open spec fn stored_entry(b: &BoardStructure, action: usize, score: i32, depth: usize, flag: TransFlag) -> TransTableEntry {
    TransTableEntry {
        pos_key: b.pos_key,
        action: action,
        score: mate_in(score, b.ply as int) as i32,
        depth: depth,
        flag: flag,
    }
}

/// Every entry without a flag has depth 0 (as the empty entries have).
pub open spec fn flags_ok(entries: Seq<TransTableEntry>) -> bool {
    forall|i: int| 0 <= i < entries.len() && #[trigger] entries[i].flag == TransFlag::NoFlag ==> entries[i].depth == 0
}

/// Store the best move, score, depth and bound type of the board's
/// position in its slot, replacing what was there; mate scores are stored
/// relative to the position.
pub fn store_trans_move(board: &mut BoardStructure, action: usize, score: i32, depth: usize, flag: TransFlag)
    requires
        old(board).trans_table.wf(),
        old(board).ply <= i32::MAX,
        i32::MIN <= mate_in(score, old(board).ply as int) <= i32::MAX,
    ensures
        final(board).trans_table.wf(),
        final(board).trans_table.num_entries == old(board).trans_table.num_entries,
        final(board).trans_table.entries@ == old(board).trans_table.entries@.update(tt_slot(old(board)), stored_entry(
            old(board), action, score, depth, flag)),
        *final(board) == (BoardStructure { trans_table: final(board).trans_table, ..*old(board) }),
        flags_ok(old(board).trans_table.entries@) && (flag != TransFlag::NoFlag || depth == 0) ==> flags_ok(
            final(board).trans_table.entries@),
{
    let index: usize = (board.pos_key as usize) % board.trans_table.num_entries;
    let ply: i32 = board.ply as i32;
    let stored: i32 = if score > IS_MATE {
        score + ply
    } else if score < -IS_MATE {
        score - ply
    } else {
        score
    };
    let entry = TransTableEntry { pos_key: board.pos_key, action: action, score: stored, depth: depth, flag: flag };
    board.trans_table.entries.set(index, entry);
}

/// What probing finds for the board's position in `entry`, with the
/// bounds `alpha`, `beta` and the depth still to search: `None` if the
/// entry is of another position; else the stored move and, if the entry
/// was searched at least as deep, the score read back and whether it
/// settles the search: an upper bound at most `alpha` (answer `alpha`), a
/// lower bound at least `beta` (answer `beta`), or an exact score.
pub open spec fn probe_spec(b: &BoardStructure, entry: TransTableEntry, alpha: i32, beta: i32, depth: usize) -> Option<(
    usize,
    Option<(bool, int)>,
)> {
    if entry.pos_key != b.pos_key {
        None
    } else if entry.depth < depth {
        Some((entry.action, None))
    } else {
        let s = mate_out(entry.score, b.ply as int);
        Some(
            (
                entry.action,
                Some(
                    if entry.flag == TransFlag::Alpha {
                        if s <= alpha { (true, alpha as int) } else { (false, s) }
                    } else if entry.flag == TransFlag::Beta {
                        if s >= beta { (true, beta as int) } else { (false, s) }
                    } else {
                        (true, s)
                    },
                ),
            ),
        )
    }
}

/// Look the board's position up in its transposition table. On a hit the
/// stored move is handed out through `action`; if the entry was searched
/// at least `depth` deep its score (read back as a mate distance from
/// here) goes to `score`, and the answer says whether it settles the
/// search (see `probe_spec`).
pub fn probe_trans_table(board: &BoardStructure, action: &mut usize, score: &mut i32, alpha: i32, beta: i32,
    depth: usize) -> (r: bool)
    requires
        board.trans_table.wf(),
        board.ply <= i32::MAX,
        !(board.trans_table.entries@[tt_slot(board)].pos_key == board.pos_key && board.trans_table.entries@[tt_slot(
            board)].depth >= depth && board.trans_table.entries@[tt_slot(board)].flag == TransFlag::NoFlag),
    ensures
        ({
            let e = board.trans_table.entries@[tt_slot(board)];
            match probe_spec(board, e, alpha, beta, depth) {
                None => !r && *final(action) == *old(action) && *final(score) == *old(score),
                Some((a, None)) => !r && *final(action) == a && *final(score) == *old(score),
                Some((a, Some((hit, s)))) => r == hit && *final(action) == a && *final(score) == s,
            }
        }),
{
    let index: usize = (board.pos_key as usize) % board.trans_table.num_entries;
    let entry: TransTableEntry = board.trans_table.entries[index];
    if entry.pos_key == board.pos_key {
        *action = entry.action;
        if entry.depth >= depth {
            let ply: i32 = board.ply as i32;
            let mut s: i32 = entry.score;
            if s > IS_MATE {
                s = s - ply;
            } else if s < -IS_MATE {
                s = s + ply;
            }
            *score = s;
            match entry.flag {
                TransFlag::Alpha => {
                    if s <= alpha {
                        *score = alpha;
                        return true;
                    }
                },
                TransFlag::Beta => {
                    if s >= beta {
                        *score = beta;
                        return true;
                    }
                },
                TransFlag::Exact => {
                    return true;
                },
                TransFlag::NoFlag => {
                    return false;
                },
            }
        }
    }
    false
}

/// A mate distance stored from a ply reads back the same at that ply.
pub proof fn law_mate_score_roundtrip(score: i32, ply: int)
    requires
        ply >= 0,
        i32::MIN <= mate_in(score, ply) <= i32::MAX,
    ensures
        mate_out(mate_in(score, ply) as i32, ply) == score,
{
}

/// A probe reads back what was stored: once the result of a search of
/// the board's position is stored, probing that position in the same
/// search state finds the stored move, and, where the stored search was
/// at least as deep as asked, the stored score; an exact score settles the
/// search with that score, an upper bound at most `alpha` with `alpha`, a
/// lower bound at least `beta` with `beta`.
pub proof fn law_probe_after_store(b: BoardStructure, b2: BoardStructure, action: usize, score: i32, depth: usize,
    flag: TransFlag, alpha: i32, beta: i32, d: usize)
    requires
        b.trans_table.wf(),
        i32::MIN <= mate_in(score, b.ply as int) <= i32::MAX,
        b2.trans_table.num_entries == b.trans_table.num_entries,
        b2.trans_table.entries@ == b.trans_table.entries@.update(tt_slot(&b), stored_entry(&b, action, score, depth, flag)),
        b2.pos_key == b.pos_key,
        b2.ply == b.ply,
    ensures
        tt_slot(&b2) == tt_slot(&b),
        b2.trans_table.entries@[tt_slot(&b2)] == stored_entry(&b, action, score, depth, flag),
        probe_spec(&b2, b2.trans_table.entries@[tt_slot(&b2)], alpha, beta, d) is Some,
        depth < d ==> probe_spec(&b2, b2.trans_table.entries@[tt_slot(&b2)], alpha, beta, d) == Some(
            (action, None::<(bool, int)>),
        ),
        depth >= d && flag == TransFlag::Exact ==> probe_spec(&b2, b2.trans_table.entries@[tt_slot(&b2)], alpha, beta, d)
            == Some((action, Some((true, score as int)))),
        depth >= d && flag == TransFlag::Alpha && score <= alpha ==> probe_spec(&b2, b2.trans_table.entries@[tt_slot(&b2)],
            alpha, beta, d) == Some((action, Some((true, alpha as int)))),
        depth >= d && flag == TransFlag::Beta && score >= beta ==> probe_spec(&b2, b2.trans_table.entries@[tt_slot(&b2)],
            alpha, beta, d) == Some((action, Some((true, beta as int)))),
{
    law_mate_score_roundtrip(score, b.ply as int);
}

} // verus!
