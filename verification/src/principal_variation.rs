//! The principal variation: the line of best moves the transposition table
//! holds for the position.

use vstd::prelude::*;
use crate::structs::{BoardStructure, MoveListStructure};
use crate::rules::{
    Position, gen_move, move_ok, make_spec, unmake_spec, legal, play, legal_line, eq_low, with_history, pos_valid, packed,
    lemma_eq_low_facts, lemma_eq_low_trans, lemma_unmake_eq_low, lemma_unmake_make, lemma_gen_move_ok, lemma_line_valid,
};
use crate::legal_move_gen::{pseudo_legal_move_gen, appended_ok, complete, owed, owed_count, owed_set, holds_from};
use crate::perft::pos_owed_set;
use crate::do_undo_moves::{make_move, unmake_move};
use crate::trans_table::tt_slot;

verus! {

/// The move stored for the board's position, 0 if its slot holds another
/// position.
pub fn probe_table(board: &BoardStructure) -> (r: usize)
    requires
        board.trans_table.wf(),
    ensures
        r == (if board.trans_table.entries@[tt_slot(board)].pos_key == board.pos_key {
            board.trans_table.entries@[tt_slot(board)].action
        } else {
            0
        }),
{
    let index: usize = (board.pos_key as usize) % board.trans_table.num_entries;
    if board.trans_table.entries[index].pos_key == board.pos_key {
        board.trans_table.entries[index].action
    } else {
        0
    }
}

/// The board holds `p` but for scratch history; it is consistent and its
/// search tables and keys are those of `o`.
pub open spec fn same_spot(b: &BoardStructure, o: &BoardStructure, p: Position) -> bool {
    &&& b.valid()
    &&& eq_low(b.position(), p)
    &&& b.eq_search(o)
}

/// Make the pseudo legal move `a` and take it back: whether it is legal.
/// The board is given back holding the same position.
#[verifier::spinoff_prover]
#[verifier::rlimit(30)]
pub fn try_move(a: usize, board: &mut BoardStructure) -> (r: bool)
    requires
        old(board).valid(),
        gen_move(old(board).position(), a),
        old(board).ply_depth < 1024,
        old(board).fifty_cnt < usize::MAX,
        old(board).ply < usize::MAX,
    ensures
        same_spot(final(board), old(board), old(board).position()),
        r == legal(old(board).position(), a, old(board).keys),
{
    let ghost cur = board.position();
    let ghost k = board.keys;
    proof {
        lemma_gen_move_ok(cur, a, k);
    }
    if make_move(a, board) {
        proof {
            assert(eq_low(board.position(), make_spec(cur, a, k)));
            lemma_unmake_eq_low(board.position(), cur, a, k);
        }
        unmake_move(board);
        proof {
            lemma_unmake_make(cur, a, k);
            assert(eq_low(board.position(), cur));
        }
        true
    } else {
        proof {
            assert(eq_low(board.position(), cur));
        }
        false
    }
}

/// Whether `action` is one of the legal moves of the position (a packed
/// pseudo legal move that does not leave the mover's king attacked), where
/// the position has fewer than 255 pseudo legal moves; beyond that, a move
/// the generator could not list is not found. The board is given back
/// holding the same position.
pub fn move_exists(action: usize, board: &mut BoardStructure) -> (r: bool)
    requires
        old(board).valid(),
        old(board).ply < 64,
        old(board).ply_depth < 1024,
        old(board).fifty_cnt < usize::MAX,
    ensures
        same_spot(final(board), old(board), old(board).position()),
        r ==> packed(action) && legal(old(board).position(), action, old(board).keys),
        owed_count(old(board), false) < 255 ==> (r == (packed(action) && legal(old(board).position(), action,
            old(board).keys))),
{
    let ghost ob = *board;
    let ghost p0 = board.position();
    let ghost k = board.keys;
    let mut move_list: MoveListStructure = MoveListStructure::new();
    let ghost l0 = move_list;
    pseudo_legal_move_gen(board, &mut move_list);
    let mut move_num: usize = 0;
    while move_num < move_list.length
        invariant
            move_list.length <= 255,
            move_num <= move_list.length,
            l0.length == 0,
            appended_ok(&ob, l0, move_list, false),
            ob == *old(board),
            p0 == ob.position(),
            k == ob.keys,
            same_spot(board, &ob, p0),
            p0.ply_depth < 1024,
            p0.fifty_cnt < usize::MAX,
            p0.ply < 64,
            complete(&ob, l0, move_list, false),
            owed_count(&ob, false) < 255 ==> move_list.length < 255,
            forall|q: int| 0 <= q < move_num ==> !(#[trigger] move_list.moves[q].action == action && legal(p0, action, k)),
        decreases move_list.length - move_num,
    {
        let a: usize = move_list.moves[move_num].action;
        let ghost cur = board.position();
        let ghost b1 = *board;
        proof {
            assert(gen_move(p0, a));
            lemma_eq_low_facts(cur, p0, a, k);
        }
        let ok: bool = try_move(a, board);
        proof {
            lemma_eq_low_trans(board.position(), cur, p0);
            lemma_eq_low_facts(cur, p0, a, k);
        }
        if ok && a == action {
            proof {
                assert(packed(move_list.moves[move_num as int].action));
            }
            return true;
        }
        move_num = move_num + 1;
    }
    proof {
        if owed_count(&ob, false) < 255 && packed(action) && legal(p0, action, k) {
            assert(owed(&ob, action, false));
            assert(holds_from(move_list, 0, action));
            let q = choose|q: int| 0 <= q < move_list.length && #[trigger] move_list.moves[q].action == action;
            assert(!(move_list.moves[q].action == action && legal(p0, action, k)));
        }
    }
    false
}

/// The move that the board's transposition table holds for the position
/// `p`, 0 if its slot holds another position.
pub open spec fn table_move_at(b: &BoardStructure, p: Position) -> usize {
    let e = b.trans_table.entries@[(p.pos_key as usize) as int % (b.trans_table.num_entries as int)];
    if e.pos_key == p.pos_key {
        e.action
    } else {
        0
    }
}

/// Follow the moves the transposition table holds from the position, as
/// long as each is legal, at most `depth` (and 64) of them, writing them to
/// the front of the principal variation; then take them all back. The
/// number of moves found.
#[verifier::rlimit(100)]
#[verifier::spinoff_prover]
pub fn get_pv_line(board: &mut BoardStructure, depth: usize) -> (r: usize)
    requires
        old(board).valid(),
        old(board).ply == 0,
        old(board).ply_depth + 64 < 1024,
        old(board).fifty_cnt <= old(board).ply_depth,
        old(board).trans_table.wf(),
    ensures
        r <= depth,
        r <= 64,
        final(board).valid(),
        eq_low(final(board).position(), old(board).position()),
        legal_line(old(board).position(), final(board).pv_line@.subrange(0, r as int), old(board).keys),
        forall|i: int| r <= i < 64 ==> final(board).pv_line[i] == old(board).pv_line[i],
        final(board).search_history == old(board).search_history,
        final(board).search_killers == old(board).search_killers,
        final(board).trans_table == old(board).trans_table,
        final(board).keys == old(board).keys,
        forall|i: int| 0 <= i < r ==> #[trigger] final(board).pv_line[i] == table_move_at(old(board), play(
            old(board).position(), final(board).pv_line@.subrange(0, i), old(board).keys)),
        ({
            let q = play(old(board).position(), final(board).pv_line@.subrange(0, r as int), old(board).keys);
            let t = table_move_at(old(board), q);
            r < depth && r < 64 && pos_owed_set(q).len() < 255 ==> t == 0 || !(packed(t) && legal(q, t, old(board).keys))
        }),
{
    let ghost ob = *board;
    let ghost p0 = board.position();
    let ghost k = board.keys;
    let mut action: usize = probe_table(board);
    let mut count: usize = 0;
    while action != 0 && count < depth && count < 64
        invariant
            ob == *old(board),
            p0 == ob.position(),
            k == ob.keys,
            p0.ply == 0,
            p0.ply_depth + 64 < 1024,
            p0.fifty_cnt <= p0.ply_depth,
            pos_valid(p0, k),
            count <= depth,
            count <= 64,
            board.valid(),
            board.keys == k,
            board.trans_table == ob.trans_table,
            board.trans_table.wf(),
            board.search_history == ob.search_history,
            board.search_killers == ob.search_killers,
            forall|i: int| count <= i < 64 ==> board.pv_line[i] == ob.pv_line[i],
            legal_line(p0, board.pv_line@.subrange(0, count as int), k),
            eq_low(board.position(), play(p0, board.pv_line@.subrange(0, count as int), k)),
            forall|i: int| 0 <= i < count ==> #[trigger] board.pv_line[i] == table_move_at(&ob, play(p0,
                board.pv_line@.subrange(0, i), k)),
            action == table_move_at(&ob, play(p0, board.pv_line@.subrange(0, count as int), k)),
        ensures
            action == 0 || count >= depth || count >= 64 || ({
                let q = play(p0, board.pv_line@.subrange(0, count as int), k);
                pos_owed_set(q).len() < 255 ==> !(packed(action) && legal(q, action, k))
            }),
        decreases 64 - count,
    {
        let ghost line = board.pv_line@.subrange(0, count as int);
        proof {
            lemma_line_valid(p0, line, k);
        }
        let ghost cur = board.position();
        let ghost bcur = *board;
        if move_exists(action, board) {
            let ghost b2 = board.position();
            proof {
                lemma_eq_low_facts(b2, cur, action, k);
                lemma_gen_move_ok(b2, action, k);
            }
            let ok: bool = make_move(action, board);
            proof {
                lemma_eq_low_trans(b2, cur, play(p0, line, k));
                lemma_eq_low_facts(b2, play(p0, line, k), action, k);
                lemma_eq_low_facts(cur, play(p0, line, k), action, k);
            }
            let ghost before = *board;
            board.pv_line[count] = action;
            proof {
                crate::model::lemma_pieces_wf_frame(before, *board);
                assert(board.position() == before.position());
                let nl = board.pv_line@.subrange(0, count + 1);
                assert forall|i: int| 0 <= i <= count implies #[trigger] board.pv_line@.subrange(0, i)
                    =~= before.pv_line@.subrange(0, i) by {}
                assert(nl.drop_last() =~= line);
                assert(nl.last() == action);
                assert(legal(play(p0, line, k), action, k));
                assert(play(p0, nl, k) == make_spec(play(p0, line, k), action, k));
                lemma_eq_low_trans(board.position(), make_spec(b2, action, k), make_spec(play(p0, line, k), action, k));
            }
            count = count + 1;
        } else {
            proof {
                let q = play(p0, line, k);
                assert(owed_set(&bcur, false) =~= pos_owed_set(q)) by {
                    assert forall|x: int| 0 <= x < 0x2000000 implies #[trigger] gen_move(cur, x as usize) == gen_move(
                        q, x as usize) by {
                        lemma_eq_low_facts(cur, q, x as usize, k);
                    }
                }
                lemma_eq_low_facts(cur, q, action, k);
            }
            break;
        }
        action = probe_table(board);
    }
    let ghost full = board.pv_line@.subrange(0, count as int);
    let ghost pv = board.pv_line;
    proof {
        lemma_line_valid(p0, full, k);
        assert(board.ply == count);
        assert(full.subrange(0, count as int) =~= full);
    }
    while board.ply > 0
        invariant
            ob == *old(board),
            p0 == ob.position(),
            k == ob.keys,
            p0.ply == 0,
            p0.ply_depth + 64 < 1024,
            p0.fifty_cnt <= p0.ply_depth,
            pos_valid(p0, k),
            count <= 64,
            full == pv@.subrange(0, count as int),
            legal_line(p0, full, k),
            board.pv_line == pv,
            board.valid(),
            board.keys == k,
            board.trans_table == ob.trans_table,
            board.search_history == ob.search_history,
            board.search_killers == ob.search_killers,
            board.ply <= count,
            legal_line(p0, full.subrange(0, board.ply as int), k),
            eq_low(board.position(), play(p0, full.subrange(0, board.ply as int), k)),
        decreases board.ply,
    {
        let ghost m = board.ply as int;
        let ghost pre = full.subrange(0, m - 1);
        let ghost cur_line = full.subrange(0, m);
        proof {
            assert(cur_line.drop_last() =~= pre);
            lemma_line_valid(p0, pre, k);
            lemma_line_valid(p0, cur_line, k);
            let q = play(p0, pre, k);
            lemma_gen_move_ok(q, cur_line.last(), k);
            lemma_unmake_eq_low(board.position(), q, cur_line.last(), k);
        }
        unmake_move(board);
        proof {
            let q = play(p0, pre, k);
            assert(board.position().ply == m - 1);
        }
    }
    proof {
        assert(full.subrange(0, 0) =~= Seq::<usize>::empty());
    }
    count
}

} // verus!
