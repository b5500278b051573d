//! Performance test: counting the leaf nodes of the tree of legal moves.

use vstd::prelude::*;
use crate::structs::{BoardStructure, MoveListStructure};
use crate::structs::ZobristKeys;
use crate::rules::{gen_move, eq_low, lemma_eq_low_facts, lemma_eq_low_trans, lemma_unmake_eq_low, lemma_unmake_make,
    lemma_gen_move_ok, Position, packed, legal, make_spec};
use crate::legal_move_gen::{pseudo_legal_move_gen, appended_ok, owed, owed_set, owed_count, complete, holds_from,
    distinct_from};
use crate::do_undo_moves::{make_move, unmake_move};
use crate::model::{range_sum, seq_sum, lemma_range_sum_ext, lemma_seq_sum_range, lemma_seq_sum_nonneg};
use crate::search::{kept, list_moves_ok};

verus! {

/// `a` is a legal move of `p` in packed form (packed moves lie below
/// 2^25).
pub open spec fn legal_move_no(p: Position, a: int, k: ZobristKeys) -> bool {
    &&& 0 <= a < 0x2000000
    &&& packed(a as usize)
    &&& legal(p, a as usize, k)
}

/// The number of lines of `depth` legal moves from `p`: 1 at depth 0,
/// else the sum over the legal moves of the count after each.
pub open spec fn perft_count(p: Position, k: ZobristKeys, depth: nat) -> nat
    decreases depth, 0x2000001int,
{
    if depth == 0 {
        1
    } else {
        perft_sum(p, k, depth, 0x2000000)
    }
}

/// The sum of the counts after the legal moves below `n`.
pub open spec fn perft_sum(p: Position, k: ZobristKeys, depth: nat, n: int) -> nat
    decreases depth, n,
{
    if depth == 0 || n <= 0 {
        0
    } else {
        perft_sum(p, k, depth, n - 1) + (if legal_move_no(p, n - 1, k) {
            perft_count(make_spec(p, (n - 1) as usize, k), k, (depth - 1) as nat)
        } else {
            0
        })
    }
}

/// The packed pseudo legal moves of `p`, as numbers.
pub open spec fn pos_owed_set(p: Position) -> Set<int> {
    Set::new(|x: int| 0 <= x < 0x2000000 && packed(x as usize) && gen_move(p, x as usize))
}

/// Every position within `depth` legal moves of `p`, but the last ones,
/// has fewer than 255 pseudo legal moves, so that the move generator lists
/// them all.
pub open spec fn perft_fits(p: Position, k: ZobristKeys, depth: nat) -> bool
    decreases depth,
{
    depth == 0 || (pos_owed_set(p).len() < 255 && forall|a: int| #[trigger] legal_move_no(p, a, k) ==> perft_fits(
        make_spec(p, a as usize, k),
        k,
        (depth - 1) as nat,
    ))
}

/// `x`, but at most `usize::MAX`.
pub open spec fn capped(x: int) -> int {
    if x <= usize::MAX {
        x
    } else {
        usize::MAX as int
    }
}

/// The count sums, over `0..n`, the counts after the legal moves.
proof fn lemma_perft_sum_range(p: Position, k: ZobristKeys, depth: nat, n: int, f: spec_fn(int) -> int)
    requires
        depth > 0,
        forall|a: int| 0 <= a < n ==> #[trigger] f(a) == (if legal_move_no(p, a, k) {
            perft_count(make_spec(p, a as usize, k), k, (depth - 1) as nat) as int
        } else {
            0
        }),
    ensures
        perft_sum(p, k, depth, n) == range_sum(f, n),
    decreases n,
{
    if n > 0 {
        lemma_perft_sum_range(p, k, depth, n - 1, f);
    }
}

/// Positions that differ only in scratch history have the same counts,
/// and fit alike.
proof fn lemma_perft_eq_low(q: Position, p: Position, k: ZobristKeys, depth: nat)
    requires
        eq_low(q, p),
        p.history.len() == 1024,
        p.ply_depth + depth < 1024,
    ensures
        perft_count(q, k, depth) == perft_count(p, k, depth),
        perft_fits(q, k, depth) == perft_fits(p, k, depth),
    decreases depth, 0x2000001int,
{
    if depth > 0 {
        lemma_perft_sum_eq_low(q, p, k, depth, 0x2000000);
        assert forall|a: int| #[trigger] legal_move_no(q, a, k) == legal_move_no(p, a, k) by {
            lemma_legal_eq_low(q, p, a, k);
        }
        assert(pos_owed_set(q) =~= pos_owed_set(p)) by {
            assert forall|x: int| 0 <= x < 0x2000000 implies #[trigger] gen_move(q, x as usize) == gen_move(p, x as usize) by {
                lemma_eq_low_facts(q, p, x as usize, k);
            }
        }
        assert forall|a: int| #[trigger] legal_move_no(p, a, k) implies perft_fits(make_spec(q, a as usize, k), k, (depth
            - 1) as nat) == perft_fits(make_spec(p, a as usize, k), k, (depth - 1) as nat) by {
            lemma_eq_low_facts(q, p, a as usize, k);
            lemma_perft_eq_low(make_spec(q, a as usize, k), make_spec(p, a as usize, k), k, (depth - 1) as nat);
        }
        let d1 = (depth - 1) as nat;
        if forall|a: int| #[trigger] legal_move_no(p, a, k) ==> perft_fits(make_spec(p, a as usize, k), k, d1) {
            assert forall|a: int| #[trigger] legal_move_no(q, a, k) implies perft_fits(make_spec(q, a as usize, k), k, d1) by {
                assert(legal_move_no(p, a, k));
            }
        }
        if forall|a: int| #[trigger] legal_move_no(q, a, k) ==> perft_fits(make_spec(q, a as usize, k), k, d1) {
            assert forall|a: int| #[trigger] legal_move_no(p, a, k) implies perft_fits(make_spec(p, a as usize, k), k, d1) by {
                assert(legal_move_no(q, a, k));
            }
        }
    }
}

/// The partial sums agree too.
proof fn lemma_perft_sum_eq_low(q: Position, p: Position, k: ZobristKeys, depth: nat, n: int)
    requires
        eq_low(q, p),
        p.history.len() == 1024,
        p.ply_depth + depth < 1024,
        depth > 0,
    ensures
        perft_sum(q, k, depth, n) == perft_sum(p, k, depth, n),
    decreases depth, n,
{
    if n > 0 {
        lemma_perft_sum_eq_low(q, p, k, depth, n - 1);
        lemma_legal_eq_low(q, p, n - 1, k);
        lemma_eq_low_facts(q, p, (n - 1) as usize, k);
        lemma_perft_eq_low(make_spec(q, (n - 1) as usize, k), make_spec(p, (n - 1) as usize, k), k, (depth - 1) as nat);
    }
}

/// A move is legal alike in positions that differ only in scratch history.
proof fn lemma_legal_eq_low(q: Position, p: Position, a: int, k: ZobristKeys)
    requires
        eq_low(q, p),
        p.history.len() == 1024,
        p.ply_depth + 1 < 1024,
    ensures
        legal_move_no(q, a, k) == legal_move_no(p, a, k),
{
    lemma_eq_low_facts(q, p, a as usize, k);
    let mq = make_spec(q, a as usize, k);
    let mp = make_spec(p, a as usize, k);
    crate::rules::lemma_play_depth(p, Seq::<usize>::empty(), k);
    assert(mp.history.len() == p.history.len());
    lemma_eq_low_facts(mq, mp, a as usize, k);
}

/// Count the positions reached by `depth` legal moves from the board's
/// position (1 at depth 0), making and taking back every move: the number
/// of lines of `depth` legal moves (at most `usize::MAX`), wherever the
/// move generator lists every move on the way. The board is given back
/// holding the same position.
#[verifier::rlimit(40)]
pub fn small_perft(perft_board: &mut BoardStructure, depth: usize) -> (r: usize)
    requires
        kept(old(perft_board), old(perft_board).position()),
        old(perft_board).ply + depth <= 64,
        old(perft_board).ply_depth + depth < 1024,
    ensures
        kept(final(perft_board), old(perft_board).position()),
        final(perft_board).eq_search(old(perft_board)),
        depth == 0 ==> r == 1,
        perft_fits(old(perft_board).position(), old(perft_board).keys, depth as nat) ==> r == capped(perft_count(
            old(perft_board).position(),
            old(perft_board).keys,
            depth as nat,
        ) as int),
    decreases depth,
{
    if depth == 0 {
        return 1;
    }
    let ghost ob = *perft_board;
    let ghost p0 = perft_board.position();
    let ghost k = perft_board.keys;
    let mut move_list: MoveListStructure = MoveListStructure::new();
    let ghost l0 = move_list;
    pseudo_legal_move_gen(perft_board, &mut move_list);
    let ghost q: Seq<int> = crate::legal_move_gen::actions_from(move_list, 0);
    let ghost d1: nat = (depth - 1) as nat;
    let ghost g = |x: int| if legal(p0, x as usize, k) {
        perft_count(make_spec(p0, x as usize, k), k, d1) as int
    } else {
        0
    };
    proof {
        assert forall|i: int| 0 <= i < move_list.length implies gen_move(p0, #[trigger] move_list.moves[i].action) && (false
            ==> crate::rules::is_capture(move_list.moves[i].action)) by {
            assert(l0.length <= i < move_list.length);
        }
        assert(owed_set(&ob, false) =~= pos_owed_set(p0));
        assert(q.take(0) =~= Seq::<int>::empty());
    }
    let mut leaf_nodes: usize = 0;
    let mut move_num: usize = 0;
    while move_num < move_list.length
        invariant
            ob == *old(perft_board),
            p0 == ob.position(),
            k == ob.keys,
            kept(perft_board, p0),
            perft_board.eq_search(&ob),
            list_moves_ok(p0, move_list, false),
            move_num <= move_list.length,
            p0.ply + depth <= 64,
            p0.ply_depth + depth < 1024,
            depth >= 1,
            d1 == depth - 1,
            l0.length == 0,
            appended_ok(&ob, l0, move_list, false),
            q == crate::legal_move_gen::actions_from(move_list, 0),
            g == (|x: int| if legal(p0, x as usize, k) {
                perft_count(make_spec(p0, x as usize, k), k, d1) as int
            } else {
                0
            }),
            perft_fits(p0, k, depth as nat) ==> leaf_nodes == capped(seq_sum(g, q.take(move_num as int))),
        decreases move_list.length - move_num,
    {
        let a: usize = move_list.moves[move_num].action;
        let ghost cur = perft_board.position();
        let ghost old_leaf = leaf_nodes;
        proof {
            assert(gen_move(p0, a));
            assert(packed(a));
            lemma_eq_low_facts(cur, p0, a, k);
            lemma_gen_move_ok(cur, a, k);
            lemma_legal_eq_low(cur, p0, a as int, k);
            assert(q[move_num as int] == a as int);
            assert(q.take(move_num as int + 1).drop_last() =~= q.take(move_num as int));
            assert(forall|x: int| #[trigger] g(x) >= 0);
            lemma_seq_sum_nonneg(g, q.take(move_num as int));
        }
        if make_move(a, perft_board) {
            let ghost child = perft_board.position();
            proof {
                crate::rules::lemma_play_depth(p0, Seq::<usize>::empty(), k);
                lemma_perft_eq_low(child, make_spec(p0, a, k), k, d1);
                if perft_fits(p0, k, depth as nat) {
                    assert(legal_move_no(p0, a as int, k));
                }
            }
            let n: usize = small_perft(perft_board, depth - 1);
            leaf_nodes = leaf_nodes.saturating_add(n);
            proof {
                lemma_unmake_eq_low(perft_board.position(), cur, a, k);
            }
            unmake_move(perft_board);
            proof {
                lemma_unmake_make(cur, a, k);
                assert(eq_low(perft_board.position(), cur));
                lemma_eq_low_trans(perft_board.position(), cur, p0);
            }
        } else {
            proof {
                assert(eq_low(perft_board.position(), cur));
                lemma_eq_low_trans(perft_board.position(), cur, p0);
                assert(g(a as int) == 0);
            }
        }
        move_num = move_num + 1;
    }
    proof {
        if perft_fits(p0, k, depth as nat) {
            assert(q.take(move_list.length as int) =~= q);
            let n: int = 0x2000000;
            let f = |x: int| if q.contains(x) { g(x) } else { 0 };
            let term = |x: int| if legal_move_no(p0, x, k) {
                perft_count(make_spec(p0, x as usize, k), k, d1) as int
            } else {
                0
            };
            assert(move_list.length < 255);
            assert(q.no_duplicates()) by {
                assert forall|i: int, j: int| 0 <= i < q.len() && 0 <= j < q.len() && i != j implies q[i] != q[j] by {
                    if i < j {
                        assert(move_list.moves[i].action != move_list.moves[j].action);
                    } else {
                        assert(move_list.moves[j].action != move_list.moves[i].action);
                    }
                }
            }
            assert forall|i: int| 0 <= i < q.len() implies 0 <= #[trigger] q[i] < n by {
                assert(packed(move_list.moves[i].action));
            }
            lemma_seq_sum_range(g, f, q, n);
            assert forall|x: int| 0 <= x < n implies #[trigger] f(x) == term(x) by {
                if q.contains(x) {
                    let i = choose|i: int| 0 <= i < q.len() && q[i] == x;
                    assert(packed(move_list.moves[i].action));
                } else if legal_move_no(p0, x, k) {
                    assert(owed(&ob, x as usize, false));
                    assert(holds_from(move_list, 0, x as usize));
                    let i = choose|i: int| 0 <= i < move_list.length && #[trigger] move_list.moves[i].action == x as usize;
                    assert(q[i] == x);
                }
            }
            lemma_range_sum_ext(f, term, n);
            lemma_perft_sum_range(p0, k, depth as nat, n, term);
        }
    }
    leaf_nodes
}

} // verus!
