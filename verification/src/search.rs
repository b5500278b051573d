//! Alpha-beta search with quiescence, transposition table, killer and
//! history move ordering, and iterative deepening.

use vstd::prelude::*;
use crate::structs::{BoardStructure, MoveListStructure, MoveStructure, SearchInfo, ConfigInfo, TransFlag};
use crate::statics::{Players, INF, MATE, CAP_FLAG};
use crate::legal_move_gen::{is_attacked, from_sq, to_sq};
use crate::trans_table::{store_trans_move, probe_trans_table, flags_ok, tt_slot, stored_entry, mate_in, probe_spec};
use crate::rules::{move_ok, side_idx, opp, attacked, legal, play, packed, spec_from_sq};
use crate::structs::ZobristKeys;
use crate::clock::unix_epoch;
use crate::rules::{
    Position, gen_move, is_capture, make_spec, eq_low, with_history, pos_valid, pieces_total, lemma_eq_low_facts,
    lemma_eq_low_trans, lemma_unmake_eq_low, lemma_unmake_make, lemma_gen_move_ok, lemma_make_total,
};
use crate::legal_move_gen::{pseudo_legal_move_gen, pseudo_legal_captures, appended_ok, distinct_from, holds_from, complete,
    owed, owed_count};
use crate::do_undo_moves::{make_move, unmake_move};
use crate::evaluation::{eval, eval_spec, eval_of};
use crate::search_value::{ab_fits, ab_result, ab_value, ab_exit, ab_best, ab_base, search_d, pos_in_check,
    has_legal_move, mate_value, q_value, q_fits, q_result, q_guard, pos_quiet_exit, legal_capture_no, range_best, seq_best,
    prefix_actions, clamp, pos_owed_captures, lemma_q_best_range, lemma_q_eq_low};
use crate::principal_variation::get_pv_line;

verus! {

/// Milliseconds since the Unix epoch by the system clock (0 if the clock
/// stands before the epoch).
pub fn get_time() -> u128 {
    let now = std::time::SystemTime::now();
    match now.duration_since(unix_epoch()) {
        Ok(d) => d.as_millis(),
        Err(_) => 0,
    }
}

/// Stop the search if it is timed and its time is up. Whether the time is
/// up depends on the clock; nothing else changes.
fn check_time(info: &mut SearchInfo)
    ensures
        *final(info) == (SearchInfo { stopped: final(info).stopped, ..*old(info) }),
        final(info).stopped ==> old(info).stopped || old(info).timed,
        old(info).stopped ==> final(info).stopped,
{
    if info.timed && get_time() > info.stop_time {
        info.stopped = true;
    }
}

/// Number of the history entries in `from..to` whose key is the current
/// key.
pub open spec fn rep_count(b: &BoardStructure, from: int, to: int) -> int
    decreases to - from,
{
    if from >= to {
        0
    } else {
        rep_count(b, from, to - 1) + (if b.history[to - 1].pos_key == b.pos_key { 1int } else { 0int })
    }
}

/// A threefold repetition: the position occurred at least twice before
/// among the positions since the last capture or pawn move (the one just
/// before the current position, which the other side moved from, left
/// out), so that with the current one it has been seen three times.
pub open spec fn repeated(b: &BoardStructure) -> bool {
    b.ply_depth > 0 && rep_count(b, b.ply_depth - b.fifty_cnt, b.ply_depth - 1) >= 2
}

/// The repetition count read from the board is the one of its position.
proof fn lemma_rep_pos(b: &BoardStructure, from: int, to: int)
    ensures
        rep_count(b, from, to) == crate::search_value::pos_rep_count(b.position(), from, to),
    decreases to - from,
{
    if from < to {
        lemma_rep_pos(b, from, to - 1);
    }
}

/// Bringing a move forward keeps the moves of the list, each once, and
/// the moves before it.
proof fn lemma_swap_keeps(l0: MoveListStructure, l1: MoveListStructure, m: int)
    requires
        0 <= m < l0.length <= 255,
        l1.length == l0.length,
        exists|b: int| m <= b < l0.length && l1.moves@ == l0.moves@.update(m, l0.moves[b]).update(b, l0.moves[m]),
    ensures
        distinct_from(l0, 0) ==> distinct_from(l1, 0),
        forall|x: usize| #[trigger] holds_from(l1, 0, x) == holds_from(l0, 0, x),
        forall|i: int| 0 <= i < m ==> l1.moves[i] == l0.moves[i],
        crate::search_value::prefix_actions(l1, m) == crate::search_value::prefix_actions(l0, m),
{
    let b = choose|b: int| m <= b < l0.length && l1.moves@ == l0.moves@.update(m, l0.moves[b]).update(b, l0.moves[m]);
    assert(forall|i: int| 0 <= i < l0.length ==> l1.moves@[i] == (if i == b { l0.moves[m] } else if i == m {
        l0.moves[b]
    } else {
        l0.moves[i]
    }));
    let perm = |i: int| if i == b { m } else if i == m { b } else { i };
    assert forall|i: int| 0 <= i < l0.length implies #[trigger] l1.moves[i] == l0.moves[perm(i)] by {}
    if distinct_from(l0, 0) {
        assert forall|i: int, j: int| #![trigger l1.moves[i], l1.moves[j]] 0 <= i < j < l1.length implies l1.moves[i].action
            != l1.moves[j].action by {
            let pi = perm(i);
            let pj = perm(j);
            assert(l1.moves[i] == l0.moves[pi]);
            assert(l1.moves[j] == l0.moves[pj]);
            assert(pi != pj);
            if pi < pj {
                assert(l0.moves[pi].action != l0.moves[pj].action);
            } else {
                assert(l0.moves[pj].action != l0.moves[pi].action);
            }
        }
    }
    assert forall|x: usize| #[trigger] holds_from(l1, 0, x) == holds_from(l0, 0, x) by {
        if holds_from(l1, 0, x) {
            let i = choose|i: int| 0 <= i < l1.length && #[trigger] l1.moves[i].action == x;
            assert(l0.moves[perm(i)].action == x);
        }
        if holds_from(l0, 0, x) {
            let i = choose|i: int| 0 <= i < l0.length && #[trigger] l0.moves[i].action == x;
            assert(l1.moves[perm(i)] == l0.moves[perm(perm(i))]);
            assert(perm(perm(i)) == i);
            assert(l1.moves[perm(i)].action == x);
        }
    }
    assert(crate::search_value::prefix_actions(l1, m) =~= crate::search_value::prefix_actions(l0, m));
}

/// The list holds every packed pseudo legal move of `b`'s position, each
/// once, and nothing else.
#[verifier::opaque]
pub open spec fn list_full(l: MoveListStructure, b: &BoardStructure) -> bool {
    &&& l.length < 255
    &&& distinct_from(l, 0)
    &&& forall|x: usize| #[trigger] holds_from(l, 0, x) == owed(b, x, false)
}

/// None of the first `n` moves of the list passes `ok`.
#[verifier::opaque]
pub open spec fn none_ok(l: MoveListStructure, n: int, ok: spec_fn(int) -> bool) -> bool {
    forall|i: int| 0 <= i < n ==> !ok(#[trigger] l.moves[i].action as int)
}

/// The fail-hard search of the moves `q` from the window `alpha0..beta`
/// has raised alpha to `al`, the best of them or `alpha0`, without a cutoff.
#[verifier::opaque]
pub open spec fn ab_progress(w: spec_fn(int) -> int, ok: spec_fn(int) -> bool, alpha0: int, beta: int, q: Seq<int>,
    al: int) -> bool {
    &&& al == (if seq_best(w, ok, ab_base(), q) > alpha0 { seq_best(w, ok, ab_base(), q) } else { alpha0 })
    &&& seq_best(w, ok, ab_base(), q) < beta
}

proof fn lemma_full_keep(l0: MoveListStructure, l1: MoveListStructure, b: &BoardStructure, m: int)
    requires
        list_full(l0, b),
        0 <= m < l0.length <= 255,
        l1.length == l0.length,
        exists|c: int| m <= c < l0.length && l1.moves@ == l0.moves@.update(m, l0.moves[c]).update(c, l0.moves[m]),
    ensures
        list_full(l1, b),
{
    reveal(list_full);
    lemma_swap_keeps(l0, l1, m);
}

proof fn lemma_full_owed(l: MoveListStructure, b: &BoardStructure, i: int)
    requires
        list_full(l, b),
        0 <= i < l.length,
    ensures
        owed(b, l.moves[i].action, false),
{
    reveal(list_full);
    assert(holds_from(l, 0, l.moves[i].action));
}

proof fn lemma_none_keep(l0: MoveListStructure, l1: MoveListStructure, m: int, ok: spec_fn(int) -> bool)
    requires
        none_ok(l0, m, ok),
        forall|i: int| 0 <= i < m ==> l1.moves[i] == l0.moves[i],
    ensures
        none_ok(l1, m, ok),
{
    reveal(none_ok);
    assert forall|i: int| 0 <= i < m implies !ok(#[trigger] l1.moves[i].action as int) by {
        assert(l1.moves[i] == l0.moves[i]);
    }
}

proof fn lemma_none_extend(l: MoveListStructure, m: int, ok: spec_fn(int) -> bool)
    requires
        none_ok(l, m, ok),
        !ok(l.moves[m].action as int),
    ensures
        none_ok(l, m + 1, ok),
{
    reveal(none_ok);
}

/// An illegal move leaves the search as it was.
proof fn lemma_progress_skip(w: spec_fn(int) -> int, ok: spec_fn(int) -> bool, alpha0: int, beta: int, pre: Seq<int>,
    q: Seq<int>, a: int, al: int)
    requires
        ab_progress(w, ok, alpha0, beta, pre, al),
        q.len() > 0,
        q.drop_last() == pre,
        q.last() == a,
        !ok(a),
    ensures
        ab_progress(w, ok, alpha0, beta, q, al),
{
    reveal(ab_progress);
    crate::search_value::lemma_seq_best_push(w, ok, ab_base(), q, pre, a);
}

/// A legal move of value `x`, answered `child` by its search: a cutoff
/// exactly when `x` reaches `beta`; else alpha is raised to `x` or stays.
proof fn lemma_progress_step(w: spec_fn(int) -> int, ok: spec_fn(int) -> bool, alpha0: int, beta: int, pre: Seq<int>,
    q: Seq<int>, a: int, x: int, child: int, exit: bool, alpha_i: int)
    requires
        ab_progress(w, ok, alpha0, beta, pre, alpha_i),
        alpha0 < beta,
        q.len() > 0,
        q.drop_last() == pre,
        q.last() == a,
        ok(a),
        w(a) == x,
        child == q_result(-x, exit, -beta, -alpha_i),
    ensures
        -child > alpha_i && -child >= beta ==> x >= beta,
        -child > alpha_i && -child < beta ==> ab_progress(w, ok, alpha0, beta, q, -child) && -child == x,
        -child <= alpha_i ==> ab_progress(w, ok, alpha0, beta, q, alpha_i),
{
    reveal(ab_progress);
    crate::search_value::lemma_seq_best_push(w, ok, ab_base(), q, pre, a);
    crate::search_value::lemma_fail_hard_step(alpha0, beta, seq_best(w, ok, ab_base(), pre), x, child, exit, alpha_i);
}

/// Whether the position is `repeated`.
pub fn is_rep(board: &BoardStructure) -> (r: bool)
    requires
        board.fifty_cnt <= board.ply_depth,
        board.ply_depth <= 1024,
    ensures
        r == repeated(board),
{
    if board.ply_depth > 0 {
        let from: usize = board.ply_depth - board.fifty_cnt;
        let to: usize = board.ply_depth - 1;
        let mut cnt: usize = 0;
        let mut ply: usize = from;
        while ply < to
            invariant
                from <= to + 1,
                to < 1024,
                from <= ply,
                ply <= to || (from == to + 1 && ply == from),
                cnt == rep_count(board, from as int, ply as int),
                cnt <= ply - from,
            decreases to - ply,
        {
            if board.pos_key == board.history[ply].pos_key {
                cnt = cnt + 1;
            }
            ply = ply + 1;
        }
        proof {
            if from > to {
                assert(rep_count(board, from as int, to as int) == 0);
            }
        }
        cnt >= 2
    } else {
        false
    }
}

/// Bring the best scored of the moves from `move_num` on to `move_num`:
/// the first of highest score (or `move_num` itself if all score 0)
/// changes places with the move at `move_num`.
pub fn next_move_to_search(move_num: usize, list: &mut MoveListStructure)
    requires
        move_num < old(list).length <= 255,
    ensures
        exists|b: int| {
            &&& move_num <= b < old(list).length
            &&& forall|i: int| move_num <= i < old(list).length ==> old(list).moves[b].score >= #[trigger] old(list).moves[i].score
            &&& forall|i: int| move_num <= i < b ==> #[trigger] old(list).moves[i].score < old(list).moves[b].score
            &&& final(list).moves@ == old(list).moves@.update(move_num as int, old(list).moves[b]).update(b, old(list).moves[move_num as int])
        },
        final(list).length == old(list).length,
{
    let mut best_score: usize = 0;
    let mut best: usize = move_num;
    let mut index: usize = move_num;
    while index < list.length
        invariant
            move_num <= index <= list.length,
            list.length <= 255,
            move_num <= best < list.length,
            best == move_num || best < index,
            best_score == (if best == move_num && best_score == 0 { 0 } else { list.moves[best as int].score }),
            best != move_num ==> best_score == list.moves[best as int].score && best_score > 0,
            forall|i: int| move_num <= i < index ==> list.moves[i].score <= best_score,
            forall|i: int| move_num <= i < best ==> #[trigger] list.moves[i].score < best_score,
            best == move_num && index > move_num ==> list.moves[move_num as int].score == best_score || best_score == 0,
        decreases list.length - index,
    {
        if list.moves[index].score > best_score {
            best_score = list.moves[index].score;
            best = index;
        }
        index = index + 1;
    }
    let copy: MoveStructure = list.moves[move_num];
    list.moves[move_num] = list.moves[best];
    list.moves[best] = copy;
}

/// Bound on the scores the search works with.
pub const SCORE_BOUND: i32 = 10_000_000;

/// Search state that a search keeps: the position (but for scratch
/// history), consistency, and the bookkeeping counters within their limits.
pub open spec fn kept(b: &BoardStructure, p: Position) -> bool {
    &&& b.valid()
    &&& eq_low(b.position(), p)
    &&& b.fifty_cnt <= b.ply_depth
    &&& b.ply <= b.ply_depth
}

/// The moves of the list are pseudo legal in `p` (captures, if asked).
pub open spec fn list_moves_ok(p: Position, l: MoveListStructure, captures_only: bool) -> bool {
    &&& l.length <= 255
    &&& forall|i: int| 0 <= i < l.length ==> gen_move(p, #[trigger] l.moves[i].action) && (captures_only ==> is_capture(
        l.moves[i].action))
}

/// Reordering the next move keeps the moves pseudo legal.
proof fn lemma_reorder_ok(p: Position, l0: MoveListStructure, l1: MoveListStructure, m: int, co: bool)
    requires
        list_moves_ok(p, l0, co),
        0 <= m < l0.length,
        l1.length == l0.length,
        exists|b: int| {
            &&& m <= b < l0.length
            &&& l1.moves@ == l0.moves@.update(m, l0.moves[b]).update(b, l0.moves[m])
        },
    ensures
        list_moves_ok(p, l1, co),
{
    let b = choose|b: int| {
        &&& m <= b < l0.length
        &&& l1.moves@ == l0.moves@.update(m, l0.moves[b]).update(b, l0.moves[m])
    };
    assert forall|i: int| 0 <= i < l1.length implies gen_move(p, #[trigger] l1.moves[i].action) && (co ==> is_capture(
        l1.moves[i].action)) by {
        if i == b {
            assert(l1.moves[i] == l0.moves[m]);
        } else if i == m {
            assert(l1.moves[i] == l0.moves[b]);
        } else {
            assert(l1.moves[i] == l0.moves[i]);
        }
    }
}

/// The position is scored without a search: a repetition or the fifty
/// move rule where asked, or too deep into the search.
pub open spec fn quiet_exit(b: &BoardStructure, config: &ConfigInfo) -> bool {
    if config.threefold_null {
        repeated(b)
    } else if config.fifty_null {
        b.fifty_cnt >= 100
    } else {
        b.ply > 63
    }
}

/// Try the capture `a` in the quiescence search: make it and, if it is
/// legal, search the position after it with the window turned round, then
/// take it back. Whether it is legal, and the answer of the search after
/// it.
#[verifier::rlimit(60)]
#[verifier::spinoff_prover]
fn q_try(board: &mut BoardStructure, a: usize, alpha: i32, beta: i32, info: &mut SearchInfo, config: &ConfigInfo,
    Ghost(p0): Ghost<Position>) -> (r: (bool, i32))
    requires
        kept(old(board), p0),
        p0.ply_depth + pieces_total(p0.squares) < 1024,
        gen_move(p0, a),
        is_capture(a),
        -SCORE_BOUND <= alpha <= SCORE_BOUND,
        -SCORE_BOUND <= beta <= SCORE_BOUND,
    ensures
        kept(final(board), p0),
        final(board).eq_search(old(board)),
        r.0 == legal(p0, a, old(board).keys),
        -SCORE_BOUND <= r.1 <= SCORE_BOUND,
        final(info).stopped ==> old(info).stopped || old(info).timed,
        final(info).timed == old(info).timed,
        final(info).table_cut == old(info).table_cut,
        r.0 && q_fits(make_spec(p0, a, old(board).keys), old(board).keys, config.threefold_null, config.fifty_null)
            && !final(info).stopped && alpha <= beta ==> r.1 == q_result(
            q_value(make_spec(p0, a, old(board).keys), old(board).keys, config.threefold_null, config.fifty_null),
            pos_quiet_exit(make_spec(p0, a, old(board).keys), config.threefold_null, config.fifty_null),
            -beta as int,
            -alpha as int,
        ),
    decreases pieces_total(p0.squares), 0int,
{
    let ghost k = board.keys;
    let ghost cur = board.position();
    let ghost tf = config.threefold_null;
    let ghost ff = config.fifty_null;
    proof {
        crate::model::lemma_count_bounded(p0.squares);
        assert(pos_valid(p0, k)) by {
            lemma_eq_low_facts(cur, p0, 0, k);
        }
        crate::search_value::lemma_total_kings(p0, k);
        lemma_eq_low_facts(cur, p0, a, k);
        lemma_gen_move_ok(cur, a, k);
        lemma_make_total(cur, a, k);
        crate::model::lemma_count_bounded(p0.squares);
        crate::search_value::lemma_legal_eq_low(cur, p0, a, k);
    }
    if !make_move(a, board) {
        proof {
            assert(eq_low(board.position(), cur));
            lemma_eq_low_trans(board.position(), cur, p0);
        }
        return (false, 0);
    }
    let ghost child_board = *board;
    let ghost child_pos = board.position();
    proof {
        assert(board.board@ == make_spec(cur, a, k).squares);
        assert(cur.squares == p0.squares);
        crate::model::lemma_count_bounded(board.board@);
        let mp = make_spec(p0, a, k);
        assert(mp.history.len() == 1024);
        lemma_q_eq_low(child_pos, mp, k, tf, ff);
        lemma_rep_pos(board, board.ply_depth - board.fifty_cnt, board.ply_depth - 1);
    }
    let child: i32 = quiescence(board, -beta, -alpha, info, config);
    proof {
        lemma_unmake_eq_low(board.position(), cur, a, k);
    }
    unmake_move(board);
    proof {
        lemma_unmake_make(cur, a, k);
        assert(eq_low(board.position(), cur));
        lemma_eq_low_trans(board.position(), cur, p0);
    }
    (true, child)
}

/// Search the captures until the position is quiet: the side to move may
/// stand pat on the evaluation or capture. Fail-hard between `alpha` and
/// `beta`: unless the search was stopped, the answer is the quiescence
/// value of the position (`q_value`) clamped to the window, where every
/// position on the way has fewer than 255 pseudo legal captures; 0 for a
/// repetition or the fifty move rule where asked, the evaluation past 63
/// half moves into the search, and 0 once the search was stopped.
#[verifier::rlimit(100)]
#[verifier::spinoff_prover]
pub fn quiescence(board: &mut BoardStructure, alpha: i32, beta: i32, info: &mut SearchInfo, config: &ConfigInfo)
    -> (r: i32)
    requires
        kept(old(board), old(board).position()),
        old(board).ply_depth + pieces_total(old(board).board@) < 1024,
        -SCORE_BOUND <= alpha <= SCORE_BOUND,
        -SCORE_BOUND <= beta <= SCORE_BOUND,
    ensures
        kept(final(board), old(board).position()),
        final(board).eq_search(old(board)),
        -SCORE_BOUND <= r <= SCORE_BOUND,
        final(info).stopped ==> old(info).stopped || old(info).timed,
        final(info).timed == old(info).timed,
        final(info).table_cut == old(info).table_cut,
        quiet_exit(old(board), config) ==> r == (if config.threefold_null || config.fifty_null {
            0
        } else {
            eval_spec(old(board))
        }),
        !quiet_exit(old(board), config) && !final(info).stopped && alpha <= beta ==> alpha <= r <= beta && (r
            >= eval_spec(old(board)) || r == beta),
        q_fits(old(board).position(), old(board).keys, config.threefold_null, config.fifty_null) && !final(info).stopped
            && alpha <= beta ==> r == q_result(
            q_value(old(board).position(), old(board).keys, config.threefold_null, config.fifty_null),
            quiet_exit(old(board), config),
            alpha as int,
            beta as int,
        ),
    decreases pieces_total(old(board).board@), 1int,
{
    let ghost ob = *board;
    let ghost p0 = board.position();
    let ghost k = board.keys;
    let ghost tf = config.threefold_null;
    let ghost ff = config.fifty_null;
    proof {
        lemma_rep_pos(board, board.ply_depth - board.fifty_cnt, board.ply_depth - 1);
        assert(quiet_exit(&ob, config) == pos_quiet_exit(p0, tf, ff));
        crate::evaluation::lemma_eval_of(board);
    }
    let mut al: i32 = alpha;
    if info.nodes & 8192 == 0 {
        check_time(info);
    }
    info.nodes = info.nodes.wrapping_add(1);
    if config.threefold_null {
        if is_rep(board) {
            return 0;
        }
    } else if config.fifty_null {
        if board.fifty_cnt >= 100 {
            return 0;
        }
    } else if board.ply > 63 {
        return eval(board);
    }
    let ghost alpha0 = alpha;
    let ghost qf = q_fits(p0, k, tf, ff) && alpha0 < beta;
    let ghost w = |x: int| -q_value(make_spec(p0, x as usize, k), k, tf, ff);
    let ghost ok = |x: int| q_guard(p0, k) && legal_capture_no(p0, x, k);
    proof {
        lemma_q_best_range(p0, k, tf, ff, 0x2000000, w, ok);
        crate::search_value::lemma_range_best_ge(w, ok, eval_of(p0), 0x2000000, 0);
        assert(q_value(p0, k, tf, ff) == range_best(w, ok, eval_of(p0), 0x2000000));
    }
    let stand: i32 = eval(board);
    if stand >= beta {
        return beta;
    }
    if stand > al {
        al = stand;
    }
    let mut move_list: MoveListStructure = MoveListStructure::new();
    let ghost l0 = move_list;
    pseudo_legal_captures(board, &mut move_list);
    proof {
        assert forall|i: int| 0 <= i < move_list.length implies gen_move(p0, #[trigger] move_list.moves[i].action)
            && is_capture(move_list.moves[i].action) by {
            assert(l0.length <= i < move_list.length);
        }
        crate::model::lemma_count_bounded(p0.squares);
        assert(owed_count(&ob, true) == pos_owed_captures(p0).len()) by {
            assert(crate::legal_move_gen::owed_set(&ob, true) =~= pos_owed_captures(p0));
        }
        if qf {
            assert forall|x: usize| #[trigger] holds_from(move_list, 0, x) == owed(&ob, x, true) by {
                if holds_from(move_list, 0, x) {
                    let i = choose|i: int| 0 <= i < move_list.length && #[trigger] move_list.moves[i].action == x;
                    assert(l0.length <= i < move_list.length);
                }
            }
        }
        assert(prefix_actions(move_list, 0) =~= Seq::<int>::empty());
        crate::search_value::lemma_seq_best_empty(w, ok, stand as int, prefix_actions(move_list, 0));
        lemma_eq_low_facts(board.position(), p0, 0, k);
        crate::search_value::lemma_total_kings(p0, k);
        assert(q_guard(p0, k));
    }
    let mut legal_count: usize = 0;
    let mut move_num: usize = 0;
    while move_num < move_list.length
        invariant
            ob == *old(board),
            info.stopped ==> old(info).stopped || old(info).timed,
            info.table_cut == old(info).table_cut,
            info.timed == old(info).timed,
            p0 == ob.position(),
            k == ob.keys,
            tf == config.threefold_null,
            ff == config.fifty_null,
            kept(board, p0),
            board.eq_search(&ob),
            p0.ply_depth + pieces_total(p0.squares) < 1024,
            list_moves_ok(p0, move_list, true),
            move_num <= move_list.length,
            legal_count <= move_num,
            -SCORE_BOUND <= al <= SCORE_BOUND,
            -SCORE_BOUND <= beta <= SCORE_BOUND,
            p0.ply_depth < 1024,
            al >= alpha0,
            al >= stand,
            stand as int == eval_spec(&ob),
            stand as int == eval_of(p0),
            alpha0 <= beta ==> al <= beta,
            !quiet_exit(&ob, config),
            !pos_quiet_exit(p0, tf, ff),
            w == (|x: int| -q_value(make_spec(p0, x as usize, k), k, tf, ff)),
            ok == (|x: int| q_guard(p0, k) && legal_capture_no(p0, x, k)),
            q_value(p0, k, tf, ff) == range_best(w, ok, eval_of(p0), 0x2000000),
            qf == (q_fits(p0, k, tf, ff) && alpha0 < beta),
            alpha0 == alpha,
            alpha0 == beta ==> al == beta,
            q_guard(p0, k),
            qf ==> move_list.length < 255,
            qf ==> distinct_from(move_list, 0),
            qf ==> forall|x: usize| #[trigger] holds_from(move_list, 0, x) == owed(&ob, x, true),
            qf ==> al == (if seq_best(w, ok, stand as int, prefix_actions(move_list, move_num as int)) > alpha0 {
                seq_best(w, ok, stand as int, prefix_actions(move_list, move_num as int))
            } else {
                alpha0 as int
            }),
            qf ==> seq_best(w, ok, stand as int, prefix_actions(move_list, move_num as int)) < beta,
        decreases move_list.length - move_num,
    {
        let ghost lpre = move_list;
        next_move_to_search(move_num, &mut move_list);
        proof {
            lemma_reorder_ok(p0, lpre, move_list, move_num as int, true);
            lemma_swap_keeps(lpre, move_list, move_num as int);
        }
        let a: usize = move_list.moves[move_num].action;
        let ghost pre = prefix_actions(move_list, move_num as int);
        proof {
            assert(gen_move(p0, a) && is_capture(a));
            assert(prefix_actions(move_list, move_num as int + 1).drop_last() =~= pre);
            assert(prefix_actions(move_list, move_num as int + 1).last() == a as int);
            crate::search_value::lemma_seq_best_push(w, ok, stand as int, prefix_actions(move_list, move_num as int + 1),
                pre, a as int);
            if qf {
                assert(holds_from(move_list, 0, a));
                assert(owed(&ob, a, true));
            }
        }
        let ghost alpha_i = al;
        let (is_legal, child): (bool, i32) = q_try(board, a, al, beta, info, config, Ghost(p0));
        if !is_legal {
            proof {
                if qf {
                    assert(!ok(a as int));
                }
            }
            move_num = move_num + 1;
            continue;
        }
        legal_count = legal_count + 1;
        if info.stopped {
            return 0;
        }
        let score: i32 = -child;
        proof {
            if qf {
                assert(legal_capture_no(p0, a as int, k));
                assert(q_guard(p0, k));
                assert(ok(a as int));
                assert(q_fits(make_spec(p0, a, k), k, tf, ff));
                let x = w(a as int);
                assert(x == -q_value(make_spec(p0, a, k), k, tf, ff));
                crate::search_value::lemma_fail_hard_step(alpha0 as int, beta as int, seq_best(w, ok, stand as int, pre), x,
                    child as int, pos_quiet_exit(make_spec(p0, a, k), tf, ff), alpha_i as int);
                crate::search_value::lemma_range_best_ge(w, ok, eval_of(p0), 0x2000000, a as int);
            }
        }
        if score > al {
            if score >= beta {
                proof {
                    if qf {
                        assert(q_value(p0, k, tf, ff) >= beta);
                    }
                }
                if config.fhfquot {
                    if legal_count == 1 {
                        info.fail_high_fst = info.fail_high_fst.wrapping_add(1);
                    }
                    info.fail_high = info.fail_high.wrapping_add(1);
                }
                return beta;
            }
            al = score;
        }
        move_num = move_num + 1;
    }
    proof {
        if qf {
            let q = prefix_actions(move_list, move_list.length as int);
            assert(q.no_duplicates()) by {
                assert forall|i: int, j: int| 0 <= i < q.len() && 0 <= j < q.len() && i != j implies q[i] != q[j] by {
                    if i < j {
                        assert(move_list.moves[i].action != move_list.moves[j].action);
                    } else {
                        assert(move_list.moves[j].action != move_list.moves[i].action);
                    }
                }
            }
            assert forall|i: int| 0 <= i < q.len() implies 0 <= #[trigger] q[i] < 0x2000000 by {
                assert(holds_from(move_list, 0, move_list.moves[i].action));
                assert(owed(&ob, move_list.moves[i].action, true));
            }
            let okq = |x: int| ok(x) && q.contains(x);
            crate::search_value::lemma_seq_best_range(w, ok, okq, stand as int, q, 0x2000000);
            assert forall|x: int| 0 <= x < 0x2000000 implies #[trigger] okq(x) == ok(x) by {
                if ok(x) {
                    assert(owed(&ob, x as usize, true));
                    assert(holds_from(move_list, 0, x as usize));
                    let i = choose|i: int| 0 <= i < move_list.length && #[trigger] move_list.moves[i].action == x as usize;
                    assert(q[i] == x);
                }
            }
            crate::search_value::lemma_range_best_ext(w, okq, w, ok, stand as int, 0x2000000);
        }
    }
    al
}

/// The transposition table is well formed, entries without a flag have
/// depth 0, and stored scores lie within the search bound (plus a mate
/// distance).
pub open spec fn table_ok(b: &BoardStructure) -> bool {
    &&& b.trans_table.wf()
    &&& flags_ok(b.trans_table.entries@)
    &&& forall|i: int| 0 <= i < b.trans_table.entries@.len() ==> -(SCORE_BOUND + 64) <= #[trigger] b.trans_table.entries@[i].score
        <= SCORE_BOUND + 64
}

/// Changing search tables only keeps what the search keeps.
proof fn lemma_kept_frame(b0: BoardStructure, b1: BoardStructure, p: Position)
    requires
        kept(&b0, p),
        b1.eq_pieces(&b0),
        b1.position() == b0.position(),
        b1.keys == b0.keys,
    ensures
        kept(&b1, p),
{
    crate::model::lemma_pieces_wf_frame(b0, b1);
}

/// The side to move is in check.
pub open spec fn in_check(b: &BoardStructure) -> bool {
    attacked(b.board@, b.king_sqs[side_idx(b.side)] as int, opp(b.side))
}

/// The transposition table settles the search of the board's position
/// with this window and depth.
pub open spec fn tt_settles(b: &BoardStructure, alpha: i32, beta: i32, depth: usize) -> bool {
    match probe_spec(b, b.trans_table.entries@[tt_slot(b)], alpha, beta, depth) {
        Some((_, Some((hit, _)))) => hit,
        _ => false,
    }
}

/// How deep the search of the board goes for a requested depth: one ply
/// more when the side to move is in check.
pub open spec fn search_depth(b: &BoardStructure, depth: usize) -> usize {
    (if in_check(b) {
        depth + 1
    } else {
        depth as int
    }) as usize
}

/// The score that the transposition table hands out for the board's
/// position with this window and depth (meaningful where it settles the
/// search).
pub open spec fn tt_score(b: &BoardStructure, alpha: i32, beta: i32, depth: usize) -> int {
    match probe_spec(b, b.trans_table.entries@[tt_slot(b)], alpha, beta, depth) {
        Some((_, Some((_, s)))) => s,
        _ => 0,
    }
}

/// A move that fails high: count it where asked, remember it as a killer
/// move if it captures nothing, and store the cutoff in the transposition
/// table, which then settles the same search with `beta`.
fn beta_cutoff(board: &mut BoardStructure, info: &mut SearchInfo, config: &ConfigInfo, a: usize, legal_count: usize,
    d: usize, alpha: i32, beta: i32, p0: Ghost<Position>)
    requires
        kept(old(board), p0@),
        table_ok(old(board)),
        old(board).ply <= 63,
        -SCORE_BOUND <= alpha <= SCORE_BOUND,
        -SCORE_BOUND <= beta <= SCORE_BOUND,
    ensures
        kept(final(board), p0@),
        table_ok(final(board)),
        final(board).keys == old(board).keys,
        final(board).pv_line == old(board).pv_line,
        final(board).pos_key == old(board).pos_key,
        final(board).ply == old(board).ply,
        tt_settles(final(board), alpha, beta, d),
        tt_score(final(board), alpha, beta, d) == beta,
        final(info).stopped == old(info).stopped,
        final(info).timed == old(info).timed,
        final(info).table_cut == old(info).table_cut,
{
    if config.fhfquot {
        if legal_count == 1 {
            info.fail_high_fst = info.fail_high_fst.wrapping_add(1);
        }
        info.fail_high = info.fail_high.wrapping_add(1);
    }
    if a & CAP_FLAG == 0 {
        let ghost b0 = *board;
        let ply: usize = board.ply;
        board.search_killers[ply][1] = board.search_killers[ply][0];
        board.search_killers[ply][0] = a;
        proof {
            lemma_kept_frame(b0, *board, p0@);
        }
    }
    let ghost b0 = *board;
    store_trans_move(board, a, beta, d, TransFlag::Beta);
    proof {
        lemma_kept_frame(b0, *board, p0@);
        crate::trans_table::law_probe_after_store(b0, *board, a, beta, d, TransFlag::Beta, alpha, beta, d);
    }
}

/// The position has no legal move.
pub open spec fn no_legal_move(p: Position, k: ZobristKeys) -> bool {
    forall|a: usize| !#[trigger] legal(p, a, k)
}

/// Make the pseudo legal move `a`, search the position after it one ply
/// less deep with the window turned round, and take the move back: whether
/// the move is legal, and the score the search of the position after it
/// answered.
#[verifier::rlimit(60)]
#[verifier::spinoff_prover]
fn ab_try(board: &mut BoardStructure, a: usize, alpha: i32, beta: i32, d: usize, info: &mut SearchInfo,
    config: &ConfigInfo, Ghost(p0): Ghost<Position>) -> (r: (bool, i32))
    requires
        kept(old(board), p0),
        table_ok(old(board)),
        p0.ply <= 63,
        p0.ply_depth + (64 - p0.ply) + pieces_total(p0.squares) < 1024,
        gen_move(p0, a),
        -SCORE_BOUND <= alpha <= SCORE_BOUND,
        -SCORE_BOUND <= beta <= SCORE_BOUND,
        1 <= d,
    ensures
        kept(final(board), p0),
        table_ok(final(board)),
        final(board).keys == old(board).keys,
        final(board).pv_line == old(board).pv_line,
        r.0 == legal(p0, a, old(board).keys),
        -(SCORE_BOUND + 128) <= r.1 <= SCORE_BOUND + 128,
        final(info).stopped ==> old(info).stopped || old(info).timed,
        final(info).timed == old(info).timed,
        old(info).table_cut ==> final(info).table_cut,
        !r.0 ==> *final(info) == *old(info),
        r.0 && !final(info).stopped && !final(info).table_cut && -INF <= alpha < beta <= INF && ab_fits(
            make_spec(p0, a, old(board).keys),
            old(board).keys,
            (d - 1) as nat,
            config.threefold_null,
            config.fifty_null,
        ) ==> r.1 == ab_result(
            make_spec(p0, a, old(board).keys),
            old(board).keys,
            (d - 1) as nat,
            config.threefold_null,
            config.fifty_null,
            -beta as int,
            -alpha as int,
        ),
    decreases 64 - old(board).ply, 0int,
{
    let ghost k = board.keys;
    let ghost cur = board.position();
    let ghost tf = config.threefold_null;
    let ghost ff = config.fifty_null;
    proof {
        crate::model::lemma_count_bounded(p0.squares);
        assert(board.valid());
        assert(pos_valid(cur, k));
        assert(cur.history.len() == 1024);
        assert(p0.history.len() == 1024);
        assert(cur.ply_depth == p0.ply_depth);
        lemma_eq_low_facts(cur, p0, a, k);
        lemma_gen_move_ok(cur, a, k);
        lemma_make_total(cur, a, k);
        assert(make_spec(p0, a, k).history.len() == 1024);
        assert(make_spec(p0, a, k).ply_depth < 1024);
        lemma_eq_low_facts(make_spec(cur, a, k), make_spec(p0, a, k), a, k);
        assert(legal(cur, a, k) == legal(p0, a, k));
    }
    if !make_move(a, board) {
        proof {
            assert(eq_low(board.position(), cur));
            lemma_eq_low_trans(board.position(), cur, p0);
        }
        return (false, 0);
    }
    let ghost child_pos = board.position();
    proof {
        let mp = make_spec(p0, a, k);
        lemma_gen_move_ok(p0, a, k);
        assert(eq_low(child_pos, mp));
        crate::search_value::lemma_ab_eq_low(child_pos, mp, k, (d - 1) as nat, tf, ff);
    }
    let child: i32 = alpha_beta(board, info, -beta, -alpha, d - 1, config);
    proof {
        lemma_unmake_eq_low(board.position(), cur, a, k);
    }
    unmake_move(board);
    proof {
        lemma_unmake_make(cur, a, k);
        assert(eq_low(board.position(), cur));
        lemma_eq_low_trans(board.position(), cur, p0);
    }
    (true, child)
}
/// The moves part of `alpha_beta`: the position is not scored by a rule,
/// lies at most 63 half moves into the search, and the table does not
/// settle its search to `d` (the requested `depth`, one more in check). The
/// moves in order of their scores (the table's move `pv_move` first) are
/// searched fail-hard, with killer and history updates; the result is
/// stored in the table; mate or stalemate when no move is legal.
#[verifier::rlimit(100)]
#[verifier::spinoff_prover]
fn search_moves(board: &mut BoardStructure, info: &mut SearchInfo, config: &ConfigInfo, alpha: i32, beta: i32,
    depth: usize, d: usize, pv_move: usize, king_attacked: bool, start: Ghost<Position>) -> (r: i32)
    requires
        start@ == old(board).position(),
        kept(old(board), old(board).position()),
        table_ok(old(board)),
        old(board).ply <= 63,
        old(board).ply_depth + (64 - old(board).ply) + pieces_total(old(board).board@) < 1024,
        -SCORE_BOUND <= alpha <= SCORE_BOUND,
        -SCORE_BOUND <= beta <= SCORE_BOUND,
        0 < depth < usize::MAX,
        1 <= d,
        d == search_depth(old(board), depth),
        king_attacked == in_check(old(board)),
        !(config.threefold_null && repeated(old(board))),
        !(!config.threefold_null && config.fifty_null && old(board).fifty_cnt >= 100),
        !tt_settles(old(board), alpha, beta, d),
    ensures
        kept(final(board), old(board).position()),
        table_ok(final(board)),
        final(board).keys == old(board).keys,
        final(board).pv_line == old(board).pv_line,
        -(SCORE_BOUND + 128) <= r <= SCORE_BOUND + 128,
        final(info).stopped ==> old(info).stopped || old(info).timed,
        final(info).timed == old(info).timed,
        old(info).table_cut ==> final(info).table_cut,
        !final(info).stopped && alpha <= beta ==> (alpha <= r <= beta && tt_settles(final(board), alpha, beta, d)
            && tt_score(final(board), alpha, beta, d) == r) || (r == mate_value(old(board).position()) && (!has_legal_move(
            old(board).position(),
            old(board).keys,
        ) || crate::perft::pos_owed_set(old(board).position()).len() >= 255)),
        no_legal_move(old(board).position(), old(board).keys) ==> r == mate_value(old(board).position()),
        !final(info).stopped && !final(info).table_cut && -INF <= alpha < beta <= INF && ab_fits(
            old(board).position(),
            old(board).keys,
            depth as nat,
            config.threefold_null,
            config.fifty_null,
        ) && has_legal_move(old(board).position(), old(board).keys) && alpha < r < beta ==> ({
            let e = final(board).trans_table.entries@[tt_slot(final(board))];
            &&& e.pos_key == old(board).pos_key
            &&& crate::perft::legal_move_no(old(board).position(), e.action as int, old(board).keys)
            &&& -ab_value(
                make_spec(old(board).position(), e.action, old(board).keys),
                old(board).keys,
                (d - 1) as nat,
                config.threefold_null,
                config.fifty_null,
            ) == r
        }),
        !final(info).stopped && !final(info).table_cut && -INF <= alpha < beta <= INF && ab_fits(
            old(board).position(),
            old(board).keys,
            depth as nat,
            config.threefold_null,
            config.fifty_null,
        ) ==> r == ab_result(
            old(board).position(),
            old(board).keys,
            depth as nat,
            config.threefold_null,
            config.fifty_null,
            alpha as int,
            beta as int,
        ),
    decreases 64 - old(board).ply, 1int,
{
    let ghost ob = *board;
    let ghost p0 = start@;
    let ghost k = board.keys;
    let ghost tf = config.threefold_null;
    let ghost ff = config.fifty_null;
    proof {
        crate::model::lemma_count_bounded(p0.squares);
        lemma_rep_pos(board, board.ply_depth - board.fifty_cnt, board.ply_depth - 1);
        assert(in_check(&ob) == pos_in_check(p0));
    }
    let mut al: i32 = alpha;
    let mut move_list: MoveListStructure = MoveListStructure::new();
    let ghost l0 = move_list;
    pseudo_legal_move_gen(board, &mut move_list);
    let ghost lg = move_list;
    let ghost qf = ab_fits(p0, k, depth as nat, tf, ff) && -INF <= alpha && alpha < beta && beta <= INF;
    let ghost full = crate::perft::pos_owed_set(p0).len() < 255;
    proof {
        assert forall|i: int| 0 <= i < move_list.length implies gen_move(p0, #[trigger] move_list.moves[i].action)
            && (false ==> is_capture(move_list.moves[i].action)) by {
            assert(l0.length <= i < move_list.length);
        }
        assert(owed_count(&ob, false) == crate::perft::pos_owed_set(p0).len()) by {
            assert(crate::legal_move_gen::owed_set(&ob, false) =~= crate::perft::pos_owed_set(p0));
        }
        if full {
            assert forall|x: usize| #[trigger] holds_from(move_list, 0, x) == owed(&ob, x, false) by {
                if holds_from(move_list, 0, x) {
                    let i = choose|i: int| 0 <= i < move_list.length && #[trigger] move_list.moves[i].action == x;
                    assert(l0.length <= i < move_list.length);
                }
            }
        }
    }
    if pv_move != 0 {
        let mut i: usize = 0;
        while i < move_list.length
            invariant
                list_moves_ok(p0, move_list, false),
                i <= move_list.length,
                move_list.length == lg.length,
                forall|j: int| 0 <= j < lg.length ==> #[trigger] move_list.moves[j].action == lg.moves[j].action,
            decreases move_list.length - i,
        {
            if move_list.moves[i].action == pv_move {
                move_list.moves[i].score = 2000000;
                break;
            }
            i = i + 1;
        }
    }
    let ghost w = |x: int| -ab_value(make_spec(p0, x as usize, k), k, (d - 1) as nat, tf, ff);
    let ghost ok = |x: int| q_guard(p0, k) && crate::perft::legal_move_no(p0, x, k);
    proof {
        if qf {
            assert(full);
        }
        if full {
            assert forall|x: usize| #[trigger] holds_from(move_list, 0, x) == holds_from(lg, 0, x) by {
                if holds_from(move_list, 0, x) {
                    let i = choose|i: int| 0 <= i < move_list.length && #[trigger] move_list.moves[i].action == x;
                    assert(lg.moves[i].action == x);
                }
                if holds_from(lg, 0, x) {
                    let i = choose|i: int| 0 <= i < lg.length && #[trigger] lg.moves[i].action == x;
                    assert(move_list.moves[i].action == x);
                }
            }
            assert(distinct_from(move_list, 0)) by {
                assert forall|i: int, j: int| 0 <= i < j < move_list.length implies move_list.moves[i].action
                    != move_list.moves[j].action by {
                    assert(lg.moves[i].action != lg.moves[j].action);
                }
            }
        }
        lemma_eq_low_facts(board.position(), p0, 0, k);
        assert(q_guard(p0, k));
        assert(prefix_actions(move_list, 0) =~= Seq::<int>::empty());
        crate::search_value::lemma_seq_best_empty(w, ok, ab_base(), prefix_actions(move_list, 0));
        reveal(list_full);
        reveal(none_ok);
        reveal(ab_progress);
    }
    let mut legal_count: usize = 0;
    let old_alpha: i32 = alpha;
    let mut best_action: usize = 0;
    let mut best_score: i32 = -INF;
    let mut move_num: usize = 0;
    while move_num < move_list.length
        invariant
            ob == *old(board),
            info.stopped ==> old(info).stopped || old(info).timed,
            info.timed == old(info).timed,
            p0 == ob.position(),
            k == ob.keys,
            kept(board, p0),
            table_ok(board),
            board.keys == k,
            board.pv_line == ob.pv_line,
            p0.ply <= 63,
            p0.ply_depth + (64 - p0.ply) + pieces_total(p0.squares) < 1024,
            list_moves_ok(p0, move_list, false),
            move_num <= move_list.length,
            legal_count <= move_num,
            -SCORE_BOUND <= old_alpha <= al <= SCORE_BOUND,
            -SCORE_BOUND <= beta <= SCORE_BOUND,
            old_alpha == alpha,
            al == old_alpha || al < beta,
            !tt_settles(&ob, alpha, beta, search_depth(&ob, depth)),
            d == search_depth(&ob, depth),
            al != old_alpha ==> best_score == al,
            best_score <= al || best_score == -INF || best_score <= SCORE_BOUND,
            -(SCORE_BOUND + 128) <= best_score <= SCORE_BOUND + 128,
            1 <= d,
            depth > 0,
            !(config.threefold_null && repeated(&ob)),
            !(!config.threefold_null && config.fifty_null && ob.fifty_cnt >= 100),
            ob.ply <= 63,
            p0.ply_depth < 1024,
            king_attacked == in_check(&ob),
            no_legal_move(p0, k) ==> legal_count == 0,
            old(info).table_cut ==> info.table_cut,
            tf == config.threefold_null,
            ff == config.fifty_null,
            w == (|x: int| -ab_value(make_spec(p0, x as usize, k), k, (d - 1) as nat, tf, ff)),
            ok == (|x: int| q_guard(p0, k) && crate::perft::legal_move_no(p0, x, k)),
            qf == (ab_fits(p0, k, depth as nat, tf, ff) && -INF <= alpha && alpha < beta && beta <= INF),
            q_guard(p0, k),
            full == (crate::perft::pos_owed_set(p0).len() < 255),
            repeated(&ob) == crate::search_value::pos_repeated(p0),
            in_check(&ob) == pos_in_check(p0),
            depth < usize::MAX,
            qf ==> full,
            full ==> list_full(move_list, &ob),
            qf ==> best_score <= al,
            qf && !info.table_cut && al != old_alpha ==> ok(best_action as int) && w(best_action as int) == al,
            qf && !info.table_cut ==> ab_progress(w, ok, old_alpha as int, beta as int, prefix_actions(move_list,
                move_num as int), al as int),
            legal_count == 0 ==> none_ok(move_list, move_num as int, ok),
            full && legal_count > 0 ==> has_legal_move(p0, k),
        decreases move_list.length - move_num,
    {
        let ghost lpre = move_list;
        next_move_to_search(move_num, &mut move_list);
        proof {
            lemma_reorder_ok(p0, lpre, move_list, move_num as int, false);
            lemma_swap_keeps(lpre, move_list, move_num as int);
            if full {
                lemma_full_keep(lpre, move_list, &ob, move_num as int);
            }
            if legal_count == 0 {
                lemma_none_keep(lpre, move_list, move_num as int, ok);
            }
        }
        let a: usize = move_list.moves[move_num].action;
        let ghost pre = prefix_actions(move_list, move_num as int);
        let ghost q = prefix_actions(move_list, move_num as int + 1);
        proof {
            assert(gen_move(p0, a));
            assert(q.drop_last() =~= pre);
            assert(q.last() == a as int);
            if full {
                lemma_full_owed(move_list, &ob, move_num as int);
            }
        }
        let ghost alpha_i = al;
        let (is_legal, child): (bool, i32) = ab_try(board, a, al, beta, d, info, config, Ghost(p0));
        if !is_legal {
            proof {
                assert(!ok(a as int));
                if legal_count == 0 {
                    lemma_none_extend(move_list, move_num as int, ok);
                }
                if qf && !info.table_cut {
                    lemma_progress_skip(w, ok, old_alpha as int, beta as int, pre, q, a as int, al as int);
                }
            }
            move_num = move_num + 1;
            continue;
        }
        legal_count = legal_count + 1;
        let sc: i32 = -child;
        proof {
            if full {
                assert(crate::perft::legal_move_no(p0, a as int, k));
                assert(has_legal_move(p0, k));
            }
            if qf {
                if !info.table_cut && !info.stopped {
                    crate::search_value::lemma_fits_child(p0, k, depth as nat, tf, ff, a as int);
                    assert(search_d(p0, depth as nat) == d as nat);
                    lemma_progress_step(w, ok, old_alpha as int, beta as int, pre, q, a as int, w(a as int), child as int,
                        ab_exit(make_spec(p0, a, k), k, (d - 1) as nat, tf, ff), alpha_i as int);
                    crate::search_value::lemma_range_best_ge(w, ok, ab_base(), 0x2000000, a as int);
                }
            }
        }
        if info.stopped {
            return 0;
        }
        if sc > best_score {
            best_score = sc;
            best_action = a;
            if sc > al {
                if sc >= beta {
                    beta_cutoff(board, info, config, a, legal_count, d, alpha, beta, Ghost(p0));
                    proof {
                        if qf && !info.table_cut && !info.stopped {
                            crate::search_value::lemma_ab_best_range(p0, k, d as nat, tf, ff, 0x2000000, w, ok);
                            assert(ab_value(p0, k, depth as nat, tf, ff) == ab_best(p0, k, d as nat, tf, ff, 0x2000000));
                        }
                    }
                    return beta;
                }
                al = sc;
                best_action = a;
                if a & CAP_FLAG == 0 {
                    let ghost b0 = *board;
                    proof {
                        lemma_eq_low_facts(board.position(), p0, a, k);
                        lemma_gen_move_ok(p0, a, k);
                    }
                    let t: usize = to_sq(best_action);
                    let piece: usize = board.board[from_sq(best_action)] as usize;
                    board.search_history[t][piece] = board.search_history[t][piece].saturating_add(d);
                    proof {
                        lemma_kept_frame(b0, *board, p0);
                    }
                }
            }
        }
        move_num = move_num + 1;
    }
    if legal_count == 0 {
        proof {
            if full {
                reveal(list_full);
                reveal(none_ok);
                assert(!has_legal_move(p0, k)) by {
                    if has_legal_move(p0, k) {
                        let x = choose|x: int| #[trigger] crate::perft::legal_move_no(p0, x, k);
                        assert(owed(&ob, x as usize, false));
                        assert(holds_from(move_list, 0, x as usize));
                        let i = choose|i: int| 0 <= i < move_list.length && #[trigger] move_list.moves[i].action
                            == x as usize;
                        assert(!ok(move_list.moves[i].action as int));
                        assert(ok(x));
                    }
                }
                assert(board.ply == ob.ply);
            }
        }
        if king_attacked {
            return -MATE + (board.ply as i32);
        } else {
            return 0;
        }
    }
    proof {
        if qf && !info.table_cut && !info.stopped {
            reveal(list_full);
            reveal(ab_progress);
            let q = prefix_actions(move_list, move_list.length as int);
            assert(q.no_duplicates()) by {
                assert forall|i: int, j: int| 0 <= i < q.len() && 0 <= j < q.len() && i != j implies q[i] != q[j] by {
                    if i < j {
                        assert(move_list.moves[i].action != move_list.moves[j].action);
                    } else {
                        assert(move_list.moves[j].action != move_list.moves[i].action);
                    }
                }
            }
            assert forall|i: int| 0 <= i < q.len() implies 0 <= #[trigger] q[i] < 0x2000000 by {
                assert(holds_from(move_list, 0, move_list.moves[i].action));
                assert(owed(&ob, move_list.moves[i].action, false));
            }
            let okq = |x: int| ok(x) && q.contains(x);
            crate::search_value::lemma_seq_best_range(w, ok, okq, ab_base(), q, 0x2000000);
            assert forall|x: int| 0 <= x < 0x2000000 implies #[trigger] okq(x) == ok(x) by {
                if ok(x) {
                    assert(owed(&ob, x as usize, false));
                    assert(holds_from(move_list, 0, x as usize));
                    let i = choose|i: int| 0 <= i < move_list.length && #[trigger] move_list.moves[i].action == x as usize;
                    assert(q[i] == x);
                }
            }
            crate::search_value::lemma_range_best_ext(w, okq, w, ok, ab_base(), 0x2000000);
            crate::search_value::lemma_ab_best_range(p0, k, d as nat, tf, ff, 0x2000000, w, ok);
            assert(ab_value(p0, k, depth as nat, tf, ff) == ab_best(p0, k, d as nat, tf, ff, 0x2000000));
        }
    }
    let ghost b0 = *board;
    if al != old_alpha {
        store_trans_move(board, best_action, best_score, d, TransFlag::Exact);
        proof {
            crate::trans_table::law_probe_after_store(b0, *board, best_action, best_score, d, TransFlag::Exact, alpha,
                beta, d);
        }
    } else {
        store_trans_move(board, best_action, al, d, TransFlag::Alpha);
        proof {
            crate::trans_table::law_probe_after_store(b0, *board, best_action, al, d, TransFlag::Alpha, alpha, beta, d);
        }
    }
    proof {
        lemma_kept_frame(b0, *board, p0);
    }
    al
}

/// Alpha-beta search of the position to `depth` (one more when the side to
/// move is in check), fail-hard between `alpha` and `beta`: quiescence at
/// depth 0; 0 for a repetition or the fifty move rule where asked; a
/// cutoff from the transposition table; else the moves in order of their
/// scores (the table's move first), with killer and history updates on
/// cutoffs and improvements; mate or stalemate when no move is legal. The
/// result of a search of the moves lies within the window and is stored
/// in the transposition table, which then settles the same search with the
/// same result. Past 63 half moves into the search the evaluation is
/// returned.
///
/// Unless the search was stopped or a table entry settled a search on the
/// way (`table_cut`; such an entry may come from another search, a deeper
/// one or a position with the same key), the result is the negamax value
/// `ab_value` of the position clamped to the window (`ab_result`), where
/// every position searched has fewer than 255 pseudo legal moves; a result
/// strictly inside the window is then stored with a legal move of that
/// value.
#[verifier::rlimit(100)]
#[verifier::spinoff_prover]
pub fn alpha_beta(board: &mut BoardStructure, info: &mut SearchInfo, alpha: i32, beta: i32, depth: usize,
    config: &ConfigInfo) -> (r: i32)
    requires
        kept(old(board), old(board).position()),
        table_ok(old(board)),
        old(board).ply <= 64,
        old(board).ply_depth + (64 - old(board).ply) + pieces_total(old(board).board@) < 1024,
        -SCORE_BOUND <= alpha <= SCORE_BOUND,
        -SCORE_BOUND <= beta <= SCORE_BOUND,
        depth < usize::MAX,
    ensures
        kept(final(board), old(board).position()),
        table_ok(final(board)),
        final(board).keys == old(board).keys,
        final(board).pv_line == old(board).pv_line,
        -(SCORE_BOUND + 128) <= r <= SCORE_BOUND + 128,
        final(info).stopped ==> old(info).stopped || old(info).timed,
        final(info).timed == old(info).timed,
        old(info).table_cut ==> final(info).table_cut,
        depth > 0 && !final(info).stopped && !final(info).table_cut && -INF <= alpha < beta <= INF && ab_fits(
            old(board).position(),
            old(board).keys,
            depth as nat,
            config.threefold_null,
            config.fifty_null,
        ) && !ab_exit(old(board).position(), old(board).keys, depth as nat, config.threefold_null, config.fifty_null)
            && alpha < r < beta ==> ({
            let e = final(board).trans_table.entries@[tt_slot(final(board))];
            &&& e.pos_key == old(board).pos_key
            &&& crate::perft::legal_move_no(old(board).position(), e.action as int, old(board).keys)
            &&& -ab_value(
                make_spec(old(board).position(), e.action, old(board).keys),
                old(board).keys,
                (search_d(old(board).position(), depth as nat) - 1) as nat,
                config.threefold_null,
                config.fifty_null,
            ) == r
        }),
        !final(info).stopped && !final(info).table_cut && -INF <= alpha < beta <= INF && ab_fits(
            old(board).position(),
            old(board).keys,
            depth as nat,
            config.threefold_null,
            config.fifty_null,
        ) ==> r == ab_result(
            old(board).position(),
            old(board).keys,
            depth as nat,
            config.threefold_null,
            config.fifty_null,
            alpha as int,
            beta as int,
        ),
        depth == 0 && quiet_exit(old(board), config) ==> r == (if config.threefold_null || config.fifty_null {
            0
        } else {
            eval_spec(old(board))
        }),
        depth == 0 && !quiet_exit(old(board), config) && !final(info).stopped && alpha <= beta ==> alpha <= r <= beta
            && (r >= eval_spec(old(board)) || r == beta),
        depth == 0 && q_fits(old(board).position(), old(board).keys, config.threefold_null, config.fifty_null)
            && !final(info).stopped && alpha <= beta ==> r == q_result(
            q_value(old(board).position(), old(board).keys, config.threefold_null, config.fifty_null),
            quiet_exit(old(board), config),
            alpha as int,
            beta as int,
        ),
        depth > 0 && config.threefold_null && repeated(old(board)) ==> r == 0,
        depth > 0 && !config.threefold_null && config.fifty_null && old(board).fifty_cnt >= 100 ==> r == 0,
        depth > 0 && !(config.threefold_null && repeated(old(board))) && !(!config.threefold_null && config.fifty_null
            && old(board).fifty_cnt >= 100) && old(board).ply > 63 ==> r == eval_spec(old(board)),
        depth > 0 && !(config.threefold_null && repeated(old(board))) && !(!config.threefold_null && config.fifty_null
            && old(board).fifty_cnt >= 100) && old(board).ply <= 63 && !tt_settles(old(board), alpha, beta, (if in_check(
            old(board)) {
            depth + 1
        } else {
            depth as int
        }) as usize) && no_legal_move(old(board).position(), old(board).keys) ==> r == (if in_check(old(board)) {
            -MATE + old(board).ply
        } else {
            0
        }),
        depth > 0 && !(config.threefold_null && repeated(old(board))) && !(!config.threefold_null && config.fifty_null
            && old(board).fifty_cnt >= 100) && old(board).ply <= 63 && tt_settles(old(board), alpha, beta, search_depth(
            old(board), depth)) ==> r == tt_score(old(board), alpha, beta, search_depth(old(board), depth)),
        depth > 0 && !(config.threefold_null && repeated(old(board))) && !(!config.threefold_null && config.fifty_null
            && old(board).fifty_cnt >= 100) && old(board).ply <= 63 && !tt_settles(old(board), alpha, beta, search_depth(
            old(board), depth)) && !final(info).stopped && alpha <= beta ==> (alpha <= r <= beta && tt_settles(
            final(board),
            alpha,
            beta,
            search_depth(old(board), depth),
        ) && tt_score(final(board), alpha, beta, search_depth(old(board), depth)) == r) || (r == mate_value(
            old(board).position(),
        ) && (!has_legal_move(old(board).position(), old(board).keys) || crate::perft::pos_owed_set(
            old(board).position(),
        ).len() >= 255)),
    decreases 64 - old(board).ply, 2int,
{
    let ghost ob = *board;
    let ghost p0 = board.position();
    let ghost k = board.keys;
    let ghost tf = config.threefold_null;
    let ghost ff = config.fifty_null;
    proof {
        crate::model::lemma_count_bounded(p0.squares);
        lemma_rep_pos(board, board.ply_depth - board.fifty_cnt, board.ply_depth - 1);
        assert(repeated(&ob) == crate::search_value::pos_repeated(p0));
        assert(quiet_exit(&ob, config) == pos_quiet_exit(p0, tf, ff));
        crate::evaluation::lemma_eval_of(board);
        assert(in_check(&ob) == pos_in_check(p0));
    }
    if depth == 0 {
        return quiescence(board, alpha, beta, info, config);
    }
    let mut d: usize = depth;
    if info.nodes & 4097 == 0 {
        check_time(info);
    }
    info.nodes = info.nodes.wrapping_add(1);
    if config.threefold_null {
        if is_rep(board) {
            return 0;
        }
    } else if config.fifty_null {
        if board.fifty_cnt >= 100 {
            return 0;
        }
    }
    if board.ply > 63 {
        return eval(board);
    }
    let side: Players = board.side;
    let op_side: Players = if side == Players::White { Players::Black } else { Players::White };
    let king_sq: usize = if side == Players::White { board.king_sqs[0] } else { board.king_sqs[1] };
    let king_attacked: bool = is_attacked(king_sq, op_side, board);
    if king_attacked {
        d = d + 1;
    }
    let mut score: i32 = -INF;
    let mut pv_move: usize = 0;
    if probe_trans_table(board, &mut pv_move, &mut score, alpha, beta, d) {
        info.table_cut = true;
        return score;
    }
    search_moves(board, info, config, alpha, beta, depth, d, pv_move, king_attacked, Ghost(p0))
}

/// Clear what a search remembers from the last one: history and killer
/// tables, the search ply, the stop flag and the counters.
pub fn clear_info(board: &mut BoardStructure, info: &mut SearchInfo)
    ensures
        forall|t: int, p: int| 0 <= t < 120 && 0 <= p < 13 ==> final(board).search_history[t][p] == 0,
        forall|i: int, j: int| 0 <= i < 64 && 0 <= j < 2 ==> final(board).search_killers[i][j] == 0,
        *final(board) == (BoardStructure {
            search_history: final(board).search_history,
            search_killers: final(board).search_killers,
            ply: 0,
            ..*old(board)
        }),
        *final(info) == (SearchInfo {
            stopped: false,
            nodes: 0,
            fail_high: 0,
            fail_high_fst: 0,
            table_cut: false,
            ..*old(info)
        }),
{
    board.search_history = [[0usize; 13]; 120];
    board.search_killers = [[0usize; 2]; 64];
    board.ply = 0;
    info.stopped = false;
    info.nodes = 0;
    info.fail_high = 0;
    info.fail_high_fst = 0;
    info.table_cut = false;
}

/// The score of a root search of `ob` to `depth` with the full window, as
/// `alpha_beta` gives it, where `fb` is the board after the search: 0 for
/// a repetition or the fifty move rule where asked; the table's score
/// where the table settles the search; else a score within the window that
/// the table, after the search, settles the same search with, or the mate
/// or stalemate score where no move was legal (or the move list was full).
pub open spec fn root_score(ob: &BoardStructure, fb: &BoardStructure, config: &ConfigInfo, depth: usize, score: int)
    -> bool {
    let sd = search_depth(ob, depth);
    if config.threefold_null && repeated(ob) {
        score == 0
    } else if !config.threefold_null && config.fifty_null && ob.fifty_cnt >= 100 {
        score == 0
    } else if tt_settles(ob, (-INF) as i32, INF, sd) {
        score == tt_score(ob, (-INF) as i32, INF, sd)
    } else {
        ((-INF) as i32 <= score <= INF && tt_settles(fb, (-INF) as i32, INF, sd) && tt_score(fb, (-INF) as i32, INF, sd)
            == score) || (score == mate_value(ob.position()) && (!has_legal_move(ob.position(), ob.keys)
            || crate::perft::pos_owed_set(ob.position()).len() >= 255))
    }
}

/// One iteration of the iterative deepening: search to `depth` from the
/// root and read the principal variation. `None` if the search was
/// stopped, which only a timed search can be (by the clock); else the
/// score of the root search and the length of the principal variation,
/// whose first move is the best move found.
#[verifier::rlimit(80)]
#[verifier::spinoff_prover]
pub fn search_iteration(board: &mut BoardStructure, info: &mut SearchInfo, config: &ConfigInfo, depth: usize) -> (r:
    Option<(i32, usize)>)
    requires
        kept(old(board), old(board).position()),
        table_ok(old(board)),
        old(board).ply == 0,
        old(board).ply_depth + 64 + pieces_total(old(board).board@) < 1024,
        1 <= depth < usize::MAX,
    ensures
        kept(final(board), old(board).position()),
        table_ok(final(board)),
        final(board).ply == 0,
        final(board).keys == old(board).keys,
        match r {
            Some((score, n)) => -(SCORE_BOUND + 128) <= score <= SCORE_BOUND + 128 && n <= depth && n <= 64
                && crate::rules::legal_line(old(board).position(), final(board).pv_line@.subrange(0, n as int),
                old(board).keys) && forall|i: int| 0 <= i < n ==> #[trigger] final(board).pv_line[i]
                == crate::principal_variation::table_move_at(final(board), play(old(board).position(), final(
                board).pv_line@.subrange(0, i), old(board).keys)),
            None => final(board).pv_line == old(board).pv_line,
        },
        r is Some ==> root_score(old(board), final(board), config, depth, (r->0).0 as int),
        r is Some && !final(info).table_cut && ab_fits(old(board).position(), old(board).keys, depth as nat,
            config.threefold_null, config.fifty_null) ==> (r->0).0 == ab_result(old(board).position(), old(board).keys,
            depth as nat, config.threefold_null, config.fifty_null, -INF as int, INF as int),
        r is Some && !final(info).table_cut && ab_fits(old(board).position(), old(board).keys, depth as nat,
            config.threefold_null, config.fifty_null) && !ab_exit(old(board).position(), old(board).keys, depth as nat,
            config.threefold_null, config.fifty_null) && -INF < (r->0).0 < INF ==> (r->0).1 >= 1
            && best_move_ok(old(board).position(), old(board).keys, depth, config, final(board).pv_line[0],
            (r->0).0 as int),
        r is None ==> old(info).stopped || old(info).timed,
        !old(info).timed && !old(info).stopped ==> r is Some,
        final(info).timed == old(info).timed,
{
    let ghost p0 = board.position();
    proof {
        crate::model::lemma_count_bounded(p0.squares);
    }
    let score: i32 = alpha_beta(board, info, -INF, INF, depth, config);
    if info.stopped {
        return None;
    }
    let ghost b1 = *board;
    proof {
        lemma_eq_low_facts(b1.position(), p0, 0, b1.keys);
    }
    let n: usize = get_pv_line(board, depth);
    proof {
        lemma_eq_low_trans(board.position(), b1.position(), p0);
        crate::rules::lemma_line_eq_low(b1.position(), p0, board.pv_line@.subrange(0, n as int), b1.keys);
        assert forall|i: int| 0 <= i < n implies #[trigger] board.pv_line[i]
            == crate::principal_variation::table_move_at(&*board, play(p0, board.pv_line@.subrange(0, i), b1.keys)) by {
            let line = board.pv_line@.subrange(0, n as int);
            crate::rules::lemma_line_prefix(b1.position(), line, b1.keys, i);
            assert(line.subrange(0, i) =~= board.pv_line@.subrange(0, i));
            crate::rules::lemma_line_eq_low(b1.position(), p0, board.pv_line@.subrange(0, i), b1.keys);
        }
        let k = b1.keys;
        let tf = config.threefold_null;
        let ff = config.fifty_null;
        if !info.table_cut && ab_fits(p0, k, depth as nat, tf, ff) && !ab_exit(p0, k, depth as nat, tf, ff) && -INF < score
            < INF {
            let bp = b1.position();
            let t = b1.trans_table.entries@[tt_slot(&b1)].action;
            assert(crate::principal_variation::table_move_at(&b1, bp) == t);
            assert(crate::perft::pos_owed_set(p0).len() < 255);
            lemma_pv_first(&b1, bp, p0, k, board.pv_line@, n as int, depth as int, t);
        }
    }
    Some((score, n))
}

/// The principal variation that follows the table starts with the table's
/// move for the root, where that move is legal and the generator lists
/// every move there.
proof fn lemma_pv_first(b1: &BoardStructure, bp: Position, p0: Position, k: ZobristKeys, pv: Seq<usize>, n: int,
    depth: int, t: usize)
    requires
        eq_low(bp, p0),
        p0.history.len() == 1024,
        p0.ply_depth + 1 < 1024,
        crate::perft::legal_move_no(p0, t as int, k),
        crate::perft::pos_owed_set(p0).len() < 255,
        t == crate::principal_variation::table_move_at(b1, bp),
        1 <= depth,
        0 <= n <= 64,
        n <= pv.len(),
        pv.len() == 64,
        forall|i: int| 0 <= i < n ==> #[trigger] pv[i] == crate::principal_variation::table_move_at(b1, play(bp,
            pv.subrange(0, i), k)),
        ({
            let q = play(bp, pv.subrange(0, n), k);
            let u = crate::principal_variation::table_move_at(b1, q);
            n < depth && n < 64 && crate::perft::pos_owed_set(q).len() < 255 ==> u == 0 || !(packed(u) && legal(q, u, k))
        }),
    ensures
        n >= 1,
        pv[0] == t,
{
    assert(pv.subrange(0, 0) =~= Seq::<usize>::empty());
    assert(play(bp, Seq::<usize>::empty(), k) == bp);
    crate::search_value::lemma_legal_eq_low(bp, p0, t, k);
    assert(crate::perft::pos_owed_set(bp) =~= crate::perft::pos_owed_set(p0)) by {
        assert forall|x: int| 0 <= x < 0x2000000 implies #[trigger] gen_move(bp, x as usize) == gen_move(p0, x as usize) by {
            lemma_eq_low_facts(bp, p0, x as usize, k);
        }
    }
    if t == 0 {
        assert(spec_from_sq(0) == 0) by (bit_vector);
        assert(!gen_move(p0, t));
    }
}

/// `best` is a legal move of `p` whose negated value, searched one ply
/// less deep, is the root search's `score`.
pub open spec fn best_move_ok(p: Position, k: ZobristKeys, depth: usize, config: &ConfigInfo, best: usize, score: int)
    -> bool {
    &&& crate::perft::legal_move_no(p, best as int, k)
    &&& -ab_value(make_spec(p, best, k), k, (search_d(p, depth as nat) - 1) as nat, config.threefold_null,
        config.fifty_null) == score
}

/// What one step of the iterative deepening did.
pub enum DeepeningStep {
    /// The search to the step's depth completed: its score, the length of
    /// its principal variation and the best move (the variation's first).
    Searched { score: i32, pv_len: usize, best: usize },
    /// The search was stopped by the clock; the deepening ends.
    Stopped,
    /// The depth limit was passed; the deepening ends.
    Finished,
}

/// One step of the iterative deepening of `tree_search`: past the depth
/// limit the deepening is finished and nothing is searched; else search to
/// `depth` (see `search_iteration`).
pub fn deepening_step(board: &mut BoardStructure, info: &mut SearchInfo, config: &ConfigInfo, depth: usize) -> (r:
    DeepeningStep)
    requires
        kept(old(board), old(board).position()),
        table_ok(old(board)),
        old(board).ply == 0,
        old(board).ply_depth + 64 + pieces_total(old(board).board@) < 1024,
        1 <= depth < usize::MAX,
    ensures
        kept(final(board), old(board).position()),
        table_ok(final(board)),
        final(board).ply == 0,
        final(board).keys == old(board).keys,
        final(info).timed == old(info).timed,
        depth > old(info).depth_lim ==> r is Finished && *final(board) == *old(board) && *final(info) == *old(info),
        depth <= old(info).depth_lim ==> match r {
            DeepeningStep::Searched { score, pv_len, best } => pv_len <= depth && pv_len <= 64 && best
                == final(board).pv_line[0] && root_score(old(board), final(board), config, depth, score as int) && (
                !final(info).table_cut && ab_fits(old(board).position(), old(board).keys, depth as nat,
                config.threefold_null, config.fifty_null) ==> score == ab_result(old(board).position(), old(board).keys,
                depth as nat, config.threefold_null, config.fifty_null, -INF as int, INF as int)) && (!final(
                info).table_cut && ab_fits(old(board).position(), old(board).keys, depth as nat, config.threefold_null,
                config.fifty_null) && !ab_exit(old(board).position(), old(board).keys, depth as nat,
                config.threefold_null, config.fifty_null) && -INF < score < INF ==> pv_len >= 1 && best_move_ok(
                old(board).position(), old(board).keys, depth, config, best, score as int))
                && crate::rules::legal_line(old(board).position(), final(board).pv_line@.subrange(0, pv_len as int),
                old(board).keys) && forall|i: int| 0 <= i < pv_len ==> #[trigger] final(board).pv_line[i]
                == crate::principal_variation::table_move_at(final(board), play(old(board).position(), final(
                board).pv_line@.subrange(0, i), old(board).keys)),
            DeepeningStep::Stopped => old(info).stopped || old(info).timed,
            DeepeningStep::Finished => false,
        },
        depth <= old(info).depth_lim && !old(info).timed && !old(info).stopped ==> r is Searched,
{
    if depth > info.depth_lim {
        return DeepeningStep::Finished;
    }
    match search_iteration(board, info, config, depth) {
        Some((score, n)) => DeepeningStep::Searched { score: score, pv_len: n, best: board.pv_line[0] },
        None => DeepeningStep::Stopped,
    }
}

} // verus!
