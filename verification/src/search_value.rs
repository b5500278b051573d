//! The value the quiescence search computes, defined over positions.

use vstd::prelude::*;
use crate::structs::{BoardStructure, ZobristKeys};
use crate::rules::{
    Position, packed, gen_move, legal, is_capture, make_spec, eq_low, pos_valid, pieces_total, lemma_eq_low_facts,
    lemma_gen_move_ok, lemma_make_total,
};
use crate::evaluation::eval_of;
use crate::rules::{attacked, side_idx, opp};
use crate::statics::MATE;
use crate::perft::legal_move_no;

verus! {

/// Number of the history entries in `from..to` whose key is the current
/// key.
pub open spec fn pos_rep_count(p: Position, from: int, to: int) -> int
    decreases to - from,
{
    if from >= to {
        0
    } else {
        pos_rep_count(p, from, to - 1) + (if p.history[to - 1].pos_key == p.pos_key { 1int } else { 0int })
    }
}

/// A threefold repetition: the position occurred at least twice before
/// since the last capture or pawn move (the one just before it left out).
pub open spec fn pos_repeated(p: Position) -> bool {
    p.ply_depth > 0 && pos_rep_count(p, p.ply_depth - p.fifty_cnt, p.ply_depth - 1) >= 2
}

/// The position is scored without a search: by the threefold repetition
/// (`tf`) or fifty move (`ff`) rule where asked, else when the search is 64
/// half moves deep.
pub open spec fn pos_quiet_exit(p: Position, tf: bool, ff: bool) -> bool {
    if tf {
        pos_repeated(p)
    } else if ff {
        p.fifty_cnt >= 100
    } else {
        p.ply > 63
    }
}

/// The score of such a position: 0 for the rules, the evaluation when too
/// deep.
pub open spec fn exit_value(p: Position, tf: bool, ff: bool) -> int {
    if tf || ff {
        0
    } else {
        eval_of(p)
    }
}

/// `a` is a legal capture of `p` in packed form.
pub open spec fn legal_capture_no(p: Position, a: int, k: ZobristKeys) -> bool {
    &&& 0 <= a < 0x2000000
    &&& packed(a as usize)
    &&& is_capture(a as usize)
    &&& legal(p, a as usize, k)
}

/// A position the engine can search from, with room for a move.
pub open spec fn q_guard(p: Position, k: ZobristKeys) -> bool {
    &&& pos_valid(p, k)
    &&& p.ply_depth < 1023
    &&& p.fifty_cnt <= p.ply_depth
    &&& p.ply <= p.ply_depth
}

/// The quiescence value of `p`: the score of a position scored without a
/// search, else the best of standing pat on the evaluation and of the
/// legal captures, each worth the negated value after it.
pub open spec fn q_value(p: Position, k: ZobristKeys, tf: bool, ff: bool) -> int
    decreases pieces_total(p.squares), 0x2000001int,
{
    if pos_quiet_exit(p, tf, ff) {
        exit_value(p, tf, ff)
    } else {
        q_best(p, k, tf, ff, 0x2000000)
    }
}

/// The best of standing pat and the legal captures below `n`.
pub open spec fn q_best(p: Position, k: ZobristKeys, tf: bool, ff: bool, n: int) -> int
    decreases pieces_total(p.squares), n,
{
    if n <= 0 {
        eval_of(p)
    } else {
        let rest = q_best(p, k, tf, ff, n - 1);
        if q_guard(p, k) && legal_capture_no(p, n - 1, k) {
            proof {
                lemma_gen_move_ok(p, (n - 1) as usize, k);
                lemma_make_total(p, (n - 1) as usize, k);
                crate::model::lemma_count_bounded(make_spec(p, (n - 1) as usize, k).squares);
            }
            let v = -q_value(make_spec(p, (n - 1) as usize, k), k, tf, ff);
            if v > rest {
                v
            } else {
                rest
            }
        } else {
            rest
        }
    }
}

/// The packed pseudo legal captures of `p`, as numbers.
pub open spec fn pos_owed_captures(p: Position) -> Set<int> {
    Set::new(|x: int| 0 <= x < 0x2000000 && packed(x as usize) && gen_move(p, x as usize) && is_capture(x as usize))
}

/// Every position the quiescence search reaches from `p` has fewer than
/// 255 pseudo legal captures, so that the generator lists them all.
pub open spec fn q_fits(p: Position, k: ZobristKeys, tf: bool, ff: bool) -> bool
    decreases pieces_total(p.squares),
{
    pos_quiet_exit(p, tf, ff) || (pos_owed_captures(p).len() < 255 && forall|a: int| #[trigger] legal_capture_no(p, a, k)
        ==> q_guard(p, k) ==> {
        proof {
            lemma_gen_move_ok(p, a as usize, k);
            lemma_make_total(p, a as usize, k);
            crate::model::lemma_count_bounded(make_spec(p, a as usize, k).squares);
        }
        q_fits(make_spec(p, a as usize, k), k, tf, ff)
    })
}

/// The best of `base` and of `w(x)` for the `x` below `n` with `ok(x)`.
#[verifier::opaque]
pub open spec fn range_best(w: spec_fn(int) -> int, ok: spec_fn(int) -> bool, base: int, n: int) -> int
    decreases n,
{
    if n <= 0 {
        base
    } else {
        let r = range_best(w, ok, base, n - 1);
        if ok(n - 1) && w(n - 1) > r {
            w(n - 1)
        } else {
            r
        }
    }
}

/// The best of `base` and of `w(x)` for the elements `x` of `q` with
/// `ok(x)`.
#[verifier::opaque]
pub open spec fn seq_best(w: spec_fn(int) -> int, ok: spec_fn(int) -> bool, base: int, q: Seq<int>) -> int
    decreases q.len(),
{
    if q.len() == 0 {
        base
    } else {
        let r = seq_best(w, ok, base, q.drop_last());
        let x = q.last();
        if ok(x) && w(x) > r {
            w(x)
        } else {
            r
        }
    }
}

/// Bests over the same candidates with the same values agree.
pub proof fn lemma_range_best_ext(w1: spec_fn(int) -> int, ok1: spec_fn(int) -> bool, w2: spec_fn(int) -> int,
    ok2: spec_fn(int) -> bool, base: int, n: int)
    requires
        forall|x: int| 0 <= x < n ==> #[trigger] ok1(x) == ok2(x),
        forall|x: int| 0 <= x < n && ok1(x) ==> #[trigger] w1(x) == w2(x),
    ensures
        range_best(w1, ok1, base, n) == range_best(w2, ok2, base, n),
    decreases n,
{
    reveal(range_best);
    reveal(seq_best);
    if n > 0 {
        lemma_range_best_ext(w1, ok1, w2, ok2, base, n - 1);
        assert(ok1(n - 1) == ok2(n - 1));
        if ok1(n - 1) {
            assert(w1(n - 1) == w2(n - 1));
        }
    }
}

/// One more candidate: the best of the old best and its value.
pub proof fn lemma_range_best_point(w: spec_fn(int) -> int, ok1: spec_fn(int) -> bool, ok2: spec_fn(int) -> bool, base: int,
    x: int, n: int)
    requires
        0 <= x < n,
        !ok1(x),
        ok2(x),
        forall|y: int| 0 <= y < n && y != x ==> #[trigger] ok1(y) == ok2(y),
    ensures
        range_best(w, ok2, base, n) == (if w(x) > range_best(w, ok1, base, n) { w(x) } else { range_best(w, ok1, base, n) }),
    decreases n,
{
    reveal(range_best);
    reveal(seq_best);
    if n - 1 == x {
        lemma_range_best_ext(w, ok1, w, ok2, base, n - 1);
    } else {
        lemma_range_best_point(w, ok1, ok2, base, x, n - 1);
        assert(ok1(n - 1) == ok2(n - 1));
    }
}

/// The best over a sequence without repeats below `n` is the best over
/// `0..n` of what it holds.
pub proof fn lemma_seq_best_range(w: spec_fn(int) -> int, ok: spec_fn(int) -> bool, okq: spec_fn(int) -> bool, base: int,
    q: Seq<int>, n: int)
    requires
        q.no_duplicates(),
        forall|i: int| 0 <= i < q.len() ==> 0 <= #[trigger] q[i] < n,
        forall|x: int| 0 <= x < n ==> #[trigger] okq(x) == (ok(x) && q.contains(x)),
    ensures
        seq_best(w, ok, base, q) == range_best(w, okq, base, n),
    decreases q.len(),
{
    reveal(range_best);
    reveal(seq_best);
    if q.len() == 0 {
        let none = |x: int| false;
        lemma_range_best_ext(w, okq, w, none, base, n);
        lemma_range_best_none(w, base, n);
    } else {
        let r = q.drop_last();
        let x = q.last();
        let okr = |y: int| ok(y) && r.contains(y);
        assert forall|i: int, j: int| 0 <= i < r.len() && 0 <= j < r.len() && i != j implies r[i] != r[j] by {
            assert(q[i] != q[j]);
        }
        assert forall|i: int| 0 <= i < r.len() implies 0 <= #[trigger] r[i] < n by {
            assert(r[i] == q[i]);
        }
        lemma_seq_best_range(w, ok, okr, base, r, n);
        assert(!r.contains(x)) by {
            if r.contains(x) {
                let i = choose|i: int| 0 <= i < r.len() && r[i] == x;
                assert(q[i] == q[q.len() - 1]);
            }
        }
        assert forall|y: int| 0 <= y < n && y != x implies #[trigger] okr(y) == okq(y) by {
            if q.contains(y) {
                let i = choose|i: int| 0 <= i < q.len() && q[i] == y;
                assert(i < q.len() - 1);
                assert(r[i] == y);
            }
            if r.contains(y) {
                let i = choose|i: int| 0 <= i < r.len() && r[i] == y;
                assert(q[i] == y);
            }
        }
        assert(q[q.len() - 1] == x);
        assert(q.contains(x));
        if ok(x) {
            lemma_range_best_point(w, okr, okq, base, x, n);
        } else {
            lemma_range_best_ext(w, okr, w, okq, base, n);
        }
    }
}

/// With no candidate the best is the base.
pub proof fn lemma_range_best_none(w: spec_fn(int) -> int, base: int, n: int)
    ensures
        range_best(w, |x: int| false, base, n) == base,
    decreases n,
{
    reveal(range_best);
    reveal(seq_best);
    if n > 0 {
        lemma_range_best_none(w, base, n - 1);
    }
}

/// `q_best` is the best over `0..n` of the legal captures' values.
pub proof fn lemma_q_best_range(p: Position, k: ZobristKeys, tf: bool, ff: bool, n: int, w: spec_fn(int) -> int,
    ok: spec_fn(int) -> bool)
    requires
        forall|x: int| 0 <= x < n ==> #[trigger] ok(x) == (q_guard(p, k) && legal_capture_no(p, x, k)),
        forall|x: int| 0 <= x < n && ok(x) ==> #[trigger] w(x) == -q_value(make_spec(p, x as usize, k), k, tf, ff),
    ensures
        q_best(p, k, tf, ff, n) == range_best(w, ok, eval_of(p), n),
    decreases n,
{
    reveal(range_best);
    reveal(seq_best);
    if n > 0 {
        lemma_q_best_range(p, k, tf, ff, n - 1, w, ok);
        assert(ok(n - 1) == (q_guard(p, k) && legal_capture_no(p, n - 1, k)));
        if ok(n - 1) {
            assert(w(n - 1) == -q_value(make_spec(p, (n - 1) as usize, k), k, tf, ff));
        }
    }
}

/// A move is legal alike in positions that differ only in scratch history.
pub proof fn lemma_legal_eq_low(q: Position, p: Position, a: usize, k: ZobristKeys)
    requires
        eq_low(q, p),
        p.history.len() == 1024,
        p.ply_depth + 1 < 1024,
    ensures
        legal(q, a, k) == legal(p, a, k),
        gen_move(q, a) == gen_move(p, a),
{
    lemma_eq_low_facts(q, p, a, k);
    let mq = make_spec(q, a, k);
    let mp = make_spec(p, a, k);
    assert(mp.history.len() == 1024);
    lemma_eq_low_facts(mq, mp, a, k);
}

/// Repetition counts agree below the ply depth.
pub proof fn lemma_rep_eq_low(q: Position, p: Position, from: int, to: int)
    requires
        eq_low(q, p),
        0 <= from,
        to <= p.ply_depth,
        p.ply_depth <= p.history.len(),
    ensures
        pos_rep_count(q, from, to) == pos_rep_count(p, from, to),
    decreases to - from,
{
    if from < to {
        lemma_rep_eq_low(q, p, from, to - 1);
        assert(q.history[to - 1] == p.history[to - 1]);
    }
}

/// Positions that differ only in scratch history have the same
/// quiescence value, exit and fit alike.
pub proof fn lemma_q_eq_low(q: Position, p: Position, k: ZobristKeys, tf: bool, ff: bool)
    requires
        eq_low(q, p),
        p.history.len() == 1024,
        p.ply_depth < 1024,
        p.fifty_cnt <= p.ply_depth,
    ensures
        q_value(q, k, tf, ff) == q_value(p, k, tf, ff),
        q_fits(q, k, tf, ff) == q_fits(p, k, tf, ff),
        pos_quiet_exit(q, tf, ff) == pos_quiet_exit(p, tf, ff),
        eval_of(q) == eval_of(p),
        q_guard(q, k) == q_guard(p, k),
    decreases pieces_total(p.squares), 0x2000001int,
{
    lemma_eq_low_facts(q, p, 0, k);
    if p.ply_depth > 0 {
        lemma_rep_eq_low(q, p, p.ply_depth - p.fifty_cnt, p.ply_depth - 1);
    }
    assert(pos_quiet_exit(q, tf, ff) == pos_quiet_exit(p, tf, ff));
    if !pos_quiet_exit(p, tf, ff) {
        lemma_q_best_eq_low(q, p, k, tf, ff, 0x2000000);
        assert(pos_owed_captures(q) =~= pos_owed_captures(p)) by {
            assert forall|x: int| 0 <= x < 0x2000000 implies #[trigger] gen_move(q, x as usize) == gen_move(p, x as usize) by {
                lemma_eq_low_facts(q, p, x as usize, k);
            }
        }
        if q_guard(p, k) {
            assert forall|a: int| #[trigger] legal_capture_no(p, a, k) implies q_fits(make_spec(q, a as usize, k), k, tf, ff)
                == q_fits(make_spec(p, a as usize, k), k, tf, ff) by {
                lemma_gen_move_ok(p, a as usize, k);
                lemma_make_total(p, a as usize, k);
                crate::model::lemma_count_bounded(make_spec(p, a as usize, k).squares);
                lemma_eq_low_facts(q, p, a as usize, k);
                lemma_q_eq_low(make_spec(q, a as usize, k), make_spec(p, a as usize, k), k, tf, ff);
            }
            assert forall|a: int| #[trigger] legal_capture_no(q, a, k) == legal_capture_no(p, a, k) by {
                lemma_legal_eq_low(q, p, a as usize, k);
            }
            if forall|a: int| #[trigger] legal_capture_no(p, a, k) ==> q_guard(p, k) ==> q_fits(make_spec(p, a as usize, k),
                k, tf, ff) {
                assert forall|a: int| #[trigger] legal_capture_no(q, a, k) && q_guard(q, k) implies q_fits(make_spec(q,
                    a as usize, k), k, tf, ff) by {
                    assert(legal_capture_no(p, a, k));
                }
            }
            if forall|a: int| #[trigger] legal_capture_no(q, a, k) ==> q_guard(q, k) ==> q_fits(make_spec(q, a as usize, k),
                k, tf, ff) {
                assert forall|a: int| #[trigger] legal_capture_no(p, a, k) && q_guard(p, k) implies q_fits(make_spec(p,
                    a as usize, k), k, tf, ff) by {
                    assert(legal_capture_no(q, a, k));
                }
            }
        }
    }
}

/// The partial bests agree too.
pub proof fn lemma_q_best_eq_low(q: Position, p: Position, k: ZobristKeys, tf: bool, ff: bool, n: int)
    requires
        eq_low(q, p),
        p.history.len() == 1024,
        p.ply_depth < 1024,
        p.fifty_cnt <= p.ply_depth,
    ensures
        q_best(q, k, tf, ff, n) == q_best(p, k, tf, ff, n),
    decreases pieces_total(p.squares), n,
{
    lemma_eq_low_facts(q, p, 0, k);
    if n > 0 {
        lemma_q_best_eq_low(q, p, k, tf, ff, n - 1);
        if q_guard(p, k) {
            lemma_legal_eq_low(q, p, (n - 1) as usize, k);
            if legal_capture_no(p, n - 1, k) {
                lemma_gen_move_ok(p, (n - 1) as usize, k);
                lemma_make_total(p, (n - 1) as usize, k);
                crate::model::lemma_count_bounded(make_spec(p, (n - 1) as usize, k).squares);
                lemma_eq_low_facts(q, p, (n - 1) as usize, k);
                lemma_q_eq_low(make_spec(q, (n - 1) as usize, k), make_spec(p, (n - 1) as usize, k), k, tf, ff);
            }
        }
    }
}

/// `v` within `lo..=hi`.
pub open spec fn clamp(v: int, lo: int, hi: int) -> int {
    if v < lo {
        lo
    } else if v > hi {
        hi
    } else {
        v
    }
}

/// What a fail-hard search answers for a position of value `v` with the
/// window `lo..=hi`: `v` itself where the position is scored without a
/// search, else `v` clamped to the window.
pub open spec fn q_result(v: int, exit: bool, lo: int, hi: int) -> int {
    if exit {
        v
    } else {
        clamp(v, lo, hi)
    }
}

/// The best is at least the base and each candidate's value.
pub proof fn lemma_range_best_ge(w: spec_fn(int) -> int, ok: spec_fn(int) -> bool, base: int, n: int, x: int)
    ensures
        range_best(w, ok, base, n) >= base,
        0 <= x < n && ok(x) ==> range_best(w, ok, base, n) >= w(x),
    decreases n,
{
    reveal(range_best);
    reveal(seq_best);
    if n > 0 {
        lemma_range_best_ge(w, ok, base, n - 1, x);
    }
}

/// The actions of the first `n` moves of a list, as numbers.
pub open spec fn prefix_actions(l: crate::structs::MoveListStructure, n: int) -> Seq<int> {
    Seq::new(n as nat, |i: int| l.moves[i].action as int)
}

/// One step of a fail-hard search at a legal move of value `x` answered
/// `score` (exactly, or clamped to the window `alpha_i..=beta`), where the
/// best so far is `m` and `alpha_i` is `m` raised to the first `alpha0`:
/// a cutoff exactly when the move's value reaches `beta`, a raised alpha
/// exactly when it lies strictly inside the window.
pub proof fn lemma_fail_hard_step(alpha0: int, beta: int, m: int, x: int, child: int, exit: bool, alpha_i: int)
    requires
        alpha0 < beta,
        m < beta,
        alpha_i == (if m > alpha0 { m } else { alpha0 }),
        child == q_result(-x, exit, -beta, -alpha_i),
    ensures
        -child > alpha_i && -child >= beta ==> x >= beta,
        -child > alpha_i && -child < beta ==> -child == x && x > m && x > alpha0,
        -child <= alpha_i ==> x <= alpha_i,
{
}

/// The best of a prefix one longer.
pub proof fn lemma_seq_best_push(w: spec_fn(int) -> int, ok: spec_fn(int) -> bool, base: int, q: Seq<int>, pre: Seq<int>,
    x: int)
    requires
        q.len() > 0,
        q.drop_last() == pre,
        q.last() == x,
    ensures
        seq_best(w, ok, base, q) == (if ok(x) && w(x) > seq_best(w, ok, base, pre) { w(x) } else { seq_best(w, ok, base, pre) }),
{
    reveal(range_best);
    reveal(seq_best);
}

/// A valid position holds both kings.
pub proof fn lemma_total_kings(p: Position, k: ZobristKeys)
    requires
        pos_valid(p, k),
    ensures
        pieces_total(p.squares) >= 2,
{
    let s = p.squares;
    crate::model::lemma_count_bounded(s);
    crate::model::lemma_sum_ge_one(s, 120, p.king_sqs[0] as int, crate::model::ind(6));
    crate::model::lemma_sum_ge_one(s, 120, p.king_sqs[1] as int, crate::model::ind(12));
}

/// Over no candidates the best is the base.
pub proof fn lemma_seq_best_empty(w: spec_fn(int) -> int, ok: spec_fn(int) -> bool, base: int, q: Seq<int>)
    requires
        q.len() == 0,
    ensures
        seq_best(w, ok, base, q) == base,
{
    reveal(seq_best);
}

/// The side to move in `p` is in check.
pub open spec fn pos_in_check(p: Position) -> bool {
    attacked(p.squares, p.king_sqs[side_idx(p.side)] as int, opp(p.side))
}

/// `p` has a legal move.
pub open spec fn has_legal_move(p: Position, k: ZobristKeys) -> bool {
    exists|x: int| #[trigger] legal_move_no(p, x, k)
}

/// How deep the moves of `p` are searched for a requested depth: one ply
/// more in check.
pub open spec fn search_d(p: Position, depth: nat) -> nat {
    if pos_in_check(p) {
        depth + 1
    } else {
        depth
    }
}

/// A score below every score of a position, where the best of the moves
/// starts.
pub open spec fn ab_base() -> int {
    -0x1_0000_0000
}

/// The mate or stalemate score of a position without a legal move.
pub open spec fn mate_value(p: Position) -> int {
    if pos_in_check(p) {
        -MATE + p.ply
    } else {
        0
    }
}

/// The position is scored without looking at its moves at this depth:
/// the quiescence exits at depth 0; else the repetition or fifty move rule
/// where asked, more than 63 half moves into the search, or no legal move.
pub open spec fn ab_exit(p: Position, k: ZobristKeys, depth: nat, tf: bool, ff: bool) -> bool {
    if depth == 0 {
        pos_quiet_exit(p, tf, ff)
    } else {
        (tf && pos_repeated(p)) || (!tf && ff && p.fifty_cnt >= 100) || p.ply > 63 || !has_legal_move(p, k)
    }
}

/// The negamax value of `p` searched to `depth`: the quiescence value at
/// depth 0; 0 for a repetition or the fifty move rule where asked; the
/// evaluation past 63 half moves into the search; the mate or stalemate
/// score without a legal move; else the best over the legal moves of the
/// negated value after the move, searched one ply less (the moves of a
/// position in check one ply deeper).
pub open spec fn ab_value(p: Position, k: ZobristKeys, depth: nat, tf: bool, ff: bool) -> int
    decreases 64 - p.ply, 0x2000001int,
{
    if depth == 0 {
        q_value(p, k, tf, ff)
    } else if tf && pos_repeated(p) {
        0
    } else if !tf && ff && p.fifty_cnt >= 100 {
        0
    } else if p.ply > 63 {
        eval_of(p)
    } else if !has_legal_move(p, k) {
        mate_value(p)
    } else {
        ab_best(p, k, search_d(p, depth), tf, ff, 0x2000000)
    }
}

/// The best over the legal moves below `n` of the negated value after the
/// move, searched to `d - 1`.
pub open spec fn ab_best(p: Position, k: ZobristKeys, d: nat, tf: bool, ff: bool, n: int) -> int
    decreases 64 - p.ply, n,
{
    if n <= 0 || p.ply > 63 {
        ab_base()
    } else {
        let rest = ab_best(p, k, d, tf, ff, n - 1);
        if q_guard(p, k) && legal_move_no(p, n - 1, k) {
            let v = -ab_value(make_spec(p, (n - 1) as usize, k), k, (d - 1) as nat, tf, ff);
            if v > rest {
                v
            } else {
                rest
            }
        } else {
            rest
        }
    }
}

/// What the fail-hard search of `p` to `depth` answers with the window
/// `lo..=hi`: the value itself where the position is scored without
/// looking at its moves, else the value clamped to the window.
pub open spec fn ab_result(p: Position, k: ZobristKeys, depth: nat, tf: bool, ff: bool, lo: int, hi: int) -> int {
    q_result(ab_value(p, k, depth, tf, ff), ab_exit(p, k, depth, tf, ff), lo, hi)
}

/// Every position the search of `p` to `depth` looks at has fewer than 255
/// pseudo legal moves (captures, in the quiescence search), so that the
/// generators list them all.
pub open spec fn ab_fits(p: Position, k: ZobristKeys, depth: nat, tf: bool, ff: bool) -> bool
    decreases 64 - p.ply,
{
    if depth == 0 {
        q_fits(p, k, tf, ff)
    } else if (tf && pos_repeated(p)) || (!tf && ff && p.fifty_cnt >= 100) || p.ply > 63 {
        true
    } else {
        &&& crate::perft::pos_owed_set(p).len() < 255
        &&& forall|a: int| #[trigger] legal_move_no(p, a, k) ==> q_guard(p, k) ==> ab_fits(
            make_spec(p, a as usize, k),
            k,
            (search_d(p, depth) - 1) as nat,
            tf,
            ff,
        )
    }
}

/// `ab_best` is the best over `0..n` of the legal moves' values.
pub proof fn lemma_ab_best_range(p: Position, k: ZobristKeys, d: nat, tf: bool, ff: bool, n: int, w: spec_fn(int) -> int,
    ok: spec_fn(int) -> bool)
    requires
        p.ply <= 63,
        forall|x: int| 0 <= x < n ==> #[trigger] ok(x) == (q_guard(p, k) && legal_move_no(p, x, k)),
        forall|x: int| 0 <= x < n && ok(x) ==> #[trigger] w(x) == -ab_value(make_spec(p, x as usize, k), k, (d - 1) as nat,
            tf, ff),
    ensures
        ab_best(p, k, d, tf, ff, n) == range_best(w, ok, ab_base(), n),
    decreases n,
{
    reveal(range_best);
    reveal(seq_best);
    if n > 0 {
        lemma_ab_best_range(p, k, d, tf, ff, n - 1, w, ok);
        assert(ok(n - 1) == (q_guard(p, k) && legal_move_no(p, n - 1, k)));
        if ok(n - 1) {
            assert(w(n - 1) == -ab_value(make_spec(p, (n - 1) as usize, k), k, (d - 1) as nat, tf, ff));
        }
    }
}

/// A higher base: the best of it and the best from the lower base.
pub proof fn lemma_range_best_base(w: spec_fn(int) -> int, ok: spec_fn(int) -> bool, b1: int, b2: int, n: int)
    requires
        b1 <= b2,
    ensures
        range_best(w, ok, b2, n) == (if range_best(w, ok, b1, n) > b2 { range_best(w, ok, b1, n) } else { b2 }),
    decreases n,
{
    reveal(range_best);
    if n > 0 {
        lemma_range_best_base(w, ok, b1, b2, n - 1);
    }
}

/// Positions that differ only in scratch history have the same legal
/// moves.
pub proof fn lemma_moves_eq_low(q: Position, p: Position, k: ZobristKeys)
    requires
        eq_low(q, p),
        p.history.len() == 1024,
        p.ply_depth + 1 < 1024,
    ensures
        forall|a: int| #[trigger] legal_move_no(q, a, k) == legal_move_no(p, a, k),
        has_legal_move(q, k) == has_legal_move(p, k),
{
    assert forall|a: int| #[trigger] legal_move_no(q, a, k) == legal_move_no(p, a, k) by {
        lemma_legal_eq_low(q, p, a as usize, k);
    }
    if has_legal_move(p, k) {
        let x = choose|x: int| #[trigger] legal_move_no(p, x, k);
        assert(legal_move_no(q, x, k));
    }
    if has_legal_move(q, k) {
        let x = choose|x: int| #[trigger] legal_move_no(q, x, k);
        assert(legal_move_no(p, x, k));
    }
}

/// The search values agree for positions that differ only in scratch
/// history.
#[verifier::rlimit(50)]
pub proof fn lemma_ab_eq_low(q: Position, p: Position, k: ZobristKeys, depth: nat, tf: bool, ff: bool)
    requires
        eq_low(q, p),
        p.history.len() == 1024,
        p.ply <= 64,
        p.ply_depth + (64 - p.ply) < 1024,
        p.fifty_cnt <= p.ply_depth,
    ensures
        ab_value(q, k, depth, tf, ff) == ab_value(p, k, depth, tf, ff),
        ab_fits(q, k, depth, tf, ff) == ab_fits(p, k, depth, tf, ff),
        ab_exit(q, k, depth, tf, ff) == ab_exit(p, k, depth, tf, ff),
        pos_in_check(q) == pos_in_check(p),
        p.ply <= 63 ==> has_legal_move(q, k) == has_legal_move(p, k),
    decreases 64 - p.ply, 0x2000001int,
{
    lemma_eq_low_facts(q, p, 0, k);
    lemma_q_eq_low(q, p, k, tf, ff);
    if p.ply_depth > 0 {
        lemma_rep_eq_low(q, p, p.ply_depth - p.fifty_cnt, p.ply_depth - 1);
    }
    if p.ply <= 63 {
        lemma_moves_eq_low(q, p, k);
    }
    if depth > 0 && !((tf && pos_repeated(p)) || (!tf && ff && p.fifty_cnt >= 100) || p.ply > 63) {
        let d = search_d(p, depth);
        lemma_ab_best_eq_low(q, p, k, d, tf, ff, 0x2000000);
        assert(crate::perft::pos_owed_set(q) =~= crate::perft::pos_owed_set(p)) by {
            assert forall|x: int| 0 <= x < 0x2000000 implies #[trigger] gen_move(q, x as usize) == gen_move(p, x as usize) by {
                lemma_eq_low_facts(q, p, x as usize, k);
            }
        }
        if q_guard(p, k) {
            assert forall|a: int| #[trigger] legal_move_no(p, a, k) implies ab_fits(make_spec(q, a as usize, k), k, (d - 1) as nat,
                tf, ff) == ab_fits(make_spec(p, a as usize, k), k, (d - 1) as nat, tf, ff) by {
                lemma_gen_move_ok(p, a as usize, k);
                lemma_eq_low_facts(q, p, a as usize, k);
                lemma_ab_eq_low(make_spec(q, a as usize, k), make_spec(p, a as usize, k), k, (d - 1) as nat, tf, ff);
            }
            if forall|a: int| #[trigger] legal_move_no(p, a, k) ==> q_guard(p, k) ==> ab_fits(make_spec(p, a as usize, k), k,
                (d - 1) as nat, tf, ff) {
                assert forall|a: int| #[trigger] legal_move_no(q, a, k) && q_guard(q, k) implies ab_fits(make_spec(q,
                    a as usize, k), k, (d - 1) as nat, tf, ff) by {
                    assert(legal_move_no(p, a, k));
                }
            }
            if forall|a: int| #[trigger] legal_move_no(q, a, k) ==> q_guard(q, k) ==> ab_fits(make_spec(q, a as usize, k), k,
                (d - 1) as nat, tf, ff) {
                assert forall|a: int| #[trigger] legal_move_no(p, a, k) && q_guard(p, k) implies ab_fits(make_spec(p,
                    a as usize, k), k, (d - 1) as nat, tf, ff) by {
                    assert(legal_move_no(q, a, k));
                }
            }
        }
    }
}

/// The partial bests agree too.
pub proof fn lemma_ab_best_eq_low(q: Position, p: Position, k: ZobristKeys, d: nat, tf: bool, ff: bool, n: int)
    requires
        eq_low(q, p),
        p.history.len() == 1024,
        p.ply <= 64,
        p.ply_depth + (64 - p.ply) < 1024,
        p.fifty_cnt <= p.ply_depth,
    ensures
        ab_best(q, k, d, tf, ff, n) == ab_best(p, k, d, tf, ff, n),
    decreases 64 - p.ply, n,
{
    lemma_eq_low_facts(q, p, 0, k);
    if n > 0 && p.ply <= 63 {
        lemma_ab_best_eq_low(q, p, k, d, tf, ff, n - 1);
        lemma_q_eq_low(q, p, k, tf, ff);
        if q_guard(p, k) {
            lemma_legal_eq_low(q, p, (n - 1) as usize, k);
            if legal_move_no(p, n - 1, k) {
                lemma_gen_move_ok(p, (n - 1) as usize, k);
                lemma_eq_low_facts(q, p, (n - 1) as usize, k);
                lemma_ab_eq_low(make_spec(q, (n - 1) as usize, k), make_spec(p, (n - 1) as usize, k), k, (d - 1) as nat,
                    tf, ff);
            }
        }
    }
}

/// The search of a legal move's position fits where the search of the
/// position does.
pub proof fn lemma_fits_child(p: Position, k: ZobristKeys, depth: nat, tf: bool, ff: bool, a: int)
    requires
        depth > 0,
        !((tf && pos_repeated(p)) || (!tf && ff && p.fifty_cnt >= 100) || p.ply > 63),
        ab_fits(p, k, depth, tf, ff),
        legal_move_no(p, a, k),
        q_guard(p, k),
    ensures
        ab_fits(make_spec(p, a as usize, k), k, (search_d(p, depth) - 1) as nat, tf, ff),
        crate::perft::pos_owed_set(p).len() < 255,
{
}

} // verus!
