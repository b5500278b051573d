//! The mathematical model of a board: sums over its squares, the Zobrist
//! hash as a function of the position, and the invariants that tie the
//! redundant parts of a `BoardStructure` (piece lists, pawn bitboards,
//! material counters, key) to the squares.

use vstd::prelude::*;
use crate::statics::{
    Pieces, Players, on_board, spec_color, spec_value, spec_is_big, spec_is_min, spec_is_maj,
    spec_small_to_big, spec_big_to_small, is_real,
};
use crate::structs::{BoardStructure, ZobristKeys};
use crate::bitboards::bit_set;

verus! {

/// Sum of `h` over `0..n`.
pub open spec fn range_sum(h: spec_fn(int) -> int, n: int) -> int
    decreases n,
{
    if n <= 0 {
        0
    } else {
        range_sum(h, n - 1) + h(n - 1)
    }
}

/// Sum of `h` over the elements of `q`.
pub open spec fn seq_sum(h: spec_fn(int) -> int, q: Seq<int>) -> int
    decreases q.len(),
{
    if q.len() == 0 {
        0
    } else {
        seq_sum(h, q.drop_last()) + h(q.last())
    }
}

/// Sums of functions that agree on `0..n` agree.
pub proof fn lemma_range_sum_ext(f: spec_fn(int) -> int, g: spec_fn(int) -> int, n: int)
    requires
        forall|a: int| 0 <= a < n ==> #[trigger] f(a) == g(a),
    ensures
        range_sum(f, n) == range_sum(g, n),
    decreases n,
{
    if n > 0 {
        lemma_range_sum_ext(f, g, n - 1);
    }
}

/// A function that exceeds another by `c` at `x` alone sums to `c` more.
pub proof fn lemma_range_sum_point(f: spec_fn(int) -> int, g: spec_fn(int) -> int, x: int, c: int, n: int)
    requires
        0 <= x < n,
        forall|a: int| 0 <= a < n ==> #[trigger] f(a) == g(a) + (if a == x { c } else { 0 }),
    ensures
        range_sum(f, n) == range_sum(g, n) + c,
    decreases n,
{
    if n - 1 == x {
        lemma_range_sum_ext(f, g, n - 1);
    } else {
        lemma_range_sum_point(f, g, x, c, n - 1);
    }
}

/// Summing over a sequence without repeats below `n` is summing over
/// `0..n` what the sequence holds.
pub proof fn lemma_seq_sum_range(h: spec_fn(int) -> int, f: spec_fn(int) -> int, q: Seq<int>, n: int)
    requires
        q.no_duplicates(),
        forall|i: int| 0 <= i < q.len() ==> 0 <= #[trigger] q[i] < n,
        forall|a: int| 0 <= a < n ==> #[trigger] f(a) == (if q.contains(a) { h(a) } else { 0 }),
    ensures
        seq_sum(h, q) == range_sum(f, n),
    decreases q.len(),
{
    if q.len() == 0 {
        lemma_range_sum_ext(f, |a: int| 0, n);
        lemma_range_sum_zero(n);
    } else {
        let r = q.drop_last();
        let x = q.last();
        let g = |a: int| if r.contains(a) { h(a) } else { 0 };
        assert forall|i: int, j: int| 0 <= i < r.len() && 0 <= j < r.len() && i != j implies r[i] != r[j] by {
            assert(q[i] != q[j]);
        }
        assert forall|i: int| 0 <= i < r.len() implies 0 <= #[trigger] r[i] < n by {
            assert(r[i] == q[i]);
        }
        lemma_seq_sum_range(h, g, r, n);
        assert forall|a: int| 0 <= a < n implies #[trigger] f(a) == g(a) + (if a == x { h(x) } else { 0 }) by {
            if a == x {
                assert(q[q.len() - 1] == x);
                assert(!r.contains(x)) by {
                    if r.contains(x) {
                        let i = choose|i: int| 0 <= i < r.len() && r[i] == x;
                        assert(q[i] == q[q.len() - 1]);
                    }
                }
            } else {
                if q.contains(a) {
                    let i = choose|i: int| 0 <= i < q.len() && q[i] == a;
                    assert(i < q.len() - 1);
                    assert(r[i] == a);
                }
                if r.contains(a) {
                    let i = choose|i: int| 0 <= i < r.len() && r[i] == a;
                    assert(q[i] == a);
                }
            }
        }
        lemma_range_sum_point(f, g, x, h(x), n);
    }
}

/// The sum of zeros is zero.
pub proof fn lemma_range_sum_zero(n: int)
    ensures
        range_sum(|a: int| 0, n) == 0,
    decreases n,
{
    if n > 0 {
        lemma_range_sum_zero(n - 1);
    }
}

/// A sum of counts is never negative.
pub proof fn lemma_seq_sum_nonneg(h: spec_fn(int) -> int, q: Seq<int>)
    requires
        forall|a: int| #[trigger] h(a) >= 0,
    ensures
        seq_sum(h, q) >= 0,
    decreases q.len(),
{
    if q.len() > 0 {
        lemma_seq_sum_nonneg(h, q.drop_last());
    }
}


/// Sum of `f` over the pieces on the first `n` squares.
pub open spec fn sum_pieces(s: Seq<Pieces>, n: int, f: spec_fn(usize) -> int) -> int
    decreases n,
{
    if n <= 0 {
        0
    } else {
        sum_pieces(s, n - 1, f) + f(s[n - 1] as usize)
    }
}

pub proof fn lemma_sum_update(s: Seq<Pieces>, n: int, i: int, v: Pieces, f: spec_fn(usize) -> int)
    requires
        0 <= i < s.len(),
        n <= s.len(),
    ensures
        sum_pieces(s.update(i, v), n, f) == sum_pieces(s, n, f) + (if 0 <= i < n {
            f(v as usize) - f(s[i] as usize)
        } else {
            0
        }),
    decreases n,
{
    if n > 0 {
        lemma_sum_update(s, n - 1, i, v, f);
    }
}

pub proof fn lemma_sum_bounds(s: Seq<Pieces>, n: int, f: spec_fn(usize) -> int, k: int)
    requires
        0 <= n,
        k >= 0,
        forall|p: usize| 0 <= #[trigger] f(p) <= k,
    ensures
        0 <= sum_pieces(s, n, f) <= n * k,
    decreases n,
{
    if n > 0 {
        lemma_sum_bounds(s, n - 1, f, k);
        assert((n - 1) * k + k == n * k) by (nonlinear_arith);
        assert(0 <= f(s[n - 1] as usize) <= k);
    }
}

pub proof fn lemma_sum_ge_one(s: Seq<Pieces>, n: int, i: int, f: spec_fn(usize) -> int)
    requires
        0 <= i < n <= s.len(),
        forall|p: usize| 0 <= #[trigger] f(p),
    ensures
        sum_pieces(s, n, f) >= f(s[i] as usize),
    decreases n,
{
    if i < n - 1 {
        lemma_sum_ge_one(s, n - 1, i, f);
        assert(f(s[n - 1] as usize) >= 0);
    } else {
        lemma_sum_nonneg(s, n - 1, f);
    }
}

pub proof fn lemma_sum_nonneg(s: Seq<Pieces>, n: int, f: spec_fn(usize) -> int)
    requires
        forall|p: usize| 0 <= #[trigger] f(p),
    ensures
        sum_pieces(s, n, f) >= 0,
    decreases n,
{
    if n > 0 {
        lemma_sum_nonneg(s, n - 1, f);
        assert(f(s[n - 1] as usize) >= 0);
    }
}

/// The counters are bounded by the number of squares.
pub proof fn lemma_counts_bounded(s: Seq<Pieces>)
    ensures
        forall|c: Players| 0 <= #[trigger] sum_pieces(s, 120, mat_f(c)) <= 120 * 50000,
        forall|c: Players| 0 <= #[trigger] sum_pieces(s, 120, big_f(c)) <= 120,
        forall|c: Players| 0 <= #[trigger] sum_pieces(s, 120, min_f(c)) <= 120,
        forall|c: Players| 0 <= #[trigger] sum_pieces(s, 120, maj_f(c)) <= 120,
{
    assert forall|c: Players| 0 <= #[trigger] sum_pieces(s, 120, mat_f(c)) <= 120 * 50000 by {
        lemma_sum_bounds(s, 120, mat_f(c), 50000);
    }
    assert forall|c: Players| 0 <= #[trigger] sum_pieces(s, 120, big_f(c)) <= 120 by {
        lemma_sum_bounds(s, 120, big_f(c), 1);
    }
    assert forall|c: Players| 0 <= #[trigger] sum_pieces(s, 120, min_f(c)) <= 120 by {
        lemma_sum_bounds(s, 120, min_f(c), 1);
    }
    assert forall|c: Players| 0 <= #[trigger] sum_pieces(s, 120, maj_f(c)) <= 120 by {
        lemma_sum_bounds(s, 120, maj_f(c), 1);
    }
}

pub open spec fn mat_f(c: Players) -> spec_fn(usize) -> int {
    |p: usize| if spec_color(p) == c { spec_value(p) as int } else { 0 }
}

pub open spec fn big_f(c: Players) -> spec_fn(usize) -> int {
    |p: usize| if spec_color(p) == c && spec_is_big(p) { 1 } else { 0 }
}

pub open spec fn min_f(c: Players) -> spec_fn(usize) -> int {
    |p: usize| if spec_color(p) == c && spec_is_min(p) { 1 } else { 0 }
}

pub open spec fn maj_f(c: Players) -> spec_fn(usize) -> int {
    |p: usize| if spec_color(p) == c && spec_is_maj(p) { 1 } else { 0 }
}

/// Key of piece `p` on square `sq`: 0 for `Empty` and `OffLimits`.
pub open spec fn pkey(k: ZobristKeys, sq: int, p: usize) -> u64 {
    if is_real(p) {
        k.piece_keys[sq][p as int]
    } else {
        0
    }
}

/// Xor of the keys of the pieces on the first `n` squares.
pub open spec fn piece_hash(s: Seq<Pieces>, k: ZobristKeys, n: int) -> u64
    decreases n,
{
    if n <= 0 {
        0
    } else {
        piece_hash(s, k, n - 1) ^ pkey(k, n - 1, s[n - 1] as usize)
    }
}

pub proof fn lemma_xor_swap(a: u64, b: u64, c: u64)
    ensures
        (a ^ b) ^ c == (a ^ c) ^ b,
        (a ^ b) ^ b == a,
        a ^ 0 == a,
        (a ^ b) ^ c == a ^ (b ^ c),
        a ^ b == b ^ a,
{
    assert((a ^ b) ^ c == (a ^ c) ^ b && (a ^ b) ^ b == a && a ^ 0 == a && (a ^ b) ^ c == a ^ (b ^ c) && a ^ b == b
        ^ a) by (bit_vector);
}

pub proof fn lemma_piece_hash_update(s: Seq<Pieces>, k: ZobristKeys, n: int, i: int, v: Pieces)
    requires
        0 <= i < s.len(),
        n <= s.len(),
    ensures
        piece_hash(s.update(i, v), k, n) == piece_hash(s, k, n) ^ (if 0 <= i < n {
            pkey(k, i, s[i] as usize) ^ pkey(k, i, v as usize)
        } else {
            0
        }),
    decreases n,
{
    let d = pkey(k, i, s[i] as usize) ^ pkey(k, i, v as usize);
    let s2 = s.update(i, v);
    if n > 0 {
        lemma_piece_hash_update(s, k, n - 1, i, v);
        let a = piece_hash(s, k, n - 1);
        let x = pkey(k, n - 1, s[n - 1] as usize);
        if i < n - 1 {
            assert(s2[n - 1] == s[n - 1]);
            assert(piece_hash(s2, k, n - 1) == a ^ d);
            assert((a ^ d) ^ x == (a ^ x) ^ d) by (bit_vector);
        } else if i == n - 1 {
            let po = pkey(k, i, s[i] as usize);
            let pv = pkey(k, i, v as usize);
            assert(piece_hash(s2, k, n - 1) == a ^ 0);
            assert(a ^ 0 == a) by (bit_vector);
            assert(s2[n - 1] == v);
            assert(a ^ pv == (a ^ po) ^ (po ^ pv)) by (bit_vector);
        } else {
            assert(s2[n - 1] == s[n - 1]);
            assert(piece_hash(s2, k, n - 1) == a ^ 0);
            assert(a ^ 0 == a) by (bit_vector);
            let h = piece_hash(s, k, n);
            assert(h ^ 0 == h) by (bit_vector);
        }
    } else {
        assert(0u64 ^ 0u64 == 0u64) by (bit_vector);
    }
}

/// Zobrist key of a position: pieces, white to move, en passant square,
/// castling permissions.
pub open spec fn position_hash(s: Seq<Pieces>, side: Players, ep: usize, castle: u8, k: ZobristKeys) -> u64 {
    piece_hash(s, k, 120) ^ (if side == Players::White { k.side_key } else { 0 }) ^ (if ep != 0 {
        k.piece_keys[ep as int][0]
    } else {
        0
    }) ^ k.castling_keys[castle as int]
}

/// Which pawn bitboard (white, black, both) marks piece `v`.
pub open spec fn pawn_bit_of(k: int, v: Pieces) -> bool {
    if k == 0 {
        v == Pieces::Wp
    } else if k == 1 {
        v == Pieces::Bp
    } else {
        v == Pieces::Wp || v == Pieces::Bp
    }
}

/// The pawn bitboards `pw` mark the squares of `s` with white, black and
/// all pawns.
pub open spec fn pawns_match(s: Seq<Pieces>, pw: [u64; 3]) -> bool {
    forall|i: u64| i < 64 ==> {
        &&& (#[trigger] bit_set(pw[0], i) <==> s[spec_small_to_big(i as int) as int] == Pieces::Wp)
        &&& (bit_set(pw[1], i) <==> s[spec_small_to_big(i as int) as int] == Pieces::Bp)
        &&& (bit_set(pw[2], i) <==> (s[spec_small_to_big(i as int) as int] == Pieces::Wp
            || s[spec_small_to_big(i as int) as int] == Pieces::Bp))
    }
}

/// Pawn bitboards stay consistent when one square changes and its bits
/// follow it.
pub proof fn lemma_pawns_after(s: Seq<Pieces>, pw: [u64; 3], pw2: [u64; 3], sq: int, v: Pieces)
    requires
        pawns_match(s, pw),
        on_board(sq),
        s.len() == 120,
        forall|k: int, i: u64| 0 <= k < 3 && i < 64 ==> #[trigger] bit_set(pw2[k], i) == if i
            == spec_big_to_small(sq) {
            pawn_bit_of(k, v)
        } else {
            bit_set(pw[k], i)
        },
    ensures
        pawns_match(s.update(sq, v), pw2),
{
    let s2 = s.update(sq, v);
    assert forall|i: u64| i < 64 implies {
        &&& (#[trigger] bit_set(pw2[0], i) <==> s2[spec_small_to_big(i as int) as int] == Pieces::Wp)
        &&& (bit_set(pw2[1], i) <==> s2[spec_small_to_big(i as int) as int] == Pieces::Bp)
        &&& (bit_set(pw2[2], i) <==> (s2[spec_small_to_big(i as int) as int] == Pieces::Wp
            || s2[spec_small_to_big(i as int) as int] == Pieces::Bp))
    } by {
        assert(bit_set(pw2[0], i) == if i == spec_big_to_small(sq) { pawn_bit_of(0, v) } else { bit_set(pw[0], i) });
        assert(bit_set(pw2[1], i) == if i == spec_big_to_small(sq) { pawn_bit_of(1, v) } else { bit_set(pw[1], i) });
        assert(bit_set(pw2[2], i) == if i == spec_big_to_small(sq) { pawn_bit_of(2, v) } else { bit_set(pw[2], i) });
        assert(bit_set(pw[0], i) <==> s[spec_small_to_big(i as int) as int] == Pieces::Wp);
        if i == spec_big_to_small(sq) {
            assert(spec_small_to_big(i as int) == sq);
        } else {
            assert(spec_small_to_big(i as int) != sq) by {
                if spec_small_to_big(i as int) == sq {
                    assert(spec_big_to_small(spec_small_to_big(i as int) as int) == i);
                }
            }
        }
    }
}

/// The bits of a square in pawn bitboards that match the board.
pub proof fn lemma_pawn_bits_at(s: Seq<Pieces>, pw: [u64; 3], sq: int)
    requires
        pawns_match(s, pw),
        on_board(sq),
    ensures
        forall|k: int| 0 <= k < 3 ==> #[trigger] bit_set(pw[k], spec_big_to_small(sq) as u64) == pawn_bit_of(k, s[sq]),
{
    let i = spec_big_to_small(sq) as u64;
    assert(spec_small_to_big(i as int) == sq);
    assert(bit_set(pw[0], i) <==> s[spec_small_to_big(i as int) as int] == Pieces::Wp);
}

/// The counters of color `c` (index `ci`) changed by the contribution of
/// the square `sq` becoming `v`.
pub open spec fn counters_follow(ob: BoardStructure, nb: BoardStructure, sq: int, v: Pieces, c: Players, ci: int) -> bool {
    let o = ob.board[sq] as usize;
    let n = v as usize;
    &&& nb.mat_strength[ci] == ob.mat_strength[ci] + mat_f(c)(n) - mat_f(c)(o)
    &&& nb.big_pieces[ci] == ob.big_pieces[ci] + big_f(c)(n) - big_f(c)(o)
    &&& nb.min_pieces[ci] == ob.min_pieces[ci] + min_f(c)(n) - min_f(c)(o)
    &&& nb.maj_pieces[ci] == ob.maj_pieces[ci] + maj_f(c)(n) - maj_f(c)(o)
}

/// The counters stay consistent when one square changes and they follow it.
pub proof fn lemma_counts_after(ob: BoardStructure, nb: BoardStructure, sq: int, v: Pieces)
    requires
        ob.counts_wf(),
        0 <= sq < 120,
        nb.board@ == ob.board@.update(sq, v),
        counters_follow(ob, nb, sq, v, Players::White, 0),
        counters_follow(ob, nb, sq, v, Players::Black, 1),
    ensures
        nb.counts_wf(),
{
    let s = ob.board@;
    lemma_sum_update(s, 120, sq, v, mat_f(Players::White));
    lemma_sum_update(s, 120, sq, v, mat_f(Players::Black));
    lemma_sum_update(s, 120, sq, v, big_f(Players::White));
    lemma_sum_update(s, 120, sq, v, big_f(Players::Black));
    lemma_sum_update(s, 120, sq, v, min_f(Players::White));
    lemma_sum_update(s, 120, sq, v, min_f(Players::Black));
    lemma_sum_update(s, 120, sq, v, maj_f(Players::White));
    lemma_sum_update(s, 120, sq, v, maj_f(Players::Black));
    assert(mat_f(Players::White)(v as usize) == mat_f(Players::White)(v as usize));
    assert(mat_f(Players::Black)(v as usize) == mat_f(Players::Black)(v as usize));
}

/// The piece lists stay consistent when the entry of `sq` is replaced by
/// the last entry of `p`'s list and the list is shortened.
pub proof fn lemma_list_remove(ob: BoardStructure, nb: BoardStructure, sq: int, p: int, ci: int)
    requires
        ob.lists_wf(),
        1 <= p <= 12,
        0 <= sq < 120,
        ob.board[sq] as int == p,
        nb.board@ == ob.board@.update(sq, Pieces::Empty),
        0 <= ci < ob.num_pieces[p],
        ob.piece_list[p][ci] == sq,
        nb.num_pieces@ == ob.num_pieces@.update(p, (ob.num_pieces[p] - 1) as usize),
        forall|q: int| 0 <= q < 13 && q != p ==> #[trigger] nb.piece_list[q] == ob.piece_list[q],
        forall|i: int| 0 <= i < 10 && i != ci ==> #[trigger] nb.piece_list[p][i] == ob.piece_list[p][i],
        nb.piece_list[p][ci] == ob.piece_list[p][ob.num_pieces[p] - 1],
    ensures
        nb.lists_wf(),
{
    let n = ob.num_pieces[p];
    assert forall|q: int| 1 <= q <= 12 implies #[trigger] nb.list_wf(q) by {
        assert(ob.list_wf(q));
        if q != p {
            assert(nb.piece_list[q] == ob.piece_list[q]);
            assert forall|sq2: int| 0 <= sq2 < 120 && #[trigger] nb.board[sq2] as int == q implies nb.listed(q, sq2) by {
                assert(ob.board[sq2] as int == q);
                assert(ob.listed(q, sq2));
                let i = choose|i: int| 0 <= i < ob.num_pieces[q] && ob.piece_list[q][i] == sq2;
                assert(nb.piece_list[q][i] == sq2);
            }
            assert forall|i: int| 0 <= i < nb.num_pieces[q] implies on_board(#[trigger] nb.piece_list[q][i] as int)
                && nb.board[nb.piece_list[q][i] as int] as int == q by {
                assert(ob.piece_list[q][i] == nb.piece_list[q][i]);
            }
            assert forall|i: int, j: int| 0 <= i < j < nb.num_pieces[q] implies #[trigger] nb.piece_list[q][i]
                != #[trigger] nb.piece_list[q][j] by {
                assert(ob.piece_list[q][i] != ob.piece_list[q][j]);
            }
        } else {
            assert forall|sq2: int| 0 <= sq2 < 120 && #[trigger] nb.board[sq2] as int == q implies nb.listed(q, sq2) by {
                assert(sq2 != sq);
                assert(ob.board[sq2] as int == q);
                assert(ob.listed(q, sq2));
                let i = choose|i: int| 0 <= i < ob.num_pieces[q] && ob.piece_list[q][i] == sq2;
                assert(i != ci);
                if i == n - 1 {
                    assert(nb.piece_list[q][ci] == sq2);
                } else {
                    assert(nb.piece_list[q][i] == sq2);
                }
            }
            assert forall|i: int| 0 <= i < nb.num_pieces[q] implies on_board(#[trigger] nb.piece_list[q][i] as int)
                && nb.board[nb.piece_list[q][i] as int] as int == q by {
                if i == ci {
                    assert(ob.piece_list[q][n - 1] != ob.piece_list[q][ci]);
                    assert(on_board(ob.piece_list[q][n - 1] as int));
                } else {
                    assert(ob.piece_list[q][i] != ob.piece_list[q][ci]);
                    assert(on_board(ob.piece_list[q][i] as int));
                }
            }
            assert forall|i: int, j: int| 0 <= i < j < nb.num_pieces[q] implies #[trigger] nb.piece_list[q][i]
                != #[trigger] nb.piece_list[q][j] by {
                if i == ci {
                    assert(ob.piece_list[q][n - 1] != ob.piece_list[q][j]);
                } else if j == ci {
                    assert(ob.piece_list[q][n - 1] != ob.piece_list[q][i]);
                } else {
                    assert(ob.piece_list[q][i] != ob.piece_list[q][j]);
                }
            }
        }
    }
}

/// The piece lists stay consistent when `p` is put on the empty square `sq`
/// and `sq` is appended to `p`'s list.
pub proof fn lemma_list_add(ob: BoardStructure, nb: BoardStructure, sq: int, p: int)
    requires
        ob.lists_wf(),
        ob.squares_wf(),
        1 <= p <= 12,
        on_board(sq),
        ob.board[sq] == Pieces::Empty,
        ob.num_pieces[p] < 10,
        nb.board@ == ob.board@.update(sq, nb.board[sq]),
        nb.board[sq] as int == p,
        nb.num_pieces@ == ob.num_pieces@.update(p, (ob.num_pieces[p] + 1) as usize),
        forall|q: int| 0 <= q < 13 && q != p ==> #[trigger] nb.piece_list[q] == ob.piece_list[q],
        forall|i: int| 0 <= i < 10 && i != ob.num_pieces[p] ==> #[trigger] nb.piece_list[p][i] == ob.piece_list[p][i],
        nb.piece_list[p][ob.num_pieces[p] as int] == sq,
    ensures
        nb.lists_wf(),
{
    let n = ob.num_pieces[p] as int;
    assert forall|q: int| 1 <= q <= 12 implies #[trigger] nb.list_wf(q) by {
        assert(ob.list_wf(q));
        if q != p {
            assert(nb.piece_list[q] == ob.piece_list[q]);
            assert forall|sq2: int| 0 <= sq2 < 120 && #[trigger] nb.board[sq2] as int == q implies nb.listed(q, sq2) by {
                assert(sq2 != sq);
                assert(ob.board[sq2] as int == q);
                assert(ob.listed(q, sq2));
                let i = choose|i: int| 0 <= i < ob.num_pieces[q] && ob.piece_list[q][i] == sq2;
                assert(nb.piece_list[q][i] == sq2);
            }
            assert forall|i: int| 0 <= i < nb.num_pieces[q] implies on_board(#[trigger] nb.piece_list[q][i] as int)
                && nb.board[nb.piece_list[q][i] as int] as int == q by {
                assert(ob.piece_list[q][i] == nb.piece_list[q][i]);
                assert(ob.board[ob.piece_list[q][i] as int] as int == q);
            }
            assert forall|i: int, j: int| 0 <= i < j < nb.num_pieces[q] implies #[trigger] nb.piece_list[q][i]
                != #[trigger] nb.piece_list[q][j] by {
                assert(ob.piece_list[q][i] != ob.piece_list[q][j]);
            }
        } else {
            assert forall|sq2: int| 0 <= sq2 < 120 && #[trigger] nb.board[sq2] as int == q implies nb.listed(q, sq2) by {
                if sq2 == sq {
                    assert(nb.piece_list[q][n] == sq2);
                } else {
                    assert(ob.board[sq2] as int == q);
                    assert(ob.listed(q, sq2));
                    let i = choose|i: int| 0 <= i < ob.num_pieces[q] && ob.piece_list[q][i] == sq2;
                    assert(nb.piece_list[q][i] == sq2);
                }
            }
            assert forall|i: int| 0 <= i < nb.num_pieces[q] implies on_board(#[trigger] nb.piece_list[q][i] as int)
                && nb.board[nb.piece_list[q][i] as int] as int == q by {
                if i != n {
                    assert(ob.piece_list[q][i] == nb.piece_list[q][i]);
                    assert(ob.board[ob.piece_list[q][i] as int] as int == q);
                    assert(ob.piece_list[q][i] != sq);
                }
            }
            assert forall|i: int, j: int| 0 <= i < j < nb.num_pieces[q] implies #[trigger] nb.piece_list[q][i]
                != #[trigger] nb.piece_list[q][j] by {
                if j == n {
                    assert(ob.board[ob.piece_list[q][i] as int] as int == q);
                } else {
                    assert(ob.piece_list[q][i] != ob.piece_list[q][j]);
                }
            }
        }
    }
}

/// The piece lists stay consistent when `p` moves from `from` to the empty
/// square `to` and its list entry `ci` follows it.
pub proof fn lemma_list_move(ob: BoardStructure, nb: BoardStructure, from: int, to: int, p: int, ci: int)
    requires
        ob.lists_wf(),
        1 <= p <= 12,
        on_board(from),
        on_board(to),
        from != to,
        ob.board[from] as int == p,
        ob.board[to] == Pieces::Empty,
        nb.board@ == ob.board@.update(from, Pieces::Empty).update(to, ob.board[from]),
        0 <= ci < ob.num_pieces[p],
        ob.piece_list[p][ci] == from,
        nb.num_pieces == ob.num_pieces,
        forall|q: int| 0 <= q < 13 && q != p ==> #[trigger] nb.piece_list[q] == ob.piece_list[q],
        forall|i: int| 0 <= i < 10 && i != ci ==> #[trigger] nb.piece_list[p][i] == ob.piece_list[p][i],
        nb.piece_list[p][ci] == to,
    ensures
        nb.lists_wf(),
{
    assert forall|q: int| 1 <= q <= 12 implies #[trigger] nb.list_wf(q) by {
        assert(ob.list_wf(q));
        if q != p {
            assert(nb.piece_list[q] == ob.piece_list[q]);
            assert forall|sq2: int| 0 <= sq2 < 120 && #[trigger] nb.board[sq2] as int == q implies nb.listed(q, sq2) by {
                assert(ob.board[sq2] as int == q);
                assert(ob.listed(q, sq2));
                let i = choose|i: int| 0 <= i < ob.num_pieces[q] && ob.piece_list[q][i] == sq2;
                assert(nb.piece_list[q][i] == sq2);
            }
            assert forall|i: int| 0 <= i < nb.num_pieces[q] implies on_board(#[trigger] nb.piece_list[q][i] as int)
                && nb.board[nb.piece_list[q][i] as int] as int == q by {
                assert(ob.piece_list[q][i] == nb.piece_list[q][i]);
                assert(ob.board[ob.piece_list[q][i] as int] as int == q);
            }
            assert forall|i: int, j: int| 0 <= i < j < nb.num_pieces[q] implies #[trigger] nb.piece_list[q][i]
                != #[trigger] nb.piece_list[q][j] by {
                assert(ob.piece_list[q][i] != ob.piece_list[q][j]);
            }
        } else {
            assert forall|sq2: int| 0 <= sq2 < 120 && #[trigger] nb.board[sq2] as int == q implies nb.listed(q, sq2) by {
                if sq2 == to {
                    assert(nb.piece_list[q][ci] == sq2);
                } else {
                    assert(sq2 != from);
                    assert(ob.board[sq2] as int == q);
                    assert(ob.listed(q, sq2));
                    let i = choose|i: int| 0 <= i < ob.num_pieces[q] && ob.piece_list[q][i] == sq2;
                    assert(i != ci);
                    assert(nb.piece_list[q][i] == sq2);
                }
            }
            assert forall|i: int| 0 <= i < nb.num_pieces[q] implies on_board(#[trigger] nb.piece_list[q][i] as int)
                && nb.board[nb.piece_list[q][i] as int] as int == q by {
                if i != ci {
                    assert(ob.piece_list[q][i] == nb.piece_list[q][i]);
                    assert(ob.board[ob.piece_list[q][i] as int] as int == q);
                    assert(ob.piece_list[q][i] != from);
                }
            }
            assert forall|i: int, j: int| 0 <= i < j < nb.num_pieces[q] implies #[trigger] nb.piece_list[q][i]
                != #[trigger] nb.piece_list[q][j] by {
                if i == ci {
                    assert(ob.board[ob.piece_list[q][j] as int] as int == q);
                } else if j == ci {
                    assert(ob.board[ob.piece_list[q][i] as int] as int == q);
                } else {
                    assert(ob.piece_list[q][i] != ob.piece_list[q][j]);
                }
            }
        }
    }
}

/// Moving a piece to an empty square leaves every sum unchanged.
pub proof fn lemma_sum_move(s: Seq<Pieces>, from: int, to: int, f: spec_fn(usize) -> int)
    requires
        s.len() == 120,
        0 <= from < 120,
        0 <= to < 120,
        from != to,
        s[to] == Pieces::Empty,
    ensures
        sum_pieces(s.update(from, Pieces::Empty).update(to, s[from]), 120, f) == sum_pieces(s, 120, f),
{
    lemma_sum_update(s, 120, from, Pieces::Empty, f);
    lemma_sum_update(s.update(from, Pieces::Empty), 120, to, s[from], f);
}

/// Each counter sum changes by the contribution of the one changed square.
pub proof fn lemma_counts_after_update_sum(s: Seq<Pieces>, sq: int, v: Pieces)
    requires
        s.len() == 120,
        0 <= sq < 120,
    ensures
        sum_pieces(s.update(sq, v), 120, mat_f(Players::White)) == sum_pieces(s, 120, mat_f(Players::White))
            + mat_f(Players::White)(v as usize) - mat_f(Players::White)(s[sq] as usize),
        sum_pieces(s.update(sq, v), 120, mat_f(Players::Black)) == sum_pieces(s, 120, mat_f(Players::Black))
            + mat_f(Players::Black)(v as usize) - mat_f(Players::Black)(s[sq] as usize),
        sum_pieces(s.update(sq, v), 120, big_f(Players::White)) == sum_pieces(s, 120, big_f(Players::White))
            + big_f(Players::White)(v as usize) - big_f(Players::White)(s[sq] as usize),
        sum_pieces(s.update(sq, v), 120, big_f(Players::Black)) == sum_pieces(s, 120, big_f(Players::Black))
            + big_f(Players::Black)(v as usize) - big_f(Players::Black)(s[sq] as usize),
        sum_pieces(s.update(sq, v), 120, min_f(Players::White)) == sum_pieces(s, 120, min_f(Players::White))
            + min_f(Players::White)(v as usize) - min_f(Players::White)(s[sq] as usize),
        sum_pieces(s.update(sq, v), 120, min_f(Players::Black)) == sum_pieces(s, 120, min_f(Players::Black))
            + min_f(Players::Black)(v as usize) - min_f(Players::Black)(s[sq] as usize),
        sum_pieces(s.update(sq, v), 120, maj_f(Players::White)) == sum_pieces(s, 120, maj_f(Players::White))
            + maj_f(Players::White)(v as usize) - maj_f(Players::White)(s[sq] as usize),
        sum_pieces(s.update(sq, v), 120, maj_f(Players::Black)) == sum_pieces(s, 120, maj_f(Players::Black))
            + maj_f(Players::Black)(v as usize) - maj_f(Players::Black)(s[sq] as usize),
{
    lemma_sum_update(s, 120, sq, v, mat_f(Players::White));
    lemma_sum_update(s, 120, sq, v, mat_f(Players::Black));
    lemma_sum_update(s, 120, sq, v, big_f(Players::White));
    lemma_sum_update(s, 120, sq, v, big_f(Players::Black));
    lemma_sum_update(s, 120, sq, v, min_f(Players::White));
    lemma_sum_update(s, 120, sq, v, min_f(Players::Black));
    lemma_sum_update(s, 120, sq, v, maj_f(Players::White));
    lemma_sum_update(s, 120, sq, v, maj_f(Players::Black));
}

/// 1 for the piece with index `p`, 0 for every other.
pub open spec fn ind(p: usize) -> spec_fn(usize) -> int {
    |x: usize| if x == p { 1 } else { 0 }
}

/// Number of pieces with index `p` on the squares.
pub open spec fn count_of(s: Seq<Pieces>, p: usize) -> int {
    sum_pieces(s, 120, ind(p))
}

/// Counts of pieces change with one square.
pub proof fn lemma_count_update(s: Seq<Pieces>, sq: int, v: Pieces)
    requires
        s.len() == 120,
        0 <= sq < 120,
    ensures
        forall|p: usize| #[trigger] count_of(s.update(sq, v), p) == count_of(s, p) + ind(p)(v as usize) - ind(p)(
            s[sq] as usize),
{
    assert forall|p: usize| #[trigger] count_of(s.update(sq, v), p) == count_of(s, p) + ind(p)(v as usize) - ind(p)(
        s[sq] as usize) by {
        lemma_sum_update(s, 120, sq, v, ind(p));
    }
}

/// Counts of pieces are bounded by the number of squares.
pub proof fn lemma_count_bounded(s: Seq<Pieces>)
    ensures
        forall|p: usize| 0 <= #[trigger] count_of(s, p) <= 120,
{
    assert forall|p: usize| 0 <= #[trigger] count_of(s, p) <= 120 by {
        lemma_sum_bounds(s, 120, ind(p), 1);
    }
}

/// Counts of pieces do not change when a piece moves to an empty square.
pub proof fn lemma_count_move(s: Seq<Pieces>, from: int, to: int)
    requires
        s.len() == 120,
        0 <= from < 120,
        0 <= to < 120,
        from != to,
        s[to] == Pieces::Empty,
    ensures
        forall|p: usize| #[trigger] count_of(s.update(from, Pieces::Empty).update(to, s[from]), p) == count_of(s, p),
{
    assert forall|p: usize| #[trigger] count_of(s.update(from, Pieces::Empty).update(to, s[from]), p) == count_of(s, p) by {
        lemma_sum_move(s, from, to, ind(p));
    }
}

/// Xoring the same value into the key and into the piece hash keeps their
/// xor.
pub proof fn lemma_extra_same(key: u64, ph: u64, d: u64)
    ensures
        (key ^ d) ^ (ph ^ (d ^ 0)) == key ^ ph,
        (key ^ d) ^ (ph ^ (0 ^ d)) == key ^ ph,
        (key ^ d) ^ (ph ^ d) == key ^ ph,
{
    assert((key ^ d) ^ (ph ^ (d ^ 0)) == key ^ ph) by (bit_vector);
    assert((key ^ d) ^ (ph ^ (0 ^ d)) == key ^ ph) by (bit_vector);
    assert((key ^ d) ^ (ph ^ d) == key ^ ph) by (bit_vector);
}

/// Xoring a value into the key xors it into the key's non-piece part.
pub proof fn lemma_extra_shift(key: u64, ph: u64, d: u64)
    ensures
        (key ^ d) ^ ph == (key ^ ph) ^ d,
{
    assert((key ^ d) ^ ph == (key ^ ph) ^ d) by (bit_vector);
}

/// The key is the hash exactly when its non-piece part is the xor of the
/// side, en passant and castling keys.
pub proof fn lemma_hash_extra(key: u64, ph: u64, s: u64, e: u64, c: u64)
    ensures
        (key == ((ph ^ s) ^ e) ^ c) <==> (key ^ ph == (s ^ e) ^ c),
{
    assert((key == ((ph ^ s) ^ e) ^ c) <==> (key ^ ph == (s ^ e) ^ c)) by (bit_vector);
}

/// The piece invariants only look at the squares and what is derived from them.
pub proof fn lemma_pieces_wf_frame(a: BoardStructure, b: BoardStructure)
    requires
        a.pieces_wf(),
        b.eq_pieces(&a),
    ensures
        b.pieces_wf(),
{
    reveal(BoardStructure::derived_wf);
    assert(b.board@ == a.board@);
    assert forall|p: int| 1 <= p <= 12 implies #[trigger] b.list_wf(p) by {
        assert(a.list_wf(p));
        assert forall|sq: int| 0 <= sq < 120 && #[trigger] b.board[sq] as int == p implies b.listed(p, sq) by {
            assert(a.listed(p, sq));
        }
    }
}

/// An entry of a piece list: a playing square holding that piece.
pub proof fn lemma_list_entry(b: &BoardStructure, p: int, i: int)
    requires
        b.pieces_wf(),
        1 <= p <= 12,
        0 <= i < b.num_pieces[p],
    ensures
        on_board(b.piece_list[p][i] as int),
        b.board[b.piece_list[p][i] as int] as int == p,
        b.num_pieces[p] <= 10,
{
    reveal(BoardStructure::derived_wf);
    assert(b.list_wf(p));
}

/// Every square holding a piece is in that piece's list.
pub proof fn lemma_listed(b: &BoardStructure, p: int, sq: int)
    requires
        b.pieces_wf(),
        1 <= p <= 12,
        0 <= sq < 120,
        b.board[sq] as int == p,
    ensures
        b.listed(p, sq),
{
    reveal(BoardStructure::derived_wf);
    assert(b.list_wf(p));
}

/// The entries of a piece list are different squares.
pub proof fn lemma_list_distinct(b: &BoardStructure, p: int, i: int, j: int)
    requires
        b.pieces_wf(),
        1 <= p <= 12,
        0 <= i < b.num_pieces[p],
        0 <= j < b.num_pieces[p],
        i != j,
    ensures
        b.piece_list[p][i] != b.piece_list[p][j],
{
    reveal(BoardStructure::derived_wf);
    assert(b.list_wf(p));
    if i < j {
        assert(b.piece_list[p][i] != b.piece_list[p][j]);
    } else {
        assert(b.piece_list[p][j] != b.piece_list[p][i]);
    }
}

/// A piece list has at most ten entries.
pub proof fn lemma_list_len(b: &BoardStructure, p: int)
    requires
        b.pieces_wf(),
        1 <= p <= 12,
    ensures
        b.num_pieces[p] <= 10,
{
    reveal(BoardStructure::derived_wf);
    assert(b.list_wf(p));
}

impl BoardStructure {
    /// The squares of the board as a sequence.
    pub open spec fn sqs(&self) -> Seq<Pieces> {
        self.board@
    }

    /// The hash of the position described by the board.
    pub open spec fn hash_spec(&self) -> u64 {
        position_hash(self.board@, self.side, self.en_pas, self.castle_perm, self.keys)
    }

    /// The border squares are `OffLimits`, the playing squares are not.
    pub open spec fn squares_wf(&self) -> bool {
        forall|sq: int| 0 <= sq < 120 ==> ((#[trigger] self.board[sq] == Pieces::OffLimits) <==> !on_board(sq))
    }

    /// `sq` is listed among the first `num_pieces[p]` slots of `p`'s list.
    pub open spec fn listed(&self, p: int, sq: int) -> bool {
        exists|i: int| 0 <= i < self.num_pieces[p] && self.piece_list[p][i] == sq
    }

    /// The list of piece `p` holds exactly the squares with `p`, once each.
    pub open spec fn list_wf(&self, p: int) -> bool {
        &&& self.num_pieces[p] <= 10
        &&& forall|i: int| 0 <= i < self.num_pieces[p] ==> on_board(#[trigger] self.piece_list[p][i] as int)
            && self.board[self.piece_list[p][i] as int] as int == p
        &&& forall|i: int, j: int| 0 <= i < j < self.num_pieces[p] ==> #[trigger] self.piece_list[p][i]
            != #[trigger] self.piece_list[p][j]
        &&& forall|sq: int| 0 <= sq < 120 && #[trigger] self.board[sq] as int == p ==> self.listed(p, sq)
    }

    pub open spec fn lists_wf(&self) -> bool {
        forall|p: int| 1 <= p <= 12 ==> #[trigger] self.list_wf(p)
    }

    /// The pawn bitboards mark the squares of white, black and all pawns.
    pub open spec fn pawns_wf(&self) -> bool {
        pawns_match(self.board@, self.pawns)
    }

    /// Material and piece counters agree with the squares.
    pub open spec fn counts_wf(&self) -> bool {
        &&& self.mat_strength[0] == sum_pieces(self.board@, 120, mat_f(Players::White))
        &&& self.mat_strength[1] == sum_pieces(self.board@, 120, mat_f(Players::Black))
        &&& self.big_pieces[0] == sum_pieces(self.board@, 120, big_f(Players::White))
        &&& self.big_pieces[1] == sum_pieces(self.board@, 120, big_f(Players::Black))
        &&& self.min_pieces[0] == sum_pieces(self.board@, 120, min_f(Players::White))
        &&& self.min_pieces[1] == sum_pieces(self.board@, 120, min_f(Players::Black))
        &&& self.maj_pieces[0] == sum_pieces(self.board@, 120, maj_f(Players::White))
        &&& self.maj_pieces[1] == sum_pieces(self.board@, 120, maj_f(Players::Black))
    }

    /// The number of each piece agrees with the squares.
    pub open spec fn nums_wf(&self) -> bool {
        forall|p: int| 1 <= p <= 12 ==> #[trigger] self.num_pieces[p] == count_of(self.board@, p as usize)
    }

    /// Piece lists, pawn bitboards and counters agree with the squares.
    #[verifier::opaque]
    pub open spec fn derived_wf(&self) -> bool {
        &&& self.lists_wf()
        &&& self.pawns_wf()
        &&& self.counts_wf()
    }

    /// Everything that is derived from the squares agrees with them.
    pub open spec fn pieces_wf(&self) -> bool {
        &&& self.squares_wf()
        &&& self.nums_wf()
        &&& self.derived_wf()
    }

    /// The part of the key that does not come from the pieces.
    pub open spec fn key_extra(&self) -> u64 {
        self.pos_key ^ piece_hash(self.board@, self.keys, 120)
    }

    /// The key is the hash of the position.
    pub open spec fn key_wf(&self) -> bool {
        &&& self.castle_perm < 16
        &&& self.en_pas < 120
        &&& self.pos_key == self.hash_spec()
    }

    /// Search tables, transposition table and keys agree.
    pub open spec fn eq_search(&self, o: &BoardStructure) -> bool {
        &&& self.search_history == o.search_history
        &&& self.search_killers == o.search_killers
        &&& self.pv_line == o.pv_line
        &&& self.trans_table == o.trans_table
        &&& self.keys == o.keys
    }

    /// Side, castling, en passant, counters, king squares and history agree.
    pub open spec fn eq_state(&self, o: &BoardStructure) -> bool {
        &&& self.side == o.side
        &&& self.castle_perm == o.castle_perm
        &&& self.en_pas == o.en_pas
        &&& self.fifty_cnt == o.fifty_cnt
        &&& self.ply_depth == o.ply_depth
        &&& self.ply == o.ply
        &&& self.king_sqs == o.king_sqs
        &&& self.history == o.history
    }

    /// Squares and everything derived from them agree.
    pub open spec fn eq_pieces(&self, o: &BoardStructure) -> bool {
        &&& self.board == o.board
        &&& self.pawns == o.pawns
        &&& self.piece_list == o.piece_list
        &&& self.num_pieces == o.num_pieces
        &&& self.big_pieces == o.big_pieces
        &&& self.min_pieces == o.min_pieces
        &&& self.maj_pieces == o.maj_pieces
        &&& self.mat_strength == o.mat_strength
    }
}

} // verus!
