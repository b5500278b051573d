//! Setting up a board: clearing it, deriving piece lists and counters from
//! its squares, and reading a position in Forsyth-Edwards notation.

use vstd::prelude::*;
use crate::statics::{
    Pieces, Players, NO_SQ, on_board, spec_color, spec_value, spec_is_big, spec_is_min, spec_is_maj, is_real,
    spec_small_to_big, spec_big_to_small, small_to_big, big_to_small, color_mask, values, big_mask, min_mask, maj_mask,
    lemma_big_small, lemma_small_big,
};
use crate::structs::BoardStructure;
use crate::bitboards::{bit_set, set_bit};
use vstd::string::StrSliceExecFns;
use crate::hash::generate_position_hash;
use crate::model::{sum_pieces, mat_f, big_f, min_f, maj_f, ind, count_of, pawn_bit_of, lemma_sum_nonneg};

verus! {

/// The square of the last `p` among the first `n` squares, `dflt` if none.
pub open spec fn last_sq_of(s: Seq<Pieces>, p: Pieces, n: int, dflt: usize) -> usize
    decreases n,
{
    if n <= 0 {
        dflt
    } else if s[n - 1] == p {
        (n - 1) as usize
    } else {
        last_sq_of(s, p, n - 1, dflt)
    }
}

/// Empty the board: border squares `OffLimits`, playing squares `Empty`,
/// no pieces counted, no side to move, no castling, no en passant square,
/// counters and key zero. Piece lists, search tables, history,
/// transposition table and keys are left as they are.
pub fn reset_board(board: &mut BoardStructure)
    ensures
        forall|sq: int| 0 <= sq < 120 ==> final(board).board[sq] == (if on_board(sq) { Pieces::Empty } else { Pieces::OffLimits }),
        final(board).big_pieces@ == seq![0u8, 0u8],
        final(board).min_pieces@ == seq![0u8, 0u8],
        final(board).maj_pieces@ == seq![0u8, 0u8],
        final(board).mat_strength@ == seq![0usize, 0usize],
        final(board).pawns@ == seq![0u64, 0u64, 0u64],
        forall|p: int| 0 <= p < 13 ==> final(board).num_pieces[p] == 0,
        final(board).king_sqs@ == seq![NO_SQ, NO_SQ],
        final(board).side == Players::Both,
        final(board).fifty_cnt == 0,
        final(board).ply_depth == 0,
        final(board).ply == 0,
        final(board).castle_perm == 0,
        final(board).en_pas == 0,
        final(board).pos_key == 0,
        final(board).piece_list == old(board).piece_list,
        final(board).eq_search(old(board)),
        final(board).history == old(board).history,
{
    let ghost ob = *board;
    let mut sq: usize = 0;
    while sq < 120
        invariant
            sq <= 120,
            board.piece_list == ob.piece_list,
            board.eq_search(&ob),
            board.history == ob.history,
            forall|q: int| 0 <= q < sq ==> board.board[q] == Pieces::OffLimits,
        decreases 120 - sq,
    {
        board.board[sq] = Pieces::OffLimits;
        sq = sq + 1;
    }
    let mut s: usize = 0;
    while s < 64
        invariant
            s <= 64,
            board.piece_list == ob.piece_list,
            board.eq_search(&ob),
            board.history == ob.history,
            forall|q: int| 0 <= q < 120 ==> board.board[q] == (if on_board(q) && spec_big_to_small(q) < s {
                Pieces::Empty
            } else {
                Pieces::OffLimits
            }),
        decreases 64 - s,
    {
        let big: usize = small_to_big(s);
        board.board[big] = Pieces::Empty;
        proof {
            assert forall|q: int| 0 <= q < 120 implies board.board[q] == (if on_board(q) && spec_big_to_small(q) < s
                + 1 {
                Pieces::Empty
            } else {
                Pieces::OffLimits
            }) by {
                if on_board(q) {
                    lemma_big_small(q);
                }
            }
        }
        s = s + 1;
    }
    proof {
        assert forall|q: int| 0 <= q < 120 && on_board(q) implies spec_big_to_small(q) < 64 by {
            lemma_big_small(q);
        }
    }
    board.big_pieces = [0u8; 2];
    board.min_pieces = [0u8; 2];
    board.maj_pieces = [0u8; 2];
    board.mat_strength = [0usize; 2];
    board.pawns = [0u64; 3];
    board.num_pieces = [0usize; 13];
    board.king_sqs = [NO_SQ; 2];
    board.side = Players::Both;
    board.fifty_cnt = 0;
    board.ply_depth = 0;
    board.ply = 0;
    board.castle_perm = 0;
    board.en_pas = 0;
    board.pos_key = 0;
    assert(board.big_pieces@ == seq![0u8, 0u8]);
    assert(board.min_pieces@ == seq![0u8, 0u8]);
    assert(board.maj_pieces@ == seq![0u8, 0u8]);
    assert(board.mat_strength@ == seq![0usize, 0usize]);
    assert(board.pawns@ == seq![0u64, 0u64, 0u64]);
    assert(board.king_sqs@ == seq![NO_SQ, NO_SQ]);
}

/// Sums over more squares are larger, for a nonnegative `f`.
pub proof fn lemma_sum_mono(s: Seq<Pieces>, n: int, m: int, f: spec_fn(usize) -> int)
    requires
        0 <= n <= m,
        forall|p: usize| 0 <= #[trigger] f(p),
    ensures
        sum_pieces(s, n, f) <= sum_pieces(s, m, f),
    decreases m - n,
{
    if n < m {
        lemma_sum_mono(s, n, m - 1, f);
        assert(f(s[m - 1] as usize) >= 0);
    }
}

/// The counters of `b` are those of `o` plus the sums over the first `n`
/// squares of `s`.
#[verifier::opaque]
pub open spec fn counters_added(b: BoardStructure, o: BoardStructure, s: Seq<Pieces>, n: int) -> bool {
    &&& b.mat_strength[0] == o.mat_strength[0] + sum_pieces(s, n, mat_f(Players::White))
    &&& b.mat_strength[1] == o.mat_strength[1] + sum_pieces(s, n, mat_f(Players::Black))
    &&& b.big_pieces[0] == o.big_pieces[0] + sum_pieces(s, n, big_f(Players::White))
    &&& b.big_pieces[1] == o.big_pieces[1] + sum_pieces(s, n, big_f(Players::Black))
    &&& b.min_pieces[0] == o.min_pieces[0] + sum_pieces(s, n, min_f(Players::White))
    &&& b.min_pieces[1] == o.min_pieces[1] + sum_pieces(s, n, min_f(Players::Black))
    &&& b.maj_pieces[0] == o.maj_pieces[0] + sum_pieces(s, n, maj_f(Players::White))
    &&& b.maj_pieces[1] == o.maj_pieces[1] + sum_pieces(s, n, maj_f(Players::Black))
    &&& forall|p: int| 1 <= p <= 12 ==> #[trigger] b.num_pieces[p] == o.num_pieces[p] + sum_pieces(s, n, ind(p as usize))
}

/// The piece list of `p` in `b` is that of `o` followed by the squares
/// among the first `n` that hold `p`, in increasing order.
pub open spec fn list_added(b: BoardStructure, o: BoardStructure, s: Seq<Pieces>, n: int, p: int) -> bool {
    &&& forall|i: int| 0 <= i < o.num_pieces[p] ==> #[trigger] b.piece_list[p][i] == o.piece_list[p][i]
    &&& forall|i: int| o.num_pieces[p] <= i < b.num_pieces[p] ==> #[trigger] b.piece_list[p][i] < n
        && s[b.piece_list[p][i] as int] as int == p
    &&& forall|i: int, j: int| o.num_pieces[p] <= i < j < b.num_pieces[p] ==> #[trigger] b.piece_list[p][i]
        < #[trigger] b.piece_list[p][j]
    &&& forall|q: int| 0 <= q < n && #[trigger] s[q] as int == p ==> exists|i: int| o.num_pieces[p] <= i
        < b.num_pieces[p] && b.piece_list[p][i] == q
}

/// Every piece list of `b` is that of `o` with the squares of the first `n`
/// that hold the piece appended.
#[verifier::opaque]
pub open spec fn lists_added(b: BoardStructure, o: BoardStructure, s: Seq<Pieces>, n: int) -> bool {
    forall|p: int| 1 <= p <= 12 ==> #[trigger] list_added(b, o, s, n, p)
}

/// The pawn bitboards of `b` are those of `o` with the pawns among the
/// first `n` squares of `s` added.
#[verifier::opaque]
pub open spec fn pawns_added(b: BoardStructure, o: BoardStructure, s: Seq<Pieces>, n: int) -> bool {
    forall|k: int, i: u64| 0 <= k < 3 && i < 64 ==> (#[trigger] bit_set(b.pawns[k], i) <==> (bit_set(o.pawns[k], i)
        || (spec_small_to_big(i as int) < n && pawn_bit_of(k, s[spec_small_to_big(i as int) as int]))))
}

/// One more square counted.
proof fn lemma_counters_step(b0: BoardStructure, b1: BoardStructure, o: BoardStructure, s: Seq<Pieces>, n: int)
    requires
        0 <= n < s.len(),
        counters_added(b0, o, s, n),
        b1.mat_strength[0] == b0.mat_strength[0] + mat_f(Players::White)(s[n] as usize),
        b1.mat_strength[1] == b0.mat_strength[1] + mat_f(Players::Black)(s[n] as usize),
        b1.big_pieces[0] == b0.big_pieces[0] + big_f(Players::White)(s[n] as usize),
        b1.big_pieces[1] == b0.big_pieces[1] + big_f(Players::Black)(s[n] as usize),
        b1.min_pieces[0] == b0.min_pieces[0] + min_f(Players::White)(s[n] as usize),
        b1.min_pieces[1] == b0.min_pieces[1] + min_f(Players::Black)(s[n] as usize),
        b1.maj_pieces[0] == b0.maj_pieces[0] + maj_f(Players::White)(s[n] as usize),
        b1.maj_pieces[1] == b0.maj_pieces[1] + maj_f(Players::Black)(s[n] as usize),
        forall|p: int| 1 <= p <= 12 ==> #[trigger] b1.num_pieces[p] == b0.num_pieces[p] + ind(p as usize)(s[n] as usize),
    ensures
        counters_added(b1, o, s, n + 1),
{
    reveal(counters_added);
    assert forall|p: int| 1 <= p <= 12 implies #[trigger] b1.num_pieces[p] == o.num_pieces[p] + sum_pieces(s, n + 1,
        ind(p as usize)) by {
        assert(b0.num_pieces[p] == o.num_pieces[p] + sum_pieces(s, n, ind(p as usize)));
    }
}

/// One more square listed.
proof fn lemma_lists_step(b0: BoardStructure, b1: BoardStructure, o: BoardStructure, s: Seq<Pieces>, n: int)
    requires
        0 <= n < s.len(),
        s.len() == 120,
        lists_added(b0, o, s, n),
        forall|p: int| 1 <= p <= 12 ==> o.num_pieces[p] <= #[trigger] b0.num_pieces[p] <= 10,
        is_real(s[n] as usize) ==> b0.num_pieces[s[n] as int] < 10,
        forall|p: int| 1 <= p <= 12 ==> #[trigger] b1.num_pieces[p] == b0.num_pieces[p] + (if p == s[n] as int { 1int } else { 0int }),
        forall|pp: int, i: int| 0 <= pp < 13 && 0 <= i < 10 ==> #[trigger] b1.piece_list[pp][i] == (if is_real(s[n] as usize)
            && pp == s[n] as int && i == b0.num_pieces[pp] {
            n as usize
        } else {
            b0.piece_list[pp][i]
        }),
    ensures
        lists_added(b1, o, s, n + 1),
{
    reveal(lists_added);
    assert forall|p: int| 1 <= p <= 12 implies #[trigger] list_added(b1, o, s, n + 1, p) by {
        assert(list_added(b0, o, s, n, p));
        assert forall|i: int| 0 <= i < b0.num_pieces[p] implies #[trigger] b1.piece_list[p][i] == b0.piece_list[p][i] by {}
        if p == s[n] as int {
            let k = b0.num_pieces[p] as int;
            assert(0 <= k < 10);
            assert(b1.piece_list[p][k] == n);
        }
        assert forall|q: int| 0 <= q < n + 1 && #[trigger] s[q] as int == p implies exists|i: int| o.num_pieces[p] <= i
            < b1.num_pieces[p] && b1.piece_list[p][i] == q by {
            if q == n {
                assert(b1.piece_list[p][b0.num_pieces[p] as int] == q);
            } else {
                let i = choose|i: int| o.num_pieces[p] <= i < b0.num_pieces[p] && b0.piece_list[p][i] == q;
                assert(b1.piece_list[p][i] == q);
            }
        }
        assert forall|i: int, j: int| o.num_pieces[p] <= i < j < b1.num_pieces[p] implies #[trigger] b1.piece_list[p][i]
            < #[trigger] b1.piece_list[p][j] by {
            if j < b0.num_pieces[p] {
                assert(b0.piece_list[p][i] < b0.piece_list[p][j]);
            } else {
                assert(b0.piece_list[p][i] < n);
            }
        }
    }
}

/// One more square marked in the pawn bitboards.
proof fn lemma_pawns_step(b0: BoardStructure, b1: BoardStructure, o: BoardStructure, s: Seq<Pieces>, n: int)
    requires
        0 <= n < s.len(),
        pawns_added(b0, o, s, n),
        (s[n] == Pieces::Wp || s[n] == Pieces::Bp) ==> on_board(n),
        forall|k: int, i: u64| 0 <= k < 3 && i < 64 ==> (#[trigger] bit_set(b1.pawns[k], i) <==> (bit_set(b0.pawns[k], i)
            || (i == spec_big_to_small(n) && pawn_bit_of(k, s[n])))),
    ensures
        pawns_added(b1, o, s, n + 1),
{
    reveal(pawns_added);
    assert forall|k: int, i: u64| 0 <= k < 3 && i < 64 implies (#[trigger] bit_set(b1.pawns[k], i) <==> (bit_set(
        o.pawns[k],
        i,
    ) || (spec_small_to_big(i as int) < n + 1 && pawn_bit_of(k, s[spec_small_to_big(i as int) as int])))) by {
        lemma_small_big(i as int);
        assert(bit_set(b0.pawns[k], i) <==> (bit_set(o.pawns[k], i) || (spec_small_to_big(i as int) < n && pawn_bit_of(
            k,
            s[spec_small_to_big(i as int) as int],
        ))));
        if pawn_bit_of(k, s[n]) {
            lemma_big_small(n);
        }
    }
}

/// Add a real piece to the counters of its color.
fn count_piece(board: &mut BoardStructure, piece: usize)
    requires
        is_real(piece),
        old(board).mat_strength[0] + mat_f(Players::White)(piece) <= usize::MAX,
        old(board).mat_strength[1] + mat_f(Players::Black)(piece) <= usize::MAX,
        old(board).big_pieces[0] + big_f(Players::White)(piece) <= 255,
        old(board).big_pieces[1] + big_f(Players::Black)(piece) <= 255,
        old(board).min_pieces[0] + min_f(Players::White)(piece) <= 255,
        old(board).min_pieces[1] + min_f(Players::Black)(piece) <= 255,
        old(board).maj_pieces[0] + maj_f(Players::White)(piece) <= 255,
        old(board).maj_pieces[1] + maj_f(Players::Black)(piece) <= 255,
    ensures
        final(board).mat_strength[0] == old(board).mat_strength[0] + mat_f(Players::White)(piece),
        final(board).mat_strength[1] == old(board).mat_strength[1] + mat_f(Players::Black)(piece),
        final(board).big_pieces[0] == old(board).big_pieces[0] + big_f(Players::White)(piece),
        final(board).big_pieces[1] == old(board).big_pieces[1] + big_f(Players::Black)(piece),
        final(board).min_pieces[0] == old(board).min_pieces[0] + min_f(Players::White)(piece),
        final(board).min_pieces[1] == old(board).min_pieces[1] + min_f(Players::Black)(piece),
        final(board).maj_pieces[0] == old(board).maj_pieces[0] + maj_f(Players::White)(piece),
        final(board).maj_pieces[1] == old(board).maj_pieces[1] + maj_f(Players::Black)(piece),
        final(board).board == old(board).board,
        final(board).num_pieces == old(board).num_pieces,
        final(board).piece_list == old(board).piece_list,
        final(board).pawns == old(board).pawns,
        final(board).king_sqs == old(board).king_sqs,
        final(board).side == old(board).side,
        final(board).castle_perm == old(board).castle_perm,
        final(board).en_pas == old(board).en_pas,
        final(board).fifty_cnt == old(board).fifty_cnt,
        final(board).ply_depth == old(board).ply_depth,
        final(board).ply == old(board).ply,
        final(board).pos_key == old(board).pos_key,
        final(board).history == old(board).history,
        final(board).eq_search(old(board)),
{
    let color: usize = color_mask(piece) as usize;
    if big_mask(piece) {
        board.big_pieces[color] = board.big_pieces[color] + 1;
    }
    if min_mask(piece) {
        board.min_pieces[color] = board.min_pieces[color] + 1;
    }
    if maj_mask(piece) {
        board.maj_pieces[color] = board.maj_pieces[color] + 1;
    }
    board.mat_strength[color] = board.mat_strength[color] + values(piece);
}

/// Derive piece lists, counters, king squares and pawn bitboards from the
/// squares, adding to what the board already holds: each piece found is
/// appended to its list and counted, each king square recorded, each pawn
/// marked in the bitboards of its color and of both.
#[verifier::rlimit(30)]
pub fn update_material_lists(board: &mut BoardStructure)
    requires
        forall|p: int| 1 <= p <= 12 ==> old(board).num_pieces[p] + #[trigger] count_of(old(board).board@, p as usize) <= 10,
        old(board).mat_strength[0] + sum_pieces(old(board).board@, 120, mat_f(Players::White)) <= usize::MAX,
        old(board).mat_strength[1] + sum_pieces(old(board).board@, 120, mat_f(Players::Black)) <= usize::MAX,
        old(board).big_pieces[0] + sum_pieces(old(board).board@, 120, big_f(Players::White)) <= 255,
        old(board).big_pieces[1] + sum_pieces(old(board).board@, 120, big_f(Players::Black)) <= 255,
        old(board).min_pieces[0] + sum_pieces(old(board).board@, 120, min_f(Players::White)) <= 255,
        old(board).min_pieces[1] + sum_pieces(old(board).board@, 120, min_f(Players::Black)) <= 255,
        old(board).maj_pieces[0] + sum_pieces(old(board).board@, 120, maj_f(Players::White)) <= 255,
        old(board).maj_pieces[1] + sum_pieces(old(board).board@, 120, maj_f(Players::Black)) <= 255,
        forall|q: int| 0 <= q < 120 && (old(board).board[q] == Pieces::Wp || old(board).board[q] == Pieces::Bp) ==> on_board(q),
    ensures
        counters_added(*final(board), *old(board), old(board).board@, 120),
        lists_added(*final(board), *old(board), old(board).board@, 120),
        pawns_added(*final(board), *old(board), old(board).board@, 120),
        final(board).king_sqs[0] == last_sq_of(old(board).board@, Pieces::Wk, 120, old(board).king_sqs[0]),
        final(board).king_sqs[1] == last_sq_of(old(board).board@, Pieces::Bk, 120, old(board).king_sqs[1]),
        final(board).board == old(board).board,
        final(board).side == old(board).side,
        final(board).castle_perm == old(board).castle_perm,
        final(board).en_pas == old(board).en_pas,
        final(board).fifty_cnt == old(board).fifty_cnt,
        final(board).ply_depth == old(board).ply_depth,
        final(board).ply == old(board).ply,
        final(board).pos_key == old(board).pos_key,
        final(board).history == old(board).history,
        final(board).eq_search(old(board)),
{
    let ghost ob = *board;
    let ghost s = ob.board@;
    proof {
        reveal(counters_added);
        reveal(lists_added);
        reveal(pawns_added);
    }
    let mut sq: usize = 0;
    while sq < 120
        invariant
            sq <= 120,
            board.board == ob.board,
            s == ob.board@,
            board.side == ob.side,
            board.castle_perm == ob.castle_perm,
            board.en_pas == ob.en_pas,
            board.fifty_cnt == ob.fifty_cnt,
            board.ply_depth == ob.ply_depth,
            board.ply == ob.ply,
            board.pos_key == ob.pos_key,
            board.history == ob.history,
            board.eq_search(&ob),
            forall|p: int| 1 <= p <= 12 ==> ob.num_pieces[p] + #[trigger] count_of(s, p as usize) <= 10,
            ob.mat_strength[0] + sum_pieces(s, 120, mat_f(Players::White)) <= usize::MAX,
            ob.mat_strength[1] + sum_pieces(s, 120, mat_f(Players::Black)) <= usize::MAX,
            ob.big_pieces[0] + sum_pieces(s, 120, big_f(Players::White)) <= 255,
            ob.big_pieces[1] + sum_pieces(s, 120, big_f(Players::Black)) <= 255,
            ob.min_pieces[0] + sum_pieces(s, 120, min_f(Players::White)) <= 255,
            ob.min_pieces[1] + sum_pieces(s, 120, min_f(Players::Black)) <= 255,
            ob.maj_pieces[0] + sum_pieces(s, 120, maj_f(Players::White)) <= 255,
            ob.maj_pieces[1] + sum_pieces(s, 120, maj_f(Players::Black)) <= 255,
            forall|q: int| 0 <= q < 120 && (s[q] == Pieces::Wp || s[q] == Pieces::Bp) ==> on_board(q),
            counters_added(*board, ob, s, sq as int),
            lists_added(*board, ob, s, sq as int),
            pawns_added(*board, ob, s, sq as int),
            board.king_sqs[0] == last_sq_of(s, Pieces::Wk, sq as int, ob.king_sqs[0]),
            board.king_sqs[1] == last_sq_of(s, Pieces::Bk, sq as int, ob.king_sqs[1]),
        decreases 120 - sq,
    {
        let ghost b0 = *board;
        let piece: usize = board.board[sq] as usize;
        proof {
            reveal(counters_added);
            lemma_sum_mono(s, sq + 1, 120, mat_f(Players::White));
            lemma_sum_mono(s, sq + 1, 120, mat_f(Players::Black));
            lemma_sum_mono(s, sq + 1, 120, big_f(Players::White));
            lemma_sum_mono(s, sq + 1, 120, big_f(Players::Black));
            lemma_sum_mono(s, sq + 1, 120, min_f(Players::White));
            lemma_sum_mono(s, sq + 1, 120, min_f(Players::Black));
            lemma_sum_mono(s, sq + 1, 120, maj_f(Players::White));
            lemma_sum_mono(s, sq + 1, 120, maj_f(Players::Black));
            assert forall|p: int| 1 <= p <= 12 implies ob.num_pieces[p] <= #[trigger] b0.num_pieces[p] && b0.num_pieces[p]
                + ind(p as usize)(piece) <= 10 by {
                lemma_sum_mono(s, sq + 1, 120, ind(p as usize));
                lemma_sum_nonneg(s, sq as int, ind(p as usize));
                assert(count_of(s, p as usize) == sum_pieces(s, 120, ind(p as usize)));
            }
        }
        if piece != Pieces::Empty as usize && piece != Pieces::OffLimits as usize {
            count_piece(board, piece);
            let n: usize = board.num_pieces[piece];
            board.piece_list[piece][n] = sq;
            board.num_pieces[piece] = n + 1;
            assert(piece as int == s[sq as int] as int);
            assert forall|pp: int, i: int| 0 <= pp < 13 && 0 <= i < 10 implies #[trigger] board.piece_list[pp][i] == (if pp
                == piece as int && i == b0.num_pieces[pp] {
                sq
            } else {
                b0.piece_list[pp][i]
            }) by {}
            if piece == Pieces::Wk as usize {
                board.king_sqs[0] = sq;
            }
            if piece == Pieces::Bk as usize {
                board.king_sqs[1] = sq;
            }
            if piece == Pieces::Wp as usize {
                proof { lemma_big_small(sq as int); }
                set_bit(&mut board.pawns[0], big_to_small(sq));
                set_bit(&mut board.pawns[2], big_to_small(sq));
            }
            if piece == Pieces::Bp as usize {
                proof { lemma_big_small(sq as int); }
                set_bit(&mut board.pawns[1], big_to_small(sq));
                set_bit(&mut board.pawns[2], big_to_small(sq));
            }
        }
        proof {
            lemma_counters_step(b0, *board, ob, s, sq as int);
            lemma_lists_step(b0, *board, ob, s, sq as int);
            lemma_pawns_step(b0, *board, ob, s, sq as int);
        }
        sq = sq + 1;
    }
}

/// The characters of a string, in order.
pub fn chars_of(s: &str) -> (r: Vec<char>)
    ensures
        r@ == s@,
{
    let len: usize = s.unicode_len();
    let mut r: Vec<char> = Vec::new();
    let mut i: usize = 0;
    while i < len
        invariant
            len == s@.len(),
            i <= len,
            r@ == s@.subrange(0, i as int),
        decreases len - i,
    {
        r.push(s.get_char(i));
        i = i + 1;
    }
    r
}

/// The piece a letter of the piece placement field names.
pub open spec fn fen_piece(c: char) -> Option<Pieces> {
    if c == 'P' { Some(Pieces::Wp) }
    else if c == 'N' { Some(Pieces::Wn) }
    else if c == 'B' { Some(Pieces::Wb) }
    else if c == 'R' { Some(Pieces::Wr) }
    else if c == 'Q' { Some(Pieces::Wq) }
    else if c == 'K' { Some(Pieces::Wk) }
    else if c == 'p' { Some(Pieces::Bp) }
    else if c == 'n' { Some(Pieces::Bn) }
    else if c == 'b' { Some(Pieces::Bb) }
    else if c == 'r' { Some(Pieces::Br) }
    else if c == 'q' { Some(Pieces::Bq) }
    else if c == 'k' { Some(Pieces::Bk) }
    else { None }
}

fn piece_of_char(c: char) -> (r: Option<Pieces>)
    ensures
        r == fen_piece(c),
{
    if c == 'P' { Some(Pieces::Wp) }
    else if c == 'N' { Some(Pieces::Wn) }
    else if c == 'B' { Some(Pieces::Wb) }
    else if c == 'R' { Some(Pieces::Wr) }
    else if c == 'Q' { Some(Pieces::Wq) }
    else if c == 'K' { Some(Pieces::Wk) }
    else if c == 'p' { Some(Pieces::Bp) }
    else if c == 'n' { Some(Pieces::Bn) }
    else if c == 'b' { Some(Pieces::Bb) }
    else if c == 'r' { Some(Pieces::Br) }
    else if c == 'q' { Some(Pieces::Bq) }
    else if c == 'k' { Some(Pieces::Bk) }
    else { None }
}

/// The empty board: border squares `OffLimits`, playing squares `Empty`.
pub open spec fn empty_squares() -> Seq<Pieces> {
    Seq::new(120, |sq: int| if on_board(sq) { Pieces::Empty } else { Pieces::OffLimits })
}

/// Writing `cnt` times the piece `p` from file `file` of rank `rank` on,
/// one file after the other (nothing is written for `Empty`); `None` when
/// a piece falls beyond the 64 squares.
pub open spec fn fen_run(s: Seq<Pieces>, rank: int, file: int, p: Pieces, cnt: int) -> Option<Seq<Pieces>>
    decreases cnt,
{
    if cnt <= 0 {
        Some(s)
    } else if p == Pieces::Empty {
        fen_run(s, rank, file + 1, p, cnt - 1)
    } else if file + rank * 8 < 64 {
        fen_run(s.update(spec_small_to_big(file + rank * 8) as int, p), rank, file + 1, p, cnt - 1)
    } else {
        None
    }
}

/// The piece placement field read from index `i` on, with the current
/// rank and file and the piece last named: digits skip that many files,
/// a letter places its piece, `/` goes down a rank, a space ends the
/// field, any other character places the piece last named again. The
/// squares and the index after the space, or `None` where reading fails:
/// the text ends, a rank below the first is reached, or a piece falls off
/// the board.
pub open spec fn fen_layout(f: Seq<char>, i: int, rank: int, file: int, piece: Pieces, s: Seq<Pieces>) -> Option<(Seq<Pieces>, int)>
    decreases f.len() - i,
{
    if i < 0 || i >= f.len() {
        None
    } else if f[i] == ' ' {
        Some((s, i + 1))
    } else if f[i] == '/' {
        if rank <= 0 {
            None
        } else {
            fen_layout(f, i + 1, rank - 1, 0, piece, s)
        }
    } else {
        let c = f[i];
        let np = if '1' <= c && c <= '8' {
            Pieces::Empty
        } else if fen_piece(c) is Some {
            fen_piece(c)->0
        } else {
            piece
        };
        let cnt = if '1' <= c && c <= '8' { (c as u32) as int - 48 } else { 1 };
        match fen_run(s, rank, file, np, cnt) {
            Some(s2) => fen_layout(f, i + 1, rank, file + cnt, np, s2),
            None => None,
        }
    }
}

/// Castling permission bit a letter of the castling field names.
pub open spec fn castle_bit(c: char) -> u8 {
    if c == 'K' { 8 } else if c == 'Q' { 4 } else if c == 'k' { 2 } else if c == 'q' { 1 } else { 0 }
}

/// The castling field: at most `left` characters up to a space, each
/// letter adding its permission. The permissions and the index after the
/// field, `None` if the text ends first.
pub open spec fn fen_castling(f: Seq<char>, i: int, left: int, perm: u8) -> Option<(u8, int)>
    decreases left,
{
    if left <= 0 {
        Some((perm, i))
    } else if i < 0 || i >= f.len() {
        None
    } else if f[i] == ' ' {
        Some((perm, i + 1))
    } else {
        fen_castling(f, i + 1, left - 1, perm | castle_bit(f[i]))
    }
}

/// The en passant field: `-` for none (square 0), else a file letter and
/// a rank digit. `None` if the text ends first, the characters lie below
/// `a` and `1`, or the square is beyond the mailbox.
pub open spec fn fen_ep(f: Seq<char>, i: int) -> Option<usize> {
    if i < 0 || i >= f.len() {
        None
    } else if f[i] == '-' {
        Some(0)
    } else if (f[i] as u32) < 97 || i + 1 >= f.len() || (f[i + 1] as u32) < 49 {
        None
    } else {
        let ep = 21 + ((f[i] as u32) as int - 97) + ((f[i + 1] as u32) as int - 49) * 10;
        if ep < 120 { Some(ep as usize) } else { None }
    }
}

/// A position read from FEN: squares, side to move (white for `w`, black
/// for anything else), castling permissions and en passant square; the
/// move counters are not read. `None` where reading fails.
pub open spec fn fen_parse(f: Seq<char>) -> Option<(Seq<Pieces>, Players, u8, usize)> {
    match fen_layout(f, 0, 7, 0, Pieces::Empty, empty_squares()) {
        None => None,
        Some((s, j)) => if j + 1 >= f.len() {
            None
        } else {
            let side = if f[j] == 'w' { Players::White } else { Players::Black };
            match fen_castling(f, j + 2, 5, 0) {
                None => None,
                Some((perm, k)) => match fen_ep(f, k) {
                    None => None,
                    Some(ep) => Some((s, side, perm, ep)),
                },
            }
        },
    }
}

/// A FEN text the engine can set up: it reads, and no piece appears more
/// than ten times.
pub open spec fn fen_ok(f: Seq<char>) -> bool {
    &&& fen_parse(f) is Some
    &&& forall|p: int| 1 <= p <= 12 ==> #[trigger] count_of(fen_squares(f), p as usize) <= 10
}

/// The squares of a position read from FEN (the empty board where reading
/// fails).
pub open spec fn fen_squares(f: Seq<char>) -> Seq<Pieces> {
    match fen_parse(f) {
        Some((s, _side, _perm, _ep)) => s,
        None => empty_squares(),
    }
}

/// The fields of a position read from FEN.
pub struct FenFields {
    pub squares: [Pieces; 120],
    pub side: Players,
    pub castle_perm: u8,
    pub en_pas: usize,
}

/// The empty board.
fn empty_board() -> (r: [Pieces; 120])
    ensures
        r@ == empty_squares(),
{
    let mut r: [Pieces; 120] = [Pieces::OffLimits; 120];
    let mut s: usize = 0;
    while s < 64
        invariant
            s <= 64,
            forall|q: int| 0 <= q < 120 ==> r[q] == (if on_board(q) && spec_big_to_small(q) < s {
                Pieces::Empty
            } else {
                Pieces::OffLimits
            }),
        decreases 64 - s,
    {
        let big: usize = small_to_big(s);
        r[big] = Pieces::Empty;
        proof {
            assert forall|q: int| 0 <= q < 120 implies r[q] == (if on_board(q) && spec_big_to_small(q) < s + 1 {
                Pieces::Empty
            } else {
                Pieces::OffLimits
            }) by {
                if on_board(q) {
                    lemma_big_small(q);
                }
            }
        }
        s = s + 1;
    }
    proof {
        assert forall|q: int| 0 <= q < 120 && on_board(q) implies spec_big_to_small(q) < 64 by {
            lemma_big_small(q);
        }
    }
    assert(r@ =~= empty_squares());
    r
}

/// Read the piece placement field; the squares and the index after it.
fn parse_layout(f: &Vec<char>) -> (r: Option<([Pieces; 120], usize)>)
    requires
        f@.len() < 0x1000_0000,
    ensures
        match fen_layout(f@, 0, 7, 0, Pieces::Empty, empty_squares()) {
            None => r is None,
            Some((s, j)) => match r {
                Some((a, b)) => a@ == s && b == j && b <= f@.len(),
                None => false,
            },
        },
{
    let mut sqs: [Pieces; 120] = empty_board();
    let mut i: usize = 0;
    let mut rank: usize = 7;
    let mut file: usize = 0;
    let mut piece: Pieces = Pieces::Empty;
    let ghost total = fen_layout(f@, 0, 7, 0, Pieces::Empty, empty_squares());
    loop
        invariant
            f@.len() < 0x1000_0000,
            i <= f@.len(),
            rank <= 7,
            file <= 8 * i,
            total == fen_layout(f@, 0, 7, 0, Pieces::Empty, empty_squares()),
            fen_layout(f@, i as int, rank as int, file as int, piece, sqs@) == total,
        ensures
            i < f@.len(),
            f@[i as int] == ' ',
        decreases f@.len() - i,
    {
        if i >= f.len() {
            return None;
        }
        let c: char = f[i];
        if c == ' ' {
            break;
        }
        if c == '/' {
            if rank == 0 {
                return None;
            }
            rank = rank - 1;
            file = 0;
            i = i + 1;
        } else {
            let is_digit: bool = '1' <= c && c <= '8';
            let np: Pieces = if is_digit {
                Pieces::Empty
            } else {
                match piece_of_char(c) {
                    Some(p) => p,
                    None => piece,
                }
            };
            let cnt: usize = if is_digit { (c as u32 - 48) as usize } else { 1 };
            assert(cnt as int == (if '1' <= c && c <= '8' { (c as u32) as int - 48 } else { 1 }));
            let ghost s0 = sqs@;
            let mut k: usize = 0;
            while k < cnt
                invariant
                    k <= cnt,
                    cnt <= 8,
                    i < f@.len(),
                    f@[i as int] == c,
                    c != ' ' && c != '/',
                    np == (if '1' <= c && c <= '8' {
                        Pieces::Empty
                    } else if fen_piece(c) is Some {
                        fen_piece(c)->0
                    } else {
                        piece
                    }),
                    cnt as int == (if '1' <= c && c <= '8' { (c as u32) as int - 48 } else { 1 }),
                    fen_layout(f@, i as int, rank as int, file as int, piece, s0) == total,
                    total == fen_layout(f@, 0, 7, 0, Pieces::Empty, empty_squares()),
                    rank <= 7,
                    file <= 8 * i,
                    i < 0x1000_0000,
                    fen_run(sqs@, rank as int, (file + k) as int, np, (cnt - k) as int) == fen_run(s0, rank as int,
                        file as int, np, cnt as int),
                decreases cnt - k,
            {
                if np != Pieces::Empty {
                    let small: usize = file + k + rank * 8;
                    if small >= 64 {
                        proof {
                            assert(fen_run(sqs@, rank as int, (file + k) as int, np, (cnt - k) as int) is None);
                            assert(fen_layout(f@, i as int, rank as int, file as int, piece, s0) is None);
                        }
                        return None;
                    }
                    let big: usize = small_to_big(small);
                    sqs[big] = np;
                }
                k = k + 1;
            }
            piece = np;
            file = file + cnt;
            i = i + 1;
        }
    }
    Some((sqs, i + 1))
}

/// Read the castling field from index `i` on.
fn parse_castling(f: &Vec<char>, i: usize) -> (r: Option<(u8, usize)>)
    requires
        f@.len() < 0x1000_0000,
        i <= f@.len() + 2,
    ensures
        match fen_castling(f@, i as int, 5, 0) {
            None => r is None,
            Some((perm, k)) => match r {
                Some((a, b)) => a == perm && b == k && a < 16,
                None => false,
            },
        },
{
    let mut k: usize = i;
    let mut left: usize = 5;
    let mut perm: u8 = 0;
    while left > 0
        invariant
            f@.len() < 0x1000_0000,
            k <= f@.len() + 2,
            left <= 5,
            perm < 16,
            fen_castling(f@, k as int, left as int, perm) == fen_castling(f@, i as int, 5, 0),
        decreases left,
    {
        if k >= f.len() {
            return None;
        }
        let c: char = f[k];
        if c == ' ' {
            return Some((perm, k + 1));
        }
        let b: u8 = if c == 'K' { 8 } else if c == 'Q' { 4 } else if c == 'k' { 2 } else if c == 'q' { 1 } else { 0 };
        assert(perm | b < 16) by (bit_vector)
            requires perm < 16, b < 16;
        perm = perm | b;
        k = k + 1;
        left = left - 1;
    }
    Some((perm, k))
}

/// Read the en passant field at index `i`.
fn parse_ep(f: &Vec<char>, i: usize) -> (r: Option<usize>)
    requires
        f@.len() < 0x1000_0000,
    ensures
        r == fen_ep(f@, i as int),
{
    if i >= f.len() {
        return None;
    }
    let c: char = f[i];
    if c == '-' {
        return Some(0);
    }
    if (c as u32) < 97 || i + 1 >= f.len() || (f[i + 1] as u32) < 49 {
        return None;
    }
    let file: u32 = c as u32 - 97;
    let rank: u32 = f[i + 1] as u32 - 49;
    if file >= 120 || rank >= 120 {
        return None;
    }
    let ep: usize = 21 + file as usize + (rank as usize) * 10;
    if ep < 120 {
        Some(ep)
    } else {
        None
    }
}

/// Read a position in FEN; `None` exactly where the text cannot be set up
/// (see `fen_ok`).
pub fn parse_fen(f: &Vec<char>) -> (r: Option<FenFields>)
    requires
        f@.len() < 0x1000_0000,
    ensures
        r is Some <==> fen_ok(f@),
        r is Some ==> fen_parse(f@) == Some((r->0.squares@, r->0.side, r->0.castle_perm, r->0.en_pas)),
        r is Some ==> border_ok(r->0.squares@) && r->0.castle_perm < 16 && r->0.en_pas < 120,
{
    let (sqs, j) = match parse_layout(f) {
        Some(x) => x,
        None => return None,
    };
    if j + 1 >= f.len() {
        return None;
    }
    let side: Players = if f[j] == 'w' { Players::White } else { Players::Black };
    let (perm, k) = match parse_castling(f, j + 2) {
        Some(x) => x,
        None => return None,
    };
    let ep: usize = match parse_ep(f, k) {
        Some(e) => e,
        None => return None,
    };
    assert(fen_parse(f@) == Some((sqs@, side, perm, ep)));
    proof {
        lemma_fen_layout_border(f@, 0, 7, 0, Pieces::Empty, empty_squares());
    }
    let mut counts: [usize; 13] = [0usize; 13];
    let mut sq: usize = 0;
    while sq < 120
        invariant
            sq <= 120,
            forall|p: int| 0 <= p < 13 ==> #[trigger] counts[p] == sum_pieces(sqs@, sq as int, ind(p as usize)),
        decreases 120 - sq,
    {
        let p: usize = sqs[sq] as usize;
        proof {
            lemma_count_bounded_prefix(sqs@, sq as int);
        }
        if p < 13 {
            counts[p] = counts[p] + 1;
        }
        sq = sq + 1;
    }
    let mut p: usize = 1;
    while p < 13
        invariant
            1 <= p <= 13,
            fen_parse(f@) == Some((sqs@, side, perm, ep)),
            forall|q: int| 0 <= q < 13 ==> #[trigger] counts[q] == sum_pieces(sqs@, 120, ind(q as usize)),
            forall|q: int| 1 <= q < p ==> #[trigger] count_of(sqs@, q as usize) <= 10,
        decreases 13 - p,
    {
        if counts[p] > 10 {
            assert(count_of(sqs@, p) > 10);
            assert(fen_squares(f@) == sqs@);
            assert(fen_ok(f@) ==> count_of(fen_squares(f@), p as int as usize) <= 10);
            return None;
        }
        p = p + 1;
    }
    Some(FenFields { squares: sqs, side, castle_perm: perm, en_pas: ep })
}

/// Counts over the first `n` squares are at most `n`.
proof fn lemma_count_bounded_prefix(s: Seq<Pieces>, n: int)
    requires
        0 <= n <= 120,
    ensures
        forall|p: usize| 0 <= #[trigger] sum_pieces(s, n, ind(p)) <= n,
{
    assert forall|p: usize| 0 <= #[trigger] sum_pieces(s, n, ind(p)) <= n by {
        crate::model::lemma_sum_bounds(s, n, ind(p), 1);
    }
}

/// The side to move of a position read from FEN.
pub open spec fn fen_side(f: Seq<char>) -> Players {
    match fen_parse(f) {
        Some((_s, side, _perm, _ep)) => side,
        None => Players::Both,
    }
}

/// The castling permissions of a position read from FEN.
pub open spec fn fen_castle(f: Seq<char>) -> u8 {
    match fen_parse(f) {
        Some((_s, _side, perm, _ep)) => perm,
        None => 0,
    }
}

/// The en passant square of a position read from FEN.
pub open spec fn fen_en_pas(f: Seq<char>) -> usize {
    match fen_parse(f) {
        Some((_s, _side, _perm, ep)) => ep,
        None => 0,
    }
}

/// The squares of a successful read of the placement field.
pub open spec fn first_of(r: Option<(Seq<Pieces>, int)>) -> Seq<Pieces> {
    match r {
        Some((s, _j)) => s,
        None => empty_squares(),
    }
}

/// The border squares are `OffLimits` and only they.
pub open spec fn border_ok(s: Seq<Pieces>) -> bool {
    &&& s.len() == 120
    &&& forall|q: int| 0 <= q < 120 ==> ((#[trigger] s[q] == Pieces::OffLimits) <==> !on_board(q))
}

proof fn lemma_fen_run_border(s: Seq<Pieces>, rank: int, file: int, p: Pieces, cnt: int)
    requires
        border_ok(s),
        p != Pieces::OffLimits,
        rank >= 0,
        file >= 0,
        fen_run(s, rank, file, p, cnt) is Some,
    ensures
        border_ok(fen_run(s, rank, file, p, cnt)->0),
    decreases cnt,
{
    if cnt > 0 {
        if p == Pieces::Empty {
            lemma_fen_run_border(s, rank, file + 1, p, cnt - 1);
        } else {
            let q = spec_small_to_big(file + rank * 8) as int;
            lemma_small_big(file + rank * 8);
            let s2 = s.update(q, p);
            assert forall|x: int| 0 <= x < 120 implies ((#[trigger] s2[x] == Pieces::OffLimits) <==> !on_board(x)) by {
                if x != q {
                    assert(s2[x] == s[x]);
                }
            }
            lemma_fen_run_border(s2, rank, file + 1, p, cnt - 1);
        }
    }
}

proof fn lemma_fen_layout_border(f: Seq<char>, i: int, rank: int, file: int, piece: Pieces, s: Seq<Pieces>)
    requires
        border_ok(s),
        piece != Pieces::OffLimits,
        rank >= 0,
        file >= 0,
        fen_layout(f, i, rank, file, piece, s) is Some,
    ensures
        border_ok(first_of(fen_layout(f, i, rank, file, piece, s))),
    decreases f.len() - i,
{
    if 0 <= i < f.len() && f[i] != ' ' {
        if f[i] == '/' {
            lemma_fen_layout_border(f, i + 1, rank - 1, 0, piece, s);
        } else {
            let c = f[i];
            let np = if '1' <= c && c <= '8' {
                Pieces::Empty
            } else if fen_piece(c) is Some {
                fen_piece(c)->0
            } else {
                piece
            };
            let cnt = if '1' <= c && c <= '8' { (c as u32) as int - 48 } else { 1 };
            lemma_fen_run_border(s, rank, file, np, cnt);
            lemma_fen_layout_border(f, i + 1, rank, file + cnt, np, fen_run(s, rank, file, np, cnt)->0);
        }
    }
}

/// Lists, counters and bitboards derived from a cleared board agree with
/// the squares.
proof fn lemma_fresh_pieces_wf(b: BoardStructure, o: BoardStructure)
    requires
        border_ok(b.board@),
        o.board == b.board,
        o.mat_strength@ == seq![0usize, 0usize],
        o.big_pieces@ == seq![0u8, 0u8],
        o.min_pieces@ == seq![0u8, 0u8],
        o.maj_pieces@ == seq![0u8, 0u8],
        o.pawns@ == seq![0u64, 0u64, 0u64],
        forall|p: int| 0 <= p < 13 ==> o.num_pieces[p] == 0,
        forall|p: int| 1 <= p <= 12 ==> #[trigger] count_of(b.board@, p as usize) <= 10,
        counters_added(b, o, b.board@, 120),
        lists_added(b, o, b.board@, 120),
        pawns_added(b, o, b.board@, 120),
    ensures
        b.pieces_wf(),
{
    reveal(counters_added);
    reveal(lists_added);
    reveal(pawns_added);
    reveal(BoardStructure::derived_wf);
    let s = b.board@;
    assert(o.mat_strength[0] == 0 && o.mat_strength[1] == 0);
    assert(o.big_pieces[0] == 0 && o.big_pieces[1] == 0);
    assert(o.min_pieces[0] == 0 && o.min_pieces[1] == 0);
    assert(o.maj_pieces[0] == 0 && o.maj_pieces[1] == 0);
    assert(o.pawns[0] == 0 && o.pawns[1] == 0 && o.pawns[2] == 0);
    assert forall|p: int| 1 <= p <= 12 implies #[trigger] b.list_wf(p) by {
        assert(list_added(b, o, s, 120, p));
        assert(b.num_pieces[p] == count_of(s, p as usize));
        assert forall|i: int| 0 <= i < b.num_pieces[p] implies on_board(#[trigger] b.piece_list[p][i] as int)
            && b.board[b.piece_list[p][i] as int] as int == p by {
            assert(s[b.piece_list[p][i] as int] != Pieces::OffLimits);
        }
        assert forall|i: int, j: int| 0 <= i < j < b.num_pieces[p] implies #[trigger] b.piece_list[p][i]
            != #[trigger] b.piece_list[p][j] by {
            assert(b.piece_list[p][i] < b.piece_list[p][j]);
        }
        assert forall|sq: int| 0 <= sq < 120 && #[trigger] b.board[sq] as int == p implies b.listed(p, sq) by {
            assert(s[sq] as int == p);
        }
    }
    assert forall|k: int, i: u64| 0 <= k < 3 && i < 64 implies !bit_set(o.pawns[k], i) by {
        assert(o.pawns[k] == 0);
        assert(!bit_set(0u64, i)) by (bit_vector);
    }
    assert forall|i: u64| i < 64 implies {
        &&& (#[trigger] bit_set(b.pawns[0], i) <==> s[spec_small_to_big(i as int) as int] == Pieces::Wp)
        &&& (bit_set(b.pawns[1], i) <==> s[spec_small_to_big(i as int) as int] == Pieces::Bp)
        &&& (bit_set(b.pawns[2], i) <==> (s[spec_small_to_big(i as int) as int] == Pieces::Wp
            || s[spec_small_to_big(i as int) as int] == Pieces::Bp))
    } by {
        lemma_small_big(i as int);
        assert(bit_set(b.pawns[0], i) <==> (bit_set(o.pawns[0], i) || (spec_small_to_big(i as int) < 120 && pawn_bit_of(0, s[spec_small_to_big(i as int) as int]))));
        assert(bit_set(b.pawns[1], i) <==> (bit_set(o.pawns[1], i) || (spec_small_to_big(i as int) < 120 && pawn_bit_of(1, s[spec_small_to_big(i as int) as int]))));
        assert(bit_set(b.pawns[2], i) <==> (bit_set(o.pawns[2], i) || (spec_small_to_big(i as int) < 120 && pawn_bit_of(2, s[spec_small_to_big(i as int) as int]))));
    }
    assert(b.pawns_wf());
}

/// The position a board with history `h` and keys `k` holds once set up
/// from the FEN text `f`.
pub open spec fn fen_setup(f: Seq<char>, h: Seq<crate::structs::Undo>, k: crate::structs::ZobristKeys) -> crate::rules::Position {
    crate::rules::Position {
        squares: fen_squares(f),
        side: fen_side(f),
        castle_perm: fen_castle(f),
        en_pas: fen_en_pas(f),
        fifty_cnt: 0,
        ply_depth: 0,
        ply: 0,
        pos_key: crate::model::position_hash(fen_squares(f), fen_side(f), fen_en_pas(f), fen_castle(f), k),
        king_sqs: seq![last_sq_of(fen_squares(f), Pieces::Wk, 120, NO_SQ), last_sq_of(fen_squares(f), Pieces::Bk, 120, NO_SQ)],
        history: h,
    }
}

/// Set up the board from a position in FEN: the squares, the side to
/// move, castling permissions and en passant square are those read; move
/// counters and search depth are zero; the key is the position's hash; piece
/// lists, counters, king squares and pawn bitboards agree with the squares.
/// Search tables, history, transposition table and keys stay.
pub fn build_fen(fen: String, board: &mut BoardStructure)
    requires
        fen@.len() < 0x1000_0000,
        fen_ok(fen@),
    ensures
        final(board).board@ == fen_squares(fen@),
        final(board).side == fen_side(fen@),
        final(board).castle_perm == fen_castle(fen@),
        final(board).en_pas == fen_en_pas(fen@),
        final(board).fifty_cnt == 0,
        final(board).ply_depth == 0,
        final(board).ply == 0,
        final(board).pieces_wf(),
        final(board).key_wf(),
        final(board).king_sqs[0] == last_sq_of(fen_squares(fen@), Pieces::Wk, 120, NO_SQ),
        final(board).king_sqs[1] == last_sq_of(fen_squares(fen@), Pieces::Bk, 120, NO_SQ),
        final(board).history == old(board).history,
        final(board).eq_search(old(board)),
        final(board).position() == fen_setup(fen@, old(board).history@, old(board).keys),
{
    let chars: Vec<char> = chars_of(fen.as_str());
    build_fen_chars(&chars, board);
}

/// `build_fen` on the characters of the text.
pub fn build_fen_chars(fen: &Vec<char>, board: &mut BoardStructure)
    requires
        fen@.len() < 0x1000_0000,
        fen_ok(fen@),
    ensures
        final(board).board@ == fen_squares(fen@),
        final(board).side == fen_side(fen@),
        final(board).castle_perm == fen_castle(fen@),
        final(board).en_pas == fen_en_pas(fen@),
        final(board).fifty_cnt == 0,
        final(board).ply_depth == 0,
        final(board).ply == 0,
        final(board).pieces_wf(),
        final(board).key_wf(),
        final(board).king_sqs[0] == last_sq_of(fen_squares(fen@), Pieces::Wk, 120, NO_SQ),
        final(board).king_sqs[1] == last_sq_of(fen_squares(fen@), Pieces::Bk, 120, NO_SQ),
        final(board).history == old(board).history,
        final(board).eq_search(old(board)),
        final(board).position() == fen_setup(fen@, old(board).history@, old(board).keys),
{
    let fields: FenFields = match parse_fen(fen) {
        Some(x) => x,
        None => {
            assert(false);
            return;
        },
    };
    reset_board(board);
    board.board = fields.squares;
    board.side = fields.side;
    board.castle_perm = fields.castle_perm;
    board.en_pas = fields.en_pas;
    board.pos_key = generate_position_hash(board);
    let ghost o = *board;
    proof {
        crate::model::lemma_counts_bounded(board.board@);
        assert(fen_squares(fen@) == board.board@);
        assert forall|p: int| 1 <= p <= 12 implies #[trigger] count_of(board.board@, p as usize) <= 10 by {
            assert(count_of(fen_squares(fen@), p as usize) <= 10);
        }
    }
    update_material_lists(board);
    proof {
        lemma_fresh_pieces_wf(*board, o);
        assert(board.king_sqs@ =~= seq![last_sq_of(fen_squares(fen@), Pieces::Wk, 120, NO_SQ), last_sq_of(
            fen_squares(fen@), Pieces::Bk, 120, NO_SQ)]);
    }
}

} // verus!
