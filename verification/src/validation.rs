//! Consistency checks of a board.

use vstd::prelude::*;
use crate::statics::{
    Pieces, Players, on_board, spec_rank_of, spec_small_to_big, small_to_big, files_from_120, ranks_from_120,
    color_mask, values, big_mask, min_mask, maj_mask, lemma_small_big, E1, E8, H1, H8, A1, A8,
};
use crate::structs::BoardStructure;
use crate::bitboards::bit_set;
use crate::model::{mat_f, big_f, min_f, maj_f, ind, count_of};
use crate::hash::generate_position_hash;
use crate::legal_move_gen::is_attacked;
use crate::rules::{castle_wf, ep_wf, kings_wf, room_wf, attacked, side_idx, opp};

verus! {

/// The square is one of the 64 playing squares.
pub fn sq_on_board(sq: usize) -> (r: bool)
    requires
        sq < 120,
    ensures
        r == on_board(sq as int),
{
    !(files_from_120(sq) == 8 || ranks_from_120(sq) == 8)
}

/// The number is white's or black's (0 or 1).
pub fn side_valid(side: usize) -> (r: bool)
    ensures
        r == (side == 0 || side == 1),
{
    side == 0 || side == 1
}

/// The number is a piece or `Empty` (0..=12).
pub fn piece_valid_or_empty(piece: usize) -> (r: bool)
    ensures
        r == (piece <= 12),
{
    piece <= 12
}

/// The number is a piece of one of the players (1..=12).
pub fn piece_valid(piece: usize) -> (r: bool)
    ensures
        r == (1 <= piece <= 12),
{
    1 <= piece && piece <= 12
}

/// Number of set bits among the lowest `n` bits.
pub open spec fn popcount(bb: u64, n: nat) -> nat
    decreases n,
{
    if n == 0 {
        0
    } else {
        popcount(bb, (n - 1) as nat) + (if bit_set(bb, (n - 1) as u64) { 1nat } else { 0nat })
    }
}

fn count_bits(bb: u64) -> (r: usize)
    ensures
        r == popcount(bb, 64),
{
    let mut n: usize = 0;
    let mut i: u64 = 0;
    while i < 64
        invariant
            i <= 64,
            n == popcount(bb, i as nat),
            n <= i,
        decreases 64 - i,
    {
        if (bb >> i) & 1 == 1 {
            n = n + 1;
        }
        i = i + 1;
    }
    n
}

/// Sum of `f` over the pieces on the first `n` of the 64 playing squares.
pub open spec fn sum_small(s: Seq<Pieces>, n: int, f: spec_fn(usize) -> int) -> int
    decreases n,
{
    if n <= 0 {
        0
    } else {
        sum_small(s, n - 1, f) + f(s[spec_small_to_big(n - 1) as int] as usize)
    }
}

/// What the consistency check asserts of a board: every listed piece
/// stands on its square, no playing square is `OffLimits`, the piece
/// numbers, material and piece counters are those of the playing squares,
/// the pawn bitboards hold as many bits as there are pawns, the side is a
/// player, the key is the position's hash, the en passant square lies on
/// the rank the side to move captures to, and each king stands on its
/// king square.
pub open spec fn check_ok(b: &BoardStructure) -> bool {
    let s = b.board@;
    &&& forall|p: int, i: int| 1 <= p <= 12 && 0 <= i < b.num_pieces[p] ==> b.num_pieces[p] <= 10
        && #[trigger] b.piece_list[p][i] < 120 && b.board[b.piece_list[p][i] as int] as int == p
    &&& forall|i: int| 0 <= i < 64 ==> #[trigger] s[spec_small_to_big(i) as int] != Pieces::OffLimits
    &&& forall|p: int| 1 <= p <= 12 ==> #[trigger] b.num_pieces[p] == sum_small(s, 64, ind(p as usize))
    &&& popcount(b.pawns[0], 64) == b.num_pieces[1]
    &&& popcount(b.pawns[1], 64) == b.num_pieces[7]
    &&& popcount(b.pawns[2], 64) == b.num_pieces[1] + b.num_pieces[7]
    &&& b.mat_strength[0] == sum_small(s, 64, mat_f(Players::White))
    &&& b.mat_strength[1] == sum_small(s, 64, mat_f(Players::Black))
    &&& b.min_pieces[0] == sum_small(s, 64, min_f(Players::White))
    &&& b.min_pieces[1] == sum_small(s, 64, min_f(Players::Black))
    &&& b.maj_pieces[0] == sum_small(s, 64, maj_f(Players::White))
    &&& b.maj_pieces[1] == sum_small(s, 64, maj_f(Players::Black))
    &&& b.big_pieces[0] == sum_small(s, 64, big_f(Players::White))
    &&& b.big_pieces[1] == sum_small(s, 64, big_f(Players::Black))
    &&& (b.side == Players::White || b.side == Players::Black)
    &&& b.castle_perm < 16
    &&& b.en_pas < 120
    &&& b.pos_key == b.hash_spec()
    &&& (b.en_pas == 0 || (spec_rank_of(b.en_pas as int) == 5 && b.side == Players::White) || (spec_rank_of(
        b.en_pas as int) == 2 && b.side == Players::Black))
    &&& b.king_sqs[0] < 120
    &&& b.king_sqs[1] < 120
    &&& b.board[b.king_sqs[0] as int] == Pieces::Wk
    &&& b.board[b.king_sqs[1] as int] == Pieces::Bk
}

/// Every listed piece stands on its square (and the lists fit).
pub open spec fn lists_ok(b: &BoardStructure) -> bool {
    forall|p: int, i: int| 1 <= p <= 12 && 0 <= i < b.num_pieces[p] ==> b.num_pieces[p] <= 10
        && #[trigger] b.piece_list[p][i] < 120 && b.board[b.piece_list[p][i] as int] as int == p
}

/// Whether every listed piece stands on its square.
fn check_lists(board: &BoardStructure) -> (r: bool)
    ensures
        r == lists_ok(board),
{
    let mut p: usize = 1;
    while p < 13
        invariant
            1 <= p <= 13,
            forall|q: int, i: int| 1 <= q < p && 0 <= i < board.num_pieces[q] ==> board.num_pieces[q] <= 10
                && #[trigger] board.piece_list[q][i] < 120 && board.board[board.piece_list[q][i] as int] as int == q,
        decreases 13 - p,
    {
        let n: usize = board.num_pieces[p];
        if n > 10 {
            proof {
                let z: int = 0;
                assert(!(board.num_pieces[p as int] <= 10 && board.piece_list[p as int][z] < 120 && board.board[
                    board.piece_list[p as int][z] as int] as int == p));
            }
            return false;
        }
        let mut i: usize = 0;
        while i < n
            invariant
                1 <= p < 13,
                n == board.num_pieces[p as int],
                n <= 10,
                i <= n,
                forall|q: int, j: int| 1 <= q < p && 0 <= j < board.num_pieces[q] ==> board.num_pieces[q] <= 10
                    && #[trigger] board.piece_list[q][j] < 120 && board.board[board.piece_list[q][j] as int] as int == q,
                forall|j: int| 0 <= j < i ==> #[trigger] board.piece_list[p as int][j] < 120 && board.board[
                    board.piece_list[p as int][j] as int] as int == p,
            decreases n - i,
        {
            let sq: usize = board.piece_list[p][i];
            if sq >= 120 {
                return false;
            }
            if board.board[sq] as usize != p {
                return false;
            }
            i = i + 1;
        }
        p = p + 1;
    }
    true
}

/// The sums over the playing squares that the board's counters keep.
pub struct SquareSums {
    pub counts: [usize; 13],
    pub mat: [usize; 2],
    pub big: [usize; 2],
    pub min: [usize; 2],
    pub maj: [usize; 2],
}

/// The sums hold for the first `n` playing squares of `s`.
pub open spec fn sums_ok(t: SquareSums, s: Seq<Pieces>, n: int) -> bool {
    &&& forall|q: int| 0 <= q < 13 ==> #[trigger] t.counts[q] == sum_small(s, n, ind(q as usize))
    &&& t.mat[0] == sum_small(s, n, mat_f(Players::White))
    &&& t.mat[1] == sum_small(s, n, mat_f(Players::Black))
    &&& t.big[0] == sum_small(s, n, big_f(Players::White))
    &&& t.big[1] == sum_small(s, n, big_f(Players::Black))
    &&& t.min[0] == sum_small(s, n, min_f(Players::White))
    &&& t.min[1] == sum_small(s, n, min_f(Players::Black))
    &&& t.maj[0] == sum_small(s, n, maj_f(Players::White))
    &&& t.maj[1] == sum_small(s, n, maj_f(Players::Black))
}

/// Count the pieces, material and piece classes on the playing squares;
/// `None` if one of them is `OffLimits`.
#[verifier::rlimit(40)]
fn square_sums(board: &BoardStructure) -> (r: Option<SquareSums>)
    ensures
        r is None <==> exists|i: int| 0 <= i < 64 && #[trigger] board.board@[spec_small_to_big(i) as int]
            == Pieces::OffLimits,
        r is Some ==> sums_ok(r->0, board.board@, 64),
        r is Some ==> forall|q: int| 0 <= q < 13 ==> #[trigger] r->0.counts[q] <= 64,
{
    let ghost s = board.board@;
    let mut t = SquareSums { counts: [0usize; 13], mat: [0usize; 2], big: [0usize; 2], min: [0usize; 2], maj: [0usize; 2] };
    let mut i: usize = 0;
    while i < 64
        invariant
            i <= 64,
            s == board.board@,
            sums_ok(t, s, i as int),
            forall|q: int| 0 <= q < 13 ==> #[trigger] t.counts[q] <= i,
            t.mat[0] <= 50000 * i && t.mat[1] <= 50000 * i,
            t.big[0] <= i && t.big[1] <= i && t.min[0] <= i && t.min[1] <= i && t.maj[0] <= i && t.maj[1] <= i,
            forall|j: int| 0 <= j < i ==> #[trigger] s[spec_small_to_big(j) as int] != Pieces::OffLimits,
        decreases 64 - i,
    {
        let sq: usize = small_to_big(i);
        let pc: Pieces = board.board[sq];
        if pc == Pieces::OffLimits {
            return None;
        }
        let pu: usize = pc as usize;
        let ghost t0 = t;
        t.counts[pu] = t.counts[pu] + 1;
        let c: Players = color_mask(pu);
        let v: usize = values(pu);
        let bg: usize = if big_mask(pu) { 1 } else { 0 };
        let mn: usize = if min_mask(pu) { 1 } else { 0 };
        let mj: usize = if maj_mask(pu) { 1 } else { 0 };
        if c == Players::White {
            t.mat[0] = t.mat[0] + v;
            t.big[0] = t.big[0] + bg;
            t.min[0] = t.min[0] + mn;
            t.maj[0] = t.maj[0] + mj;
        } else if c == Players::Black {
            t.mat[1] = t.mat[1] + v;
            t.big[1] = t.big[1] + bg;
            t.min[1] = t.min[1] + mn;
            t.maj[1] = t.maj[1] + mj;
        }
        proof {
            assert forall|q: int| 0 <= q < 13 implies #[trigger] t.counts[q] == sum_small(s, i + 1, ind(q as usize)) by {
                assert(t0.counts[q] == sum_small(s, i as int, ind(q as usize)));
            }
        }
        i = i + 1;
    }
    Some(t)
}

/// Check the board's consistency (see `check_ok`): whether every listed
/// piece stands on its square, the counters, material and pawn bitboards
/// agree with the playing squares, the key is the position's hash, the
/// side, castling rights and en passant square are in range and each king
/// stands on its king square.
pub fn check_board(board: &BoardStructure) -> (r: bool)
    ensures
        r == check_ok(board),
{
    if !check_lists(board) {
        return false;
    }
    let t: SquareSums = match square_sums(board) {
        Some(t) => t,
        None => {
            return false;
        },
    };
    let mut p: usize = 1;
    while p < 13
        invariant
            1 <= p <= 13,
            sums_ok(t, board.board@, 64),
            forall|q: int| 1 <= q < p ==> #[trigger] board.num_pieces[q] == t.counts[q],
        decreases 13 - p,
    {
        if board.num_pieces[p] != t.counts[p] {
            return false;
        }
        p = p + 1;
    }
    let wp: usize = count_bits(board.pawns[0]);
    let bp: usize = count_bits(board.pawns[1]);
    let ap: usize = count_bits(board.pawns[2]);
    assert(t.counts[1] <= 64 && t.counts[7] <= 64);
    if wp != board.num_pieces[1] || bp != board.num_pieces[7] || ap != board.num_pieces[1] + board.num_pieces[7] {
        return false;
    }
    if board.mat_strength[0] != t.mat[0] || board.mat_strength[1] != t.mat[1] {
        return false;
    }
    if board.min_pieces[0] as usize != t.min[0] || board.min_pieces[1] as usize != t.min[1] {
        return false;
    }
    if board.maj_pieces[0] as usize != t.maj[0] || board.maj_pieces[1] as usize != t.maj[1] {
        return false;
    }
    if board.big_pieces[0] as usize != t.big[0] || board.big_pieces[1] as usize != t.big[1] {
        return false;
    }
    if board.side != Players::White && board.side != Players::Black {
        return false;
    }
    if board.castle_perm >= 16 || board.en_pas >= 120 {
        return false;
    }
    if generate_position_hash(board) != board.pos_key {
        return false;
    }
    let er: usize = ranks_from_120(board.en_pas);
    if !(board.en_pas == 0 || (er == 5 && board.side == Players::White) || (er == 2 && board.side == Players::Black)) {
        return false;
    }
    if board.king_sqs[0] >= 120 || board.king_sqs[1] >= 120 {
        return false;
    }
    if board.board[board.king_sqs[0]] != Pieces::Wk || board.board[board.king_sqs[1]] != Pieces::Bk {
        return false;
    }
    proof {
        assert forall|q: int| 1 <= q <= 12 implies #[trigger] board.num_pieces[q] == sum_small(board.board@, 64, ind(
            q as usize)) by {
            assert(board.num_pieces[q] == t.counts[q]);
        }
    }
    true
}

/// The board holds a position the engine can play from (see `valid`):
/// derived data aside, this checks side, castling rights, en passant
/// square, kings, room in the piece lists, history depth, key, and that
/// the side that just moved is not in check.
pub fn position_valid(board: &BoardStructure) -> (r: bool)
    requires
        board.pieces_wf(),
    ensures
        r == board.valid(),
{
    let ghost s = board.board@;
    if board.side != Players::White && board.side != Players::Black {
        return false;
    }
    if board.castle_perm >= 16 {
        return false;
    }
    let cp: u8 = board.castle_perm;
    if (cp & 8 != 0 && !(board.board[E1] == Pieces::Wk && board.board[H1] == Pieces::Wr)) || (cp & 4 != 0
        && !(board.board[E1] == Pieces::Wk && board.board[A1] == Pieces::Wr)) || (cp & 2 != 0
        && !(board.board[E8] == Pieces::Bk && board.board[H8] == Pieces::Br)) || (cp & 1 != 0
        && !(board.board[E8] == Pieces::Bk && board.board[A8] == Pieces::Br)) {
        return false;
    }
    let ep: usize = board.en_pas;
    if ep >= 120 {
        return false;
    }
    if ep != 0 {
        if !sq_on_board(ep) || board.board[ep] != Pieces::Empty {
            return false;
        }
        if board.side == Players::White {
            if ranks_from_120(ep) != 5 || board.board[ep - 10] != Pieces::Bp {
                return false;
            }
        } else {
            if ranks_from_120(ep) != 2 || board.board[ep + 10] != Pieces::Wp {
                return false;
            }
        }
    }
    let wk: usize = board.king_sqs[0];
    let bk: usize = board.king_sqs[1];
    if wk >= 120 || bk >= 120 || !sq_on_board(wk) || !sq_on_board(bk) || board.board[wk] != Pieces::Wk
        || board.board[bk] != Pieces::Bk {
        return false;
    }
    let mut sq: usize = 0;
    while sq < 120
        invariant
            sq <= 120,
            s == board.board@,
            wk == board.king_sqs[0],
            bk == board.king_sqs[1],
            forall|q: int| 0 <= q < sq && #[trigger] s[q] == Pieces::Wk ==> q == wk,
            forall|q: int| 0 <= q < sq && #[trigger] s[q] == Pieces::Bk ==> q == bk,
        decreases 120 - sq,
    {
        if (board.board[sq] == Pieces::Wk && sq != wk) || (board.board[sq] == Pieces::Bk && sq != bk) {
            proof {
                let k = board.king_sqs@;
                assert(k[0] == wk && k[1] == bk);
                if s[sq as int] == Pieces::Wk && sq != wk {
                    assert(!(0 <= sq < 120 && s[sq as int] == Pieces::Wk ==> sq == k[0]));
                } else {
                    assert(!(0 <= sq < 120 && s[sq as int] == Pieces::Bk ==> sq == k[1]));
                }
            }
            return false;
        }
        sq = sq + 1;
    }
    let mut x: usize = 2;
    while x <= 5
        invariant
            2 <= x <= 6,
            board.pieces_wf(),
            forall|y: usize| 2 <= y < x ==> #[trigger] count_of(s, y) + count_of(s, 1) <= 10,
            s == board.board@,
        decreases 6 - x,
    {
        assert(board.num_pieces[x as int] == count_of(s, x));
        assert(board.num_pieces[1] == count_of(s, 1));
        proof {
            crate::model::lemma_list_len(board, x as int);
            crate::model::lemma_list_len(board, 1);
        }
        if board.num_pieces[x] + board.num_pieces[1] > 10 {
            return false;
        }
        x = x + 1;
    }
    let mut x: usize = 8;
    while x <= 11
        invariant
            8 <= x <= 12,
            board.pieces_wf(),
            forall|y: usize| 8 <= y < x ==> #[trigger] count_of(s, y) + count_of(s, 7) <= 10,
            s == board.board@,
        decreases 12 - x,
    {
        assert(board.num_pieces[x as int] == count_of(s, x));
        assert(board.num_pieces[7] == count_of(s, 7));
        proof {
            crate::model::lemma_list_len(board, x as int);
            crate::model::lemma_list_len(board, 7);
        }
        if board.num_pieces[x] + board.num_pieces[7] > 10 {
            return false;
        }
        x = x + 1;
    }
    assert(room_wf(s));
    if board.ply_depth > 1024 {
        return false;
    }
    if generate_position_hash(board) != board.pos_key {
        return false;
    }
    let mover_king: usize = if board.side == Players::White { bk } else { wk };
    !is_attacked(mover_king, board.side, board)
}

} // verus!
