//! Static evaluation: material plus piece-square bonuses, from the side to
//! move's point of view.

use vstd::prelude::*;
use crate::statics::{Players, spec_kind, kind_of, spec_big_to_small, big_to_small, spec_mirror, mirror, lemma_big_small};
use crate::statics::Pieces;
use crate::structs::BoardStructure;
use crate::rules::Position;
use crate::model::{lemma_list_entry, lemma_list_len, lemma_counts_bounded, sum_pieces, mat_f, count_of, range_sum, seq_sum,
    lemma_range_sum_ext, lemma_seq_sum_range};

verus! {

pub open spec fn pawn_table() -> Seq<int> {
    seq![
        0, 0, 0, 0, 0, 0, 0, 0,
        10, 10, 0, -10, -10, 0, 10, 10,
        5, 0, 0, 5, 5, 0, 0, 5,
        0, 0, 10, 20, 20, 10, 0, 0,
        5, 5, 5, 10, 10, 5, 5, 5,
        10, 10, 10, 20, 20, 10, 10, 10,
        20, 20, 20, 30, 30, 20, 20, 20,
        0, 0, 0, 0, 0, 0, 0, 0
    ]
}

pub open spec fn pawn_table_endgame() -> Seq<int> {
    seq![
        0, 0, 0, 0, 0, 0, 0, 0,
        5, 5, 5, 5, 5, 5, 5, 5,
        10, 10, 10, 10, 10, 10, 10, 10,
        20, 20, 20, 20, 20, 20, 20, 20,
        30, 30, 30, 30, 30, 30, 30, 30,
        50, 50, 50, 50, 50, 50, 50, 50,
        70, 70, 70, 70, 70, 70, 70, 70,
        0, 0, 0, 0, 0, 0, 0, 0
    ]
}

pub open spec fn knight_table() -> Seq<int> {
    seq![
        0, -10, 0, 0, 0, 0, -10, 0,
        0, 0, 0, 5, 5, 0, 0, 0,
        0, 0, 10, 10, 10, 10, 0, 0,
        0, 0, 10, 20, 20, 10, 5, 0,
        5, 10, 15, 20, 20, 15, 10, 5,
        5, 10, 10, 20, 20, 10, 10, 5,
        0, 0, 5, 10, 10, 5, 0, 0,
        0, 0, 0, 0, 0, 0, 0, 0
    ]
}

pub open spec fn bishop_table() -> Seq<int> {
    seq![
        0, 0, -10, 0, 0, -10, 0, 0,
        0, 0, 0, 10, 10, 0, 0, 0,
        0, 0, 10, 15, 15, 10, 0, 0,
        0, 10, 15, 20, 20, 15, 10, 0,
        0, 10, 15, 20, 20, 15, 10, 0,
        0, 0, 10, 15, 15, 10, 0, 0,
        0, 0, 0, 10, 10, 0, 0, 0,
        0, 0, 0, 0, 0, 0, 0, 0
    ]
}

pub open spec fn rook_table() -> Seq<int> {
    seq![
        0, 0, 5, 10, 10, 5, 0, 0,
        0, 0, 5, 10, 10, 5, 0, 0,
        0, 0, 5, 10, 10, 5, 0, 0,
        0, 0, 5, 10, 10, 5, 0, 0,
        0, 0, 5, 10, 10, 5, 0, 0,
        0, 0, 5, 10, 10, 5, 0, 0,
        25, 25, 25, 25, 25, 25, 25, 25,
        0, 0, 5, 10, 10, 5, 0, 0
    ]
}

pub open spec fn queen_table() -> Seq<int> {
    seq![
        -10, -5, -5, 0, 0, -5, -5, -10,
        -5, 0, 0, 0, 0, 0, 0, -5,
        -5, 0, 5, 5, 5, 5, 0, -5,
        0, 0, 5, 5, 5, 5, 0, 0,
        0, 0, 5, 5, 5, 5, 0, 0,
        -5, 0, 5, 5, 5, 5, 0, -5,
        -5, 0, 0, 0, 0, 0, 0, -5,
        -10, -5, -5, 0, 0, -5, -5, -10
    ]
}

pub open spec fn king_table() -> Seq<int> {
    seq![
        0, 5, 5, -10, -10, 0, 10, 5,
        -30, -30, -30, -30, -30, -30, -30, -30,
        -50, -50, -50, -50, -50, -50, -50, -50,
        -70, -70, -70, -70, -70, -70, -70, -70,
        -70, -70, -70, -70, -70, -70, -70, -70,
        -70, -70, -70, -70, -70, -70, -70, -70,
        -70, -70, -70, -70, -70, -70, -70, -70,
        -70, -70, -70, -70, -70, -70, -70, -70
    ]
}

pub open spec fn king_table_endgame() -> Seq<int> {
    seq![
        -50, -10, 0, 0, 0, 0, -10, -50,
        -10, 0, 10, 10, 10, 10, 0, -10,
        0, 10, 20, 20, 20, 20, 10, 0,
        0, 10, 20, 40, 40, 20, 10, 0,
        0, 10, 20, 40, 40, 20, 10, 0,
        0, 10, 20, 20, 20, 20, 10, 0,
        -10, 0, 10, 10, 10, 10, 0, -10,
        -50, -10, 0, 0, 0, 0, -10, -50
    ]
}

/// Piece-square table of a piece kind (0 pawn .. 5 king).
pub open spec fn table_of(kind: usize, endgame: bool) -> Seq<int> {
    if kind == 0 {
        if endgame { pawn_table_endgame() } else { pawn_table() }
    } else if kind == 1 {
        knight_table()
    } else if kind == 2 {
        bishop_table()
    } else if kind == 3 {
        rook_table()
    } else if kind == 4 {
        queen_table()
    } else {
        if endgame { king_table_endgame() } else { king_table() }
    }
}

/// Bonus of piece `p` on mailbox square `sq`, white's tables read from
/// white's side, black's mirrored.
pub open spec fn pst(p: usize, sq: usize, endgame: bool) -> int {
    let small = spec_big_to_small(sq as int) as int;
    let idx = if p <= 6 { small } else { spec_mirror(small) };
    table_of(spec_kind(p), endgame)[idx]
}

fn table_value(kind: usize, endgame: bool, idx: usize) -> (r: i32)
    requires
        kind <= 5,
        idx < 64,
    ensures
        r as int == table_of(kind, endgame)[idx as int],
        -70 <= r <= 70,
{
    let t: [i32; 64] = if kind == 0 {
        if endgame {
            [0, 0, 0, 0, 0, 0, 0, 0, 5, 5, 5, 5, 5, 5, 5, 5, 10, 10, 10, 10, 10, 10, 10, 10, 20, 20, 20, 20, 20, 20, 20,
            20, 30, 30, 30, 30, 30, 30, 30, 30, 50, 50, 50, 50, 50, 50, 50, 50, 70, 70, 70, 70, 70, 70, 70, 70, 0, 0, 0,
            0, 0, 0, 0, 0]
        } else {
            [0, 0, 0, 0, 0, 0, 0, 0, 10, 10, 0, -10, -10, 0, 10, 10, 5, 0, 0, 5, 5, 0, 0, 5, 0, 0, 10, 20, 20, 10, 0, 0,
            5, 5, 5, 10, 10, 5, 5, 5, 10, 10, 10, 20, 20, 10, 10, 10, 20, 20, 20, 30, 30, 20, 20, 20, 0, 0, 0, 0, 0, 0,
            0, 0]
        }
    } else if kind == 1 {
        [0, -10, 0, 0, 0, 0, -10, 0, 0, 0, 0, 5, 5, 0, 0, 0, 0, 0, 10, 10, 10, 10, 0, 0, 0, 0, 10, 20, 20, 10, 5, 0, 5,
        10, 15, 20, 20, 15, 10, 5, 5, 10, 10, 20, 20, 10, 10, 5, 0, 0, 5, 10, 10, 5, 0, 0, 0, 0, 0, 0, 0, 0, 0, 0]
    } else if kind == 2 {
        [0, 0, -10, 0, 0, -10, 0, 0, 0, 0, 0, 10, 10, 0, 0, 0, 0, 0, 10, 15, 15, 10, 0, 0, 0, 10, 15, 20, 20, 15, 10, 0,
        0, 10, 15, 20, 20, 15, 10, 0, 0, 0, 10, 15, 15, 10, 0, 0, 0, 0, 0, 10, 10, 0, 0, 0, 0, 0, 0, 0, 0, 0, 0, 0]
    } else if kind == 3 {
        [0, 0, 5, 10, 10, 5, 0, 0, 0, 0, 5, 10, 10, 5, 0, 0, 0, 0, 5, 10, 10, 5, 0, 0, 0, 0, 5, 10, 10, 5, 0, 0, 0, 0,
        5, 10, 10, 5, 0, 0, 0, 0, 5, 10, 10, 5, 0, 0, 25, 25, 25, 25, 25, 25, 25, 25, 0, 0, 5, 10, 10, 5, 0, 0]
    } else if kind == 4 {
        [-10, -5, -5, 0, 0, -5, -5, -10, -5, 0, 0, 0, 0, 0, 0, -5, -5, 0, 5, 5, 5, 5, 0, -5, 0, 0, 5, 5, 5, 5, 0, 0, 0,
        0, 5, 5, 5, 5, 0, 0, -5, 0, 5, 5, 5, 5, 0, -5, -5, 0, 0, 0, 0, 0, 0, -5, -10, -5, -5, 0, 0, -5, -5, -10]
    } else if endgame {
        [-50, -10, 0, 0, 0, 0, -10, -50, -10, 0, 10, 10, 10, 10, 0, -10, 0, 10, 20, 20, 20, 20, 10, 0, 0, 10, 20, 40, 40,
        20, 10, 0, 0, 10, 20, 40, 40, 20, 10, 0, 0, 10, 20, 20, 20, 20, 10, 0, -10, 0, 10, 10, 10, 10, 0, -10, -50, -10,
        0, 0, 0, 0, -10, -50]
    } else {
        [0, 5, 5, -10, -10, 0, 10, 5, -30, -30, -30, -30, -30, -30, -30, -30, -50, -50, -50, -50, -50, -50, -50, -50,
        -70, -70, -70, -70, -70, -70, -70, -70, -70, -70, -70, -70, -70, -70, -70, -70, -70, -70, -70, -70, -70, -70,
        -70, -70, -70, -70, -70, -70, -70, -70, -70, -70, -70, -70, -70, -70, -70, -70, -70, -70]
    };
    assert(t@.map_values(|v: i32| v as int) =~= table_of(kind, endgame));
    assert(forall|i: int| 0 <= i < 64 ==> -70 <= #[trigger] table_of(kind, endgame)[i] <= 70);
    assert(t@.map_values(|v: i32| v as int)[idx as int] == t[idx as int] as int);
    t[idx]
}

/// Late game: far into the game or no queens left.
pub open spec fn is_endgame(b: &BoardStructure) -> bool {
    b.ply_depth >= 60 || (b.num_pieces[5] == 0 && b.num_pieces[11] == 0)
}

/// Bonuses of the first `n` pieces in the list of piece `p`.
pub open spec fn list_bonus(b: &BoardStructure, p: usize, n: int, eg: bool) -> int
    decreases n,
{
    if n <= 0 {
        0
    } else {
        list_bonus(b, p, n - 1, eg) + pst(p, b.piece_list[p as int][n - 1], eg)
    }
}

/// White's bonuses minus black's over the pieces below `q`.
pub open spec fn bonus_upto(b: &BoardStructure, q: int, eg: bool) -> int
    decreases q,
{
    if q <= 1 {
        0
    } else {
        let lb = list_bonus(b, (q - 1) as usize, b.num_pieces[q - 1] as int, eg);
        if q - 1 <= 6 {
            bonus_upto(b, q - 1, eg) + lb
        } else {
            bonus_upto(b, q - 1, eg) - lb
        }
    }
}

/// The evaluation of the board: white's material minus black's plus the
/// piece-square bonuses of white's pieces minus black's, negated when
/// black is to move.
pub open spec fn eval_spec(b: &BoardStructure) -> int {
    let score = b.mat_strength[0] - b.mat_strength[1] + bonus_upto(b, 13, is_endgame(b));
    if b.side == Players::White {
        score
    } else {
        -score
    }
}

/// Piece-square bonuses of piece `p` on the first `n` squares.
pub open spec fn sq_bonus(s: Seq<Pieces>, p: usize, n: int, eg: bool) -> int
    decreases n,
{
    if n <= 0 {
        0
    } else {
        sq_bonus(s, p, n - 1, eg) + (if s[n - 1] as usize == p { pst(p, (n - 1) as usize, eg) } else { 0 })
    }
}

/// White's bonuses minus black's over the pieces below `q`, read from the
/// squares.
pub open spec fn sq_bonus_upto(s: Seq<Pieces>, q: int, eg: bool) -> int
    decreases q,
{
    if q <= 1 {
        0
    } else {
        let lb = sq_bonus(s, (q - 1) as usize, 120, eg);
        if q - 1 <= 6 {
            sq_bonus_upto(s, q - 1, eg) + lb
        } else {
            sq_bonus_upto(s, q - 1, eg) - lb
        }
    }
}

/// The endgame tables apply: sixty half moves were played, or no queen is
/// left.
pub open spec fn endgame_of(p: Position) -> bool {
    p.ply_depth >= 60 || (count_of(p.squares, 5) == 0 && count_of(p.squares, 11) == 0)
}

/// The evaluation of a position: white's material minus black's plus the
/// piece-square bonuses of white's pieces minus black's, negated when
/// black is to move.
pub open spec fn eval_of(p: Position) -> int {
    let score = sum_pieces(p.squares, 120, mat_f(Players::White)) - sum_pieces(p.squares, 120, mat_f(Players::Black))
        + sq_bonus_upto(p.squares, 13, endgame_of(p));
    if p.side == Players::White {
        score
    } else {
        -score
    }
}

/// The list bonus is a sum over the list.
proof fn lemma_list_bonus_seq(b: &BoardStructure, p: usize, eg: bool, q: Seq<int>, h: spec_fn(int) -> int, m: int)
    requires
        0 <= m <= q.len(),
        forall|i: int| 0 <= i < q.len() ==> #[trigger] q[i] == b.piece_list[p as int][i] as int,
        forall|x: int| #[trigger] h(x) == pst(p, x as usize, eg),
    ensures
        list_bonus(b, p, m, eg) == seq_sum(h, q.take(m)),
    decreases m,
{
    if m > 0 {
        lemma_list_bonus_seq(b, p, eg, q, h, m - 1);
        assert(q.take(m).drop_last() =~= q.take(m - 1));
        assert(q.take(m).last() == q[m - 1]);
    }
}

/// The square bonus is a range sum.
proof fn lemma_sq_bonus_range(s: Seq<Pieces>, p: usize, eg: bool, g: spec_fn(int) -> int, n: int)
    requires
        forall|x: int| #[trigger] g(x) == (if s[x] as usize == p { pst(p, x as usize, eg) } else { 0 }),
    ensures
        sq_bonus(s, p, n, eg) == range_sum(g, n),
    decreases n,
{
    if n > 0 {
        lemma_sq_bonus_range(s, p, eg, g, n - 1);
    }
}

/// The bonus of a piece's list is that of the squares holding it.
proof fn lemma_list_bonus(b: &BoardStructure, p: usize, eg: bool)
    requires
        b.pieces_wf(),
        1 <= p <= 12,
    ensures
        list_bonus(b, p, b.num_pieces[p as int] as int, eg) == sq_bonus(b.board@, p, 120, eg),
{
    reveal(BoardStructure::derived_wf);
    assert(b.list_wf(p as int));
    let n = b.num_pieces[p as int] as int;
    let q = Seq::new(n as nat, |i: int| b.piece_list[p as int][i] as int);
    let h = |x: int| pst(p, x as usize, eg);
    let s = b.board@;
    lemma_list_bonus_seq(b, p, eg, q, h, n);
    assert(q.take(n) =~= q);
    assert(q.no_duplicates()) by {
        assert forall|i: int, j: int| 0 <= i < q.len() && 0 <= j < q.len() && i != j implies q[i] != q[j] by {
            if i < j {
                assert(b.piece_list[p as int][i] != b.piece_list[p as int][j]);
            } else {
                assert(b.piece_list[p as int][j] != b.piece_list[p as int][i]);
            }
        }
    }
    assert forall|i: int| 0 <= i < q.len() implies 0 <= #[trigger] q[i] < 120 by {
        assert(crate::statics::on_board(b.piece_list[p as int][i] as int));
    }
    let f = |x: int| if q.contains(x) { h(x) } else { 0 };
    lemma_seq_sum_range(h, f, q, 120);
    let g = |x: int| if s[x] as usize == p { pst(p, x as usize, eg) } else { 0 };
    lemma_sq_bonus_range(s, p, eg, g, 120);
    assert forall|x: int| 0 <= x < 120 implies #[trigger] f(x) == g(x) by {
        if q.contains(x) {
            let i = choose|i: int| 0 <= i < q.len() && q[i] == x;
            assert(b.board[b.piece_list[p as int][i] as int] as int == p);
        } else if s[x] as usize == p {
            assert(b.board[x] as int == p as int);
            assert(b.listed(p as int, x));
            let i = choose|i: int| 0 <= i < b.num_pieces[p as int] && b.piece_list[p as int][i] == x;
            assert(q[i] == x);
        }
    }
    lemma_range_sum_ext(f, g, 120);
}

/// The bonuses below `q` read from the lists are those read from the
/// squares.
proof fn lemma_bonus_upto(b: &BoardStructure, q: int, eg: bool)
    requires
        b.pieces_wf(),
        1 <= q <= 13,
    ensures
        bonus_upto(b, q, eg) == sq_bonus_upto(b.board@, q, eg),
    decreases q,
{
    if q > 1 {
        lemma_bonus_upto(b, q - 1, eg);
        lemma_list_bonus(b, (q - 1) as usize, eg);
    }
}

/// The evaluation of a consistent board depends on its position alone.
pub proof fn lemma_eval_of(b: &BoardStructure)
    requires
        b.pieces_wf(),
    ensures
        eval_spec(b) == eval_of(b.position()),
{
    reveal(BoardStructure::derived_wf);
    assert(b.num_pieces[5] == count_of(b.board@, 5));
    assert(b.num_pieces[11] == count_of(b.board@, 11));
    assert(is_endgame(b) == endgame_of(b.position()));
    lemma_bonus_upto(b, 13, is_endgame(b));
}

/// Evaluate the position for the side to move.
pub fn eval(board: &BoardStructure) -> (r: i32)
    requires
        board.pieces_wf(),
    ensures
        r as int == eval_spec(board),
        -7_000_000 <= r <= 7_000_000,
{
    proof {
        reveal(BoardStructure::derived_wf);
        lemma_counts_bounded(board.board@);
    }
    let eg: bool = board.ply_depth >= 60 || (board.num_pieces[5] == 0 && board.num_pieces[11] == 0);
    let mut bonus: i32 = 0;
    let mut p: usize = 1;
    while p < 13
        invariant
            1 <= p <= 13,
            board.pieces_wf(),
            eg == is_endgame(board),
            bonus as int == bonus_upto(board, p as int, eg),
            -700 * p <= bonus <= 700 * p,
        decreases 13 - p,
    {
        let n: usize = board.num_pieces[p];
        proof {
            lemma_list_len(board, p as int);
        }
        let mut sum: i32 = 0;
        let mut i: usize = 0;
        while i < n
            invariant
                1 <= p < 13,
                board.pieces_wf(),
                n == board.num_pieces[p as int],
                n <= 10,
                i <= n,
                sum as int == list_bonus(board, p, i as int, eg),
                -70 * i <= sum <= 70 * i,
            decreases n - i,
        {
            let sq: usize = board.piece_list[p][i];
            proof {
                lemma_list_entry(board, p as int, i as int);
                lemma_big_small(sq as int);
            }
            let small: usize = big_to_small(sq);
            let idx: usize = if p <= 6 { small } else { mirror(small) };
            sum = sum + table_value(kind_of(p), eg, idx);
            i = i + 1;
        }
        bonus = if p <= 6 { bonus + sum } else { bonus - sum };
        p = p + 1;
    }
    let mat: i32 = board.mat_strength[0] as i32 - board.mat_strength[1] as i32;
    let score: i32 = mat + bonus;
    if board.side == Players::White {
        score
    } else {
        -score
    }
}

} // verus!
