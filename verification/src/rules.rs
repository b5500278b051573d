//! The rules of the game as the engine plays them, stated over the
//! squares of a position: steps and rays of the pieces, attacked squares,
//! the encoding of moves.

use vstd::prelude::*;
use crate::statics::{
    Pieces, Players, on_board, is_real, spec_color, spec_kind, spec_is_pawn, spec_is_knight, spec_is_king,
    spec_is_rook_queen, spec_is_bishop_queen, spec_rank_of, spec_castle_perm, spec_piece_from, EP_FLAG, X2_FLAG,
    CAST_FLAG, CAP_FLAG, A1, B1, C1, D1, E1, F1, G1, H1, A8, B8, C8, D8, E8, F8, G8, H8,
};
use crate::structs::{Undo, ZobristKeys, BoardStructure};
use crate::model::{count_of, position_hash, lemma_count_update, lemma_count_move};

verus! {

pub open spec fn knight_dirs() -> Seq<int> {
    seq![-8, -19, -21, -12, 8, 19, 21, 12]
}

pub open spec fn king_dirs() -> Seq<int> {
    seq![-1, -10, 1, 10, -9, -11, 11, 9]
}

pub open spec fn rook_dirs() -> Seq<int> {
    seq![-1, -10, 1, 10]
}

pub open spec fn bishop_dirs() -> Seq<int> {
    seq![-9, -11, 11, 9]
}

/// Index of the first piece met when walking from `sq` in steps of `d`:
/// a piece index 1..=12, or 13 when the walk leaves the board first.
pub open spec fn ray_piece(s: Seq<Pieces>, sq: int, d: int) -> usize
    decreases (if d > 0 { 120 - sq } else { sq }),
{
    if d == 0 || sq + d < 0 || sq + d >= 120 || (d > 0 && sq >= 120) || (d < 0 && sq < 0) {
        13
    } else if s[sq + d] == Pieces::OffLimits {
        13
    } else if s[sq + d] != Pieces::Empty {
        s[sq + d] as usize
    } else {
        ray_piece(s, sq + d, d)
    }
}

/// A pawn of `side` attacks `sq`.
pub open spec fn pawn_attacks(s: Seq<Pieces>, sq: int, side: Players) -> bool {
    if side == Players::White {
        s[sq - 11] == Pieces::Wp || s[sq - 9] == Pieces::Wp
    } else {
        s[sq + 11] == Pieces::Bp || s[sq + 9] == Pieces::Bp
    }
}

/// A piece that is a knight of `side` stands a knight's jump from `sq`.
pub open spec fn knight_attacks(s: Seq<Pieces>, sq: int, side: Players) -> bool {
    exists|i: int| 0 <= i < 8 && spec_is_knight(#[trigger] s[sq + knight_dirs()[i]] as usize)
        && spec_color(s[sq + knight_dirs()[i]] as usize) == side
}

/// A king of `side` stands next to `sq`.
pub open spec fn king_attacks(s: Seq<Pieces>, sq: int, side: Players) -> bool {
    exists|i: int| 0 <= i < 8 && spec_is_king(#[trigger] s[sq + king_dirs()[i]] as usize)
        && spec_color(s[sq + king_dirs()[i]] as usize) == side
}

/// The first piece on some diagonal from `sq` is a bishop or queen of `side`.
pub open spec fn diagonal_attacks(s: Seq<Pieces>, sq: int, side: Players) -> bool {
    exists|i: int| 0 <= i < 4 && spec_is_bishop_queen(#[trigger] ray_piece(s, sq, bishop_dirs()[i]))
        && spec_color(ray_piece(s, sq, bishop_dirs()[i])) == side
}

/// The first piece on some rank or file from `sq` is a rook or queen of `side`.
pub open spec fn straight_attacks(s: Seq<Pieces>, sq: int, side: Players) -> bool {
    exists|i: int| 0 <= i < 4 && spec_is_rook_queen(#[trigger] ray_piece(s, sq, rook_dirs()[i]))
        && spec_color(ray_piece(s, sq, rook_dirs()[i])) == side
}

/// A piece of `side` attacks the square `sq`.
pub open spec fn attacked(s: Seq<Pieces>, sq: int, side: Players) -> bool {
    ||| pawn_attacks(s, sq, side)
    ||| knight_attacks(s, sq, side)
    ||| diagonal_attacks(s, sq, side)
    ||| straight_attacks(s, sq, side)
    ||| king_attacks(s, sq, side)
}

/// The border squares are `OffLimits` and the playing squares are not.
pub open spec fn border_wf(s: Seq<Pieces>) -> bool {
    &&& s.len() == 120
    &&& forall|sq: int| 0 <= sq < 120 ==> ((#[trigger] s[sq] == Pieces::OffLimits) <==> !on_board(sq))
}

pub open spec fn spec_from_sq(m: usize) -> usize {
    m & 0x7F
}

pub open spec fn spec_to_sq(m: usize) -> usize {
    (m >> 7) & 0x7F
}

pub open spec fn spec_taken(m: usize) -> usize {
    (m >> 14) & 0xF
}

pub open spec fn spec_promoted(m: usize) -> usize {
    (m >> 18) & 0xF
}

pub open spec fn spec_create_move(f: usize, t: usize, cap: usize, prom: usize, fl: usize) -> usize {
    f | t << 7 | cap << 14 | prom << 18 | fl
}

pub proof fn lemma_fields_bounded(m: usize)
    ensures
        spec_from_sq(m) < 128,
        spec_to_sq(m) < 128,
        spec_taken(m) < 16,
        spec_promoted(m) < 16,
{
    assert(m & 0x7F < 128 && (m >> 7) & 0x7F < 128 && (m >> 14) & 0xF < 16 && (m >> 18) & 0xF < 16) by (bit_vector);
}

/// Unpacking a packed move gives back its parts.
pub proof fn lemma_create_move(f: usize, t: usize, cap: usize, prom: usize, fl: usize)
    requires
        f < 128,
        t < 128,
        cap < 16,
        prom < 16,
        fl == 0 || fl == EP_FLAG || fl == X2_FLAG || fl == CAST_FLAG,
    ensures
        spec_from_sq(spec_create_move(f, t, cap, prom, fl)) == f,
        spec_to_sq(spec_create_move(f, t, cap, prom, fl)) == t,
        spec_taken(spec_create_move(f, t, cap, prom, fl)) == cap,
        spec_promoted(spec_create_move(f, t, cap, prom, fl)) == prom,
        (spec_create_move(f, t, cap, prom, fl) & EP_FLAG != 0) == (fl == EP_FLAG),
        (spec_create_move(f, t, cap, prom, fl) & X2_FLAG != 0) == (fl == X2_FLAG),
        (spec_create_move(f, t, cap, prom, fl) & CAST_FLAG != 0) == (fl == CAST_FLAG),
        (spec_create_move(f, t, cap, prom, fl) & CAP_FLAG != 0) == (cap != 0 || fl == EP_FLAG),
        spec_create_move(f, t, cap, prom, fl) < 0x2000000,
{
    let m = spec_create_move(f, t, cap, prom, fl);
    assert(m == f | t << 7 | cap << 14 | prom << 18 | fl);
    assert((f | t << 7 | cap << 14 | prom << 18 | fl) & 0x7F == f
        && ((f | t << 7 | cap << 14 | prom << 18 | fl) >> 7) & 0x7F == t
        && ((f | t << 7 | cap << 14 | prom << 18 | fl) >> 14) & 0xF == cap
        && ((f | t << 7 | cap << 14 | prom << 18 | fl) >> 18) & 0xF == prom
        && ((f | t << 7 | cap << 14 | prom << 18 | fl) & 0x400000 != 0) == (fl == 0x400000)
        && ((f | t << 7 | cap << 14 | prom << 18 | fl) & 0x800000 != 0) == (fl == 0x800000)
        && ((f | t << 7 | cap << 14 | prom << 18 | fl) & 0x1000000 != 0) == (fl == 0x1000000)
        && ((f | t << 7 | cap << 14 | prom << 18 | fl) & 0x43C000 != 0) == (cap != 0 || fl == 0x400000)
        && (f | t << 7 | cap << 14 | prom << 18 | fl) < 0x2000000) by (bit_vector)
        requires
            f < 128,
            t < 128,
            cap < 16,
            prom < 16,
            fl == 0 || fl == 0x400000 || fl == 0x800000 || fl == 0x1000000;
}

/// The flag bits a move may carry: none, or one of en passant, double
/// pawn step and castling.
pub open spec fn flag_ok(fl: usize) -> bool {
    fl == 0 || fl == EP_FLAG || fl == X2_FLAG || fl == CAST_FLAG
}

/// A move in the packed form the engine writes: its parts below bit 22
/// and at most one flag bit above them.
pub open spec fn packed(a: usize) -> bool {
    a < 0x2000000 && flag_ok(a & 0x1C00000)
}

/// A packed move is the packing of its own parts.
pub proof fn lemma_packed(a: usize)
    requires
        packed(a),
    ensures
        a == spec_create_move(spec_from_sq(a), spec_to_sq(a), spec_taken(a), spec_promoted(a), a & 0x1C00000),
        spec_from_sq(a) < 128,
        spec_to_sq(a) < 128,
        spec_taken(a) < 16,
        spec_promoted(a) < 16,
{
    lemma_fields_bounded(a);
    assert(a < 0x2000000 ==> a == (a & 0x7F) | ((a >> 7) & 0x7F) << 7 | ((a >> 14) & 0xF) << 14 | ((a >> 18) & 0xF)
        << 18 | (a & 0x1C00000)) by (bit_vector);
}

/// Packing parts gives a packed move.
pub proof fn lemma_create_packed(f: usize, t: usize, cap: usize, prom: usize, fl: usize)
    requires
        f < 128,
        t < 128,
        cap < 16,
        prom < 16,
        flag_ok(fl),
    ensures
        packed(spec_create_move(f, t, cap, prom, fl)),
        spec_create_move(f, t, cap, prom, fl) & 0x1C00000 == fl,
{
    assert((f | t << 7 | cap << 14 | prom << 18 | fl) & 0x1C00000 == fl && (f | t << 7 | cap << 14 | prom << 18 | fl)
        < 0x2000000) by (bit_vector)
        requires
            f < 128,
            t < 128,
            cap < 16,
            prom < 16,
            fl == 0 || fl == 0x400000 || fl == 0x800000 || fl == 0x1000000,
    ;
}

/// The state of a game that making and taking back moves act on.
pub struct Position {
    pub squares: Seq<Pieces>,
    pub side: Players,
    pub castle_perm: u8,
    pub en_pas: usize,
    pub fifty_cnt: usize,
    pub ply_depth: usize,
    pub ply: usize,
    pub pos_key: u64,
    pub king_sqs: Seq<usize>,
    pub history: Seq<Undo>,
}

pub open spec fn opp(side: Players) -> Players {
    if side == Players::White {
        Players::Black
    } else {
        Players::White
    }
}

pub open spec fn side_idx(side: Players) -> int {
    if side == Players::White {
        0
    } else {
        1
    }
}

pub open spec fn pawn_of(c: Players) -> Pieces {
    if c == Players::White {
        Pieces::Wp
    } else {
        Pieces::Bp
    }
}

pub open spec fn rook_of(c: Players) -> Pieces {
    if c == Players::White {
        Pieces::Wr
    } else {
        Pieces::Br
    }
}

pub open spec fn is_ep_move(a: usize) -> bool {
    a & EP_FLAG != 0
}

pub open spec fn is_cast_move(a: usize) -> bool {
    a & EP_FLAG == 0 && a & CAST_FLAG != 0
}

pub open spec fn is_x2(a: usize) -> bool {
    a & X2_FLAG != 0
}

/// Square of the pawn taken en passant by `side` moving to `t`.
pub open spec fn ep_victim(t: int, side: Players) -> int {
    if side == Players::White {
        t - 10
    } else {
        t + 10
    }
}

/// Home square of the rook that castles with the king going to `t`.
pub open spec fn rook_from(t: int) -> int {
    if t == C1 {
        A1 as int
    } else if t == C8 {
        A8 as int
    } else if t == G1 {
        H1 as int
    } else {
        H8 as int
    }
}

/// Square of that rook after castling.
pub open spec fn rook_to(t: int) -> int {
    if t == C1 {
        D1 as int
    } else if t == C8 {
        D8 as int
    } else if t == G1 {
        F1 as int
    } else {
        F8 as int
    }
}

/// Each castling right still held has its king and rook at home.
pub open spec fn castle_wf(s: Seq<Pieces>, castle: u8) -> bool {
    &&& (castle & 8 != 0 ==> s[E1 as int] == Pieces::Wk && s[H1 as int] == Pieces::Wr)
    &&& (castle & 4 != 0 ==> s[E1 as int] == Pieces::Wk && s[A1 as int] == Pieces::Wr)
    &&& (castle & 2 != 0 ==> s[E8 as int] == Pieces::Bk && s[H8 as int] == Pieces::Br)
    &&& (castle & 1 != 0 ==> s[E8 as int] == Pieces::Bk && s[A8 as int] == Pieces::Br)
}

/// An en passant square is an empty square behind a pawn of the side that
/// just moved, on the third or sixth rank.
pub open spec fn ep_wf(s: Seq<Pieces>, side: Players, ep: usize) -> bool {
    ep == 0 || (on_board(ep as int) && s[ep as int] == Pieces::Empty && if side == Players::White {
        spec_rank_of(ep as int) == 5 && s[ep - 10] == Pieces::Bp
    } else {
        spec_rank_of(ep as int) == 2 && s[ep + 10] == Pieces::Wp
    })
}

/// Each side has exactly one king, on its king square.
pub open spec fn kings_wf(s: Seq<Pieces>, kings: Seq<usize>) -> bool {
    &&& kings.len() == 2
    &&& on_board(kings[0] as int)
    &&& on_board(kings[1] as int)
    &&& s[kings[0] as int] == Pieces::Wk
    &&& s[kings[1] as int] == Pieces::Bk
    &&& forall|sq: int| 0 <= sq < 120 && #[trigger] s[sq] == Pieces::Wk ==> sq == kings[0]
    &&& forall|sq: int| 0 <= sq < 120 && #[trigger] s[sq] == Pieces::Bk ==> sq == kings[1]
}

/// A side never has more knights, bishops, rooks or queens than its pawns
/// leave room for in a piece list of ten.
pub open spec fn room_wf(s: Seq<Pieces>) -> bool {
    forall|x: usize| (2 <= x <= 5 ==> #[trigger] count_of(s, x) + count_of(s, 1) <= 10) && (8 <= x <= 11 ==> count_of(s,
        x) + count_of(s, 7) <= 10)
}

/// The side that just moved did not leave its king attacked.
pub open spec fn legal_wf(p: Position) -> bool {
    !attacked(p.squares, p.king_sqs[side_idx(opp(p.side))] as int, p.side)
}

/// A position the engine can play from.
pub open spec fn pos_valid(p: Position, k: ZobristKeys) -> bool {
    &&& pos_core(p, k)
    &&& legal_wf(p)
}

/// A position that is consistent, whether or not the side that just moved
/// left its king attacked.
pub open spec fn pos_core(p: Position, k: ZobristKeys) -> bool {
    &&& border_wf(p.squares)
    &&& (p.side == Players::White || p.side == Players::Black)
    &&& p.castle_perm < 16
    &&& castle_wf(p.squares, p.castle_perm)
    &&& p.en_pas < 120
    &&& ep_wf(p.squares, p.side, p.en_pas)
    &&& kings_wf(p.squares, p.king_sqs)
    &&& room_wf(p.squares)
    &&& p.history.len() == 1024
    &&& p.ply_depth <= 1024
    &&& p.pos_key == position_hash(p.squares, p.side, p.en_pas, p.castle_perm, k)
}

/// The move `a` can be made in `p`: it moves a piece of the side to move
/// between two playing squares, its captured piece is what stands on the
/// target (never a king), and its flags describe a well formed en passant
/// capture, castling, promotion or double pawn step.
pub open spec fn move_ok(p: Position, a: usize) -> bool {
    let f = spec_from_sq(a) as int;
    let t = spec_to_sq(a) as int;
    let s = p.squares;
    let side = p.side;
    let mover = s[f] as usize;
    let prom = spec_promoted(a);
    &&& on_board(f)
    &&& on_board(t)
    &&& f != t
    &&& is_real(mover)
    &&& spec_color(mover) == side
    &&& p.ply_depth < 1024
    &&& p.fifty_cnt < usize::MAX
    &&& p.ply < usize::MAX
    &&& !(is_ep_move(a) && is_x2(a))
    &&& if is_ep_move(a) {
        &&& spec_is_pawn(mover)
        &&& s[t] == Pieces::Empty
        &&& spec_taken(a) == 0
        &&& prom == 0
        &&& s[ep_victim(t, side)] == pawn_of(opp(side))
    } else if is_cast_move(a) {
        &&& (t == C1 || t == G1 || t == C8 || t == G8)
        &&& f == (if t == C1 || t == G1 { E1 as int } else { E8 as int })
        &&& s[rook_from(t)] == rook_of(side)
        &&& s[rook_to(t)] == Pieces::Empty
        &&& s[t] == Pieces::Empty
        &&& spec_taken(a) == 0
        &&& prom == 0
    } else {
        &&& spec_taken(a) == s[t] as usize
        &&& !spec_is_king(s[t] as usize)
        &&& (s[t] == Pieces::Empty || spec_color(s[t] as usize) == opp(side))
    }
    &&& (prom != 0 ==> spec_is_pawn(mover) && is_real(prom) && spec_color(prom) == side && 1 <= spec_kind(prom) <= 4)
    &&& (is_x2(a) && spec_is_pawn(mover) ==> prom == 0 && s[t] == Pieces::Empty && if side == Players::White {
        t == f + 20 && s[f + 10] == Pieces::Empty && spec_rank_of(f) == 1
    } else {
        t == f - 20 && s[f - 10] == Pieces::Empty && spec_rank_of(f) == 6
    })
}

/// Squares after the preliminary part of a move: the pawn taken en
/// passant is removed, or the castling rook is moved.
pub open spec fn make_squares1(s: Seq<Pieces>, a: usize, side: Players) -> Seq<Pieces> {
    let t = spec_to_sq(a) as int;
    if is_ep_move(a) {
        s.update(ep_victim(t, side), Pieces::Empty)
    } else if is_cast_move(a) {
        s.update(rook_from(t), Pieces::Empty).update(rook_to(t), s[rook_from(t)])
    } else {
        s
    }
}

/// Squares after a move.
pub open spec fn make_squares(s: Seq<Pieces>, a: usize, side: Players) -> Seq<Pieces> {
    let f = spec_from_sq(a) as int;
    let t = spec_to_sq(a) as int;
    let s1 = make_squares1(s, a, side);
    let s2 = if spec_taken(a) != 0 { s1.update(t, Pieces::Empty) } else { s1 };
    let s3 = s2.update(f, Pieces::Empty).update(t, s2[f]);
    if spec_promoted(a) != 0 {
        s3.update(t, spec_piece_from(spec_promoted(a)))
    } else {
        s3
    }
}

/// The position after making move `a` (before asking whether it leaves the
/// mover's king attacked).
pub open spec fn make_spec(p: Position, a: usize, k: ZobristKeys) -> Position {
    let f = spec_from_sq(a) as int;
    let t = spec_to_sq(a) as int;
    let side = p.side;
    let mover = p.squares[f] as usize;
    let s4 = make_squares(p.squares, a, side);
    let castle = p.castle_perm & spec_castle_perm(f as usize) & spec_castle_perm(t as usize);
    let fifty = if spec_is_pawn(mover) || spec_taken(a) != 0 { 0 } else { p.fifty_cnt + 1 };
    let ep = if spec_is_pawn(mover) && is_x2(a) {
        if side == Players::White { f + 10 } else { f - 10 }
    } else {
        0
    };
    let kings = if spec_is_king(s4[t] as usize) { p.king_sqs.update(side_idx(side), t as usize) } else { p.king_sqs };
    let side2 = opp(side);
    Position {
        squares: s4,
        side: side2,
        castle_perm: castle,
        en_pas: ep as usize,
        fifty_cnt: fifty as usize,
        ply_depth: (p.ply_depth + 1) as usize,
        ply: (p.ply + 1) as usize,
        pos_key: position_hash(s4, side2, ep as usize, castle, k),
        king_sqs: kings,
        history: p.history.update(
            p.ply_depth as int,
            Undo {
                action: a,
                castle_perm: p.castle_perm,
                en_pas: p.en_pas,
                fifty_cnt: p.fifty_cnt,
                pos_key: p.pos_key,
            },
        ),
    }
}

/// Squares after taking back move `a` made by `side`.
pub open spec fn unmake_squares(s: Seq<Pieces>, a: usize, side: Players) -> Seq<Pieces> {
    let f = spec_from_sq(a) as int;
    let t = spec_to_sq(a) as int;
    let s1 = if is_ep_move(a) {
        s.update(ep_victim(t, side), pawn_of(opp(side)))
    } else if is_cast_move(a) {
        s.update(rook_to(t), Pieces::Empty).update(rook_from(t), s[rook_to(t)])
    } else {
        s
    };
    let s2 = s1.update(t, Pieces::Empty).update(f, s1[t]);
    let s3 = if spec_taken(a) != 0 { s2.update(t, spec_piece_from(spec_taken(a))) } else { s2 };
    if spec_promoted(a) != 0 {
        s3.update(f, if spec_color(spec_promoted(a)) == Players::White { Pieces::Wp } else { Pieces::Bp })
    } else {
        s3
    }
}

/// The position after taking back the last move of the history.
pub open spec fn unmake_spec(p: Position, k: ZobristKeys) -> Position {
    let pd = p.ply_depth - 1;
    let u = p.history[pd];
    let a = u.action;
    let f = spec_from_sq(a) as int;
    let t = spec_to_sq(a) as int;
    let side = opp(p.side);
    let s1 = if is_ep_move(a) {
        p.squares.update(ep_victim(t, side), pawn_of(opp(side)))
    } else if is_cast_move(a) {
        p.squares.update(rook_to(t), Pieces::Empty).update(rook_from(t), p.squares[rook_to(t)])
    } else {
        p.squares
    };
    let s4 = unmake_squares(p.squares, a, side);
    let kings = if spec_is_king(s1[t] as usize) { p.king_sqs.update(side_idx(side), f as usize) } else { p.king_sqs };
    Position {
        squares: s4,
        side: side,
        castle_perm: u.castle_perm,
        en_pas: u.en_pas,
        fifty_cnt: u.fifty_cnt,
        ply_depth: pd as usize,
        ply: (p.ply - 1) as usize,
        pos_key: position_hash(s4, side, u.en_pas, u.castle_perm, k),
        king_sqs: kings,
        history: p.history,
    }
}

/// `p` with its history replaced.
pub open spec fn with_history(p: Position, h: Seq<Undo>) -> Position {
    Position { history: h, ..p }
}

pub proof fn lemma_piece_from_index(p: Pieces)
    ensures
        p != Pieces::Empty ==> spec_piece_from(p as usize) == p,
{
}

/// Taking back a move restores the squares it was made on.
pub proof fn lemma_unmake_make_squares(p: Position, a: usize)
    requires
        border_wf(p.squares),
        p.side == Players::White || p.side == Players::Black,
        move_ok(p, a),
    ensures
        unmake_squares(make_squares(p.squares, a, p.side), a, p.side) == p.squares,
{
    let s = p.squares;
    let side = p.side;
    let f = spec_from_sq(a) as int;
    let t = spec_to_sq(a) as int;
    let s4 = make_squares(s, a, side);
    lemma_piece_from_index(s[t]);
    if is_ep_move(a) {
        let v = ep_victim(t, side);
        assert(on_board(v));
        assert(v != f && v != t);
        let s1 = s.update(v, Pieces::Empty);
        let s3 = s1.update(f, Pieces::Empty).update(t, s1[f]);
        assert(s4 == s3);
        assert(unmake_squares(s4, a, side) =~= s);
    } else if is_cast_move(a) {
        let rf = rook_from(t);
        let rt = rook_to(t);
        assert(rf != f && rt != f && rf != t && rt != t && rf != rt);
        assert(unmake_squares(s4, a, side) =~= s);
    } else {
        if spec_promoted(a) != 0 {
            assert(s[f] == pawn_of(side));
        }
        assert(unmake_squares(s4, a, side) =~= s);
    }
}

/// Taking back a move restores the position it was made in; only the
/// history slot of the move keeps what making it wrote there.
pub proof fn lemma_unmake_make(p: Position, a: usize, k: ZobristKeys)
    requires
        pos_valid(p, k),
        move_ok(p, a),
    ensures
        unmake_spec(make_spec(p, a, k), k) == with_history(p, make_spec(p, a, k).history),
{
    let q = make_spec(p, a, k);
    let u = unmake_spec(q, k);
    let f = spec_from_sq(a) as int;
    let t = spec_to_sq(a) as int;
    assert(q.history[p.ply_depth as int].action == a);
    lemma_unmake_make_squares(p, a);
    assert(u.squares == p.squares);
    if spec_is_king(p.squares[f] as usize) {
        assert(p.king_sqs[side_idx(p.side)] == f);
    }
    assert(u.king_sqs =~= p.king_sqs);
}

/// Which castling rights the mask of a square keeps.
pub proof fn lemma_castle_perm_bits(sq: usize)
    ensures
        (spec_castle_perm(sq) & 8 != 0) == (sq != E1 && sq != H1),
        (spec_castle_perm(sq) & 4 != 0) == (sq != E1 && sq != A1),
        (spec_castle_perm(sq) & 2 != 0) == (sq != E8 && sq != H8),
        (spec_castle_perm(sq) & 1 != 0) == (sq != E8 && sq != A8),
{
    assert(11u8 & 8 != 0 && 11u8 & 4 == 0 && 11u8 & 2 != 0 && 11u8 & 1 != 0 && 3u8 & 8 == 0 && 3u8 & 4 == 0 && 3u8 & 2
        != 0 && 3u8 & 1 != 0 && 7u8 & 8 == 0 && 7u8 & 4 != 0 && 7u8 & 2 != 0 && 7u8 & 1 != 0 && 14u8 & 8 != 0 && 14u8 & 4
        != 0 && 14u8 & 2 != 0 && 14u8 & 1 == 0 && 12u8 & 8 != 0 && 12u8 & 4 != 0 && 12u8 & 2 == 0 && 12u8 & 1 == 0 && 13u8
        & 8 != 0 && 13u8 & 4 != 0 && 13u8 & 2 == 0 && 13u8 & 1 != 0 && 15u8 & 8 != 0 && 15u8 & 4 != 0 && 15u8 & 2 != 0
        && 15u8 & 1 != 0) by (bit_vector);
}

/// A bit of a masked permission byte is a bit of the byte and of each mask.
pub proof fn lemma_castle_and(c: u8, m1: u8, m2: u8)
    ensures
        ((c & m1 & m2) & 8 != 0) ==> (c & 8 != 0 && m1 & 8 != 0 && m2 & 8 != 0),
        ((c & m1 & m2) & 4 != 0) ==> (c & 4 != 0 && m1 & 4 != 0 && m2 & 4 != 0),
        ((c & m1 & m2) & 2 != 0) ==> (c & 2 != 0 && m1 & 2 != 0 && m2 & 2 != 0),
        ((c & m1 & m2) & 1 != 0) ==> (c & 1 != 0 && m1 & 1 != 0 && m2 & 1 != 0),
        c < 16 ==> (c & m1 & m2) < 16,
{
    assert((((c & m1 & m2) & 8 != 0) ==> (c & 8 != 0 && m1 & 8 != 0 && m2 & 8 != 0)) && (((c & m1 & m2) & 4 != 0) ==> (c
        & 4 != 0 && m1 & 4 != 0 && m2 & 4 != 0)) && (((c & m1 & m2) & 2 != 0) ==> (c & 2 != 0 && m1 & 2 != 0 && m2 & 2
        != 0)) && (((c & m1 & m2) & 1 != 0) ==> (c & 1 != 0 && m1 & 1 != 0 && m2 & 1 != 0)) && (c < 16 ==> (c & m1 & m2)
        < 16)) by (bit_vector);
}

/// Every square that making a move changes.
pub open spec fn make_touches(p: Position, a: usize, sq: int) -> bool {
    let f = spec_from_sq(a) as int;
    let t = spec_to_sq(a) as int;
    ||| sq == f
    ||| sq == t
    ||| (is_ep_move(a) && sq == ep_victim(t, p.side))
    ||| (is_cast_move(a) && (sq == rook_from(t) || sq == rook_to(t)))
}

/// What making a move puts on each square.
pub proof fn lemma_make_squares_facts(p: Position, a: usize)
    requires
        border_wf(p.squares),
        p.side == Players::White || p.side == Players::Black,
        move_ok(p, a),
    ensures
        ({
            let s = p.squares;
            let s4 = make_squares(s, a, p.side);
            let f = spec_from_sq(a) as int;
            let t = spec_to_sq(a) as int;
            &&& s4.len() == 120
            &&& forall|sq: int| 0 <= sq < 120 && !make_touches(p, a, sq) ==> #[trigger] s4[sq] == s[sq]
            &&& s4[f] == Pieces::Empty
            &&& s4[t] == (if spec_promoted(a) != 0 { spec_piece_from(spec_promoted(a)) } else { s[f] })
            &&& is_ep_move(a) ==> s4[ep_victim(t, p.side)] == Pieces::Empty
            &&& is_cast_move(a) ==> s4[rook_from(t)] == Pieces::Empty && s4[rook_to(t)] == s[rook_from(t)]
            &&& is_ep_move(a) ==> on_board(ep_victim(t, p.side)) && ep_victim(t, p.side) != f && ep_victim(t, p.side) != t
            &&& is_cast_move(a) ==> on_board(rook_from(t)) && on_board(rook_to(t)) && rook_from(t) != f
                && rook_to(t) != f && rook_from(t) != t && rook_to(t) != t && rook_from(t) != rook_to(t)
        }),
{
}

/// Making a move never adds a piece, except the piece promoted to, which
/// replaces a pawn of the mover.
pub proof fn lemma_make_counts(p: Position, a: usize)
    requires
        border_wf(p.squares),
        p.side == Players::White || p.side == Players::Black,
        move_ok(p, a),
    ensures
        forall|y: usize| y != 0 ==> #[trigger] count_of(make_squares(p.squares, a, p.side), y) <= count_of(p.squares, y) + (if spec_promoted(a) != 0
            && y == spec_promoted(a) { 1int } else { 0int }),
        spec_promoted(a) != 0 ==> count_of(make_squares(p.squares, a, p.side), pawn_of(p.side) as usize)
            <= count_of(p.squares, pawn_of(p.side) as usize) - 1,
        is_ep_move(a) ==> count_of(make_squares(p.squares, a, p.side), pawn_of(opp(p.side)) as usize)
            <= count_of(p.squares, pawn_of(opp(p.side)) as usize) - 1,
        spec_taken(a) != 0 ==> count_of(make_squares(p.squares, a, p.side), spec_taken(a))
            <= count_of(p.squares, spec_taken(a)) - 1,
{
    let s = p.squares;
    let side = p.side;
    let f = spec_from_sq(a) as int;
    let t = spec_to_sq(a) as int;
    let s1 = make_squares1(s, a, side);
    if is_ep_move(a) {
        lemma_count_update(s, ep_victim(t, side), Pieces::Empty);
    } else if is_cast_move(a) {
        lemma_count_move(s, rook_from(t), rook_to(t));
    }
    assert(forall|y: usize| y != 0 ==> #[trigger] count_of(s1, y) <= count_of(s, y));
    assert(is_ep_move(a) ==> count_of(s1, pawn_of(opp(side)) as usize) == count_of(s, pawn_of(opp(side)) as usize) - 1);
    assert(s1[f] == s[f]);
    assert(s1[t] == s[t]);
    let s2 = if spec_taken(a) != 0 { s1.update(t, Pieces::Empty) } else { s1 };
    if spec_taken(a) != 0 {
        lemma_count_update(s1, t, Pieces::Empty);
    }
    assert(forall|y: usize| y != 0 ==> #[trigger] count_of(s2, y) <= count_of(s1, y));
    if spec_taken(a) != 0 {
        lemma_piece_from_index(s[t]);
        assert(count_of(s2, spec_taken(a)) == count_of(s1, spec_taken(a)) - 1);
        assert(spec_taken(a) != pawn_of(side) as usize);
        assert(spec_promoted(a) != 0 ==> spec_taken(a) != spec_promoted(a));
    }
    assert(s2[t] == Pieces::Empty);
    assert(s2[f] == s[f]);
    let s3 = s2.update(f, Pieces::Empty).update(t, s2[f]);
    lemma_count_move(s2, f, t);
    if spec_promoted(a) != 0 {
        lemma_count_update(s3, t, spec_piece_from(spec_promoted(a)));
        assert(s3[t] == pawn_of(side));
        lemma_piece_from_prom(spec_promoted(a));
    }
}

pub proof fn lemma_piece_from_prom(x: usize)
    requires
        is_real(x),
    ensures
        spec_piece_from(x) as usize == x,
        spec_piece_from(x) != Pieces::Empty,
        spec_piece_from(x) != Pieces::OffLimits,
{
}

/// Making a move keeps a position consistent.
pub proof fn lemma_make_valid(p: Position, a: usize, k: ZobristKeys)
    requires
        pos_valid(p, k),
        move_ok(p, a),
    ensures
        pos_core(make_spec(p, a, k), k),
{
    let q = make_spec(p, a, k);
    let s = p.squares;
    let s4 = q.squares;
    let side = p.side;
    let f = spec_from_sq(a) as int;
    let t = spec_to_sq(a) as int;
    let prom = spec_promoted(a);
    lemma_make_squares_facts(p, a);
    if prom != 0 {
        lemma_piece_from_prom(prom);
    }
    // border
    assert forall|sq: int| 0 <= sq < 120 implies ((#[trigger] s4[sq] == Pieces::OffLimits) <==> !on_board(sq)) by {
        if make_touches(p, a, sq) {
            if is_cast_move(a) && sq == rook_to(t) {
                assert(s4[sq] == s[rook_from(t)]);
            }
        } else {
            assert(s4[sq] == s[sq]);
        }
    }
    // castling
    lemma_castle_and(p.castle_perm, spec_castle_perm(f as usize), spec_castle_perm(t as usize));
    lemma_castle_perm_bits(f as usize);
    lemma_castle_perm_bits(t as usize);
    if q.castle_perm & 8 != 0 {
        assert(!make_touches(p, a, E1 as int) && !make_touches(p, a, H1 as int));
        assert(s4[E1 as int] == s[E1 as int] && s4[H1 as int] == s[H1 as int]);
    }
    if q.castle_perm & 4 != 0 {
        assert(!make_touches(p, a, E1 as int) && !make_touches(p, a, A1 as int));
        assert(s4[E1 as int] == s[E1 as int] && s4[A1 as int] == s[A1 as int]);
    }
    if q.castle_perm & 2 != 0 {
        assert(!make_touches(p, a, E8 as int) && !make_touches(p, a, H8 as int));
        assert(s4[E8 as int] == s[E8 as int] && s4[H8 as int] == s[H8 as int]);
    }
    if q.castle_perm & 1 != 0 {
        assert(!make_touches(p, a, E8 as int) && !make_touches(p, a, A8 as int));
        assert(s4[E8 as int] == s[E8 as int] && s4[A8 as int] == s[A8 as int]);
    }
    assert(castle_wf(s4, q.castle_perm));
    // en passant
    if q.en_pas != 0 {
        let e = q.en_pas as int;
        if side == Players::White {
            assert(e == f + 10 && t == f + 20);
        } else {
            assert(e == f - 10 && t == f - 20);
        }
        assert(!is_cast_move(a));
        assert(!make_touches(p, a, e));
        assert(s4[e] == s[e]);
    }
    assert(ep_wf(s4, q.side, q.en_pas));
    // kings
    let mover = s[f];
    assert forall|sq: int| 0 <= sq < 120 && #[trigger] s4[sq] == Pieces::Wk implies sq == q.king_sqs[0] by {
        if make_touches(p, a, sq) {
            if is_cast_move(a) && sq == rook_to(t) {
                assert(s4[sq] == s[rook_from(t)]);
            }
        } else {
            assert(s[sq] == Pieces::Wk);
        }
    }
    assert forall|sq: int| 0 <= sq < 120 && #[trigger] s4[sq] == Pieces::Bk implies sq == q.king_sqs[1] by {
        if make_touches(p, a, sq) {
            if is_cast_move(a) && sq == rook_to(t) {
                assert(s4[sq] == s[rook_from(t)]);
            }
        } else {
            assert(s[sq] == Pieces::Bk);
        }
    }
    if spec_is_king(mover as usize) {
        assert(p.king_sqs[side_idx(side)] == f);
    } else {
        assert(!make_touches(p, a, p.king_sqs[0] as int));
        assert(!make_touches(p, a, p.king_sqs[1] as int));
    }
    assert(kings_wf(s4, q.king_sqs));
    // room
    lemma_make_counts(p, a);
    assert forall|x: usize| (2 <= x <= 5 ==> #[trigger] count_of(s4, x) + count_of(s4, 1) <= 10) && (8 <= x <= 11
        ==> count_of(s4, x) + count_of(s4, 7) <= 10) by {
        if 2 <= x <= 5 || 8 <= x <= 11 {
        assert(count_of(s4, x) <= count_of(s, x) + (if prom != 0 && x == prom { 1int } else { 0int }));
        }
        assert(count_of(s4, 1) <= count_of(s, 1) + (if prom != 0 && 1 == prom { 1int } else { 0int }));
        assert(count_of(s4, 7) <= count_of(s, 7) + (if prom != 0 && 7 == prom { 1int } else { 0int }));
        assert(2 <= x <= 5 ==> count_of(s, x) + count_of(s, 1) <= 10);
        assert(8 <= x <= 11 ==> count_of(s, x) + count_of(s, 7) <= 10);
    }
}

/// Validity does not look at the contents of the history.
pub proof fn lemma_valid_with_history(p: Position, h: Seq<Undo>, k: ZobristKeys)
    requires
        pos_valid(p, k),
        h.len() == 1024,
    ensures
        pos_valid(with_history(p, h), k),
{
}

/// `t` is reached from `f` by steps of `d` over empty squares only.
pub open spec fn on_ray(s: Seq<Pieces>, f: int, d: int, t: int) -> bool
    decreases (if d > 0 { 120 - f } else { f }),
{
    if d == 0 || f + d < 0 || f + d >= 120 || (d > 0 && f >= 120) || (d < 0 && f < 0) {
        false
    } else if f + d == t {
        true
    } else {
        s[f + d] == Pieces::Empty && on_ray(s, f + d, d, t)
    }
}

/// The move has none of the en passant, double step and castling flags.
pub open spec fn plain(a: usize) -> bool {
    a & EP_FLAG == 0 && a & X2_FLAG == 0 && a & CAST_FLAG == 0
}

/// The move has only the given one of the three flags.
pub open spec fn only_ep(a: usize) -> bool {
    a & EP_FLAG != 0 && a & X2_FLAG == 0 && a & CAST_FLAG == 0
}

pub open spec fn only_x2(a: usize) -> bool {
    a & EP_FLAG == 0 && a & X2_FLAG != 0 && a & CAST_FLAG == 0
}

pub open spec fn only_cast(a: usize) -> bool {
    a & EP_FLAG == 0 && a & X2_FLAG == 0 && a & CAST_FLAG != 0
}

/// The target of a non-pawn move: empty (no capture) or holding a piece of
/// the other side, which is the captured piece.
pub open spec fn target_ok(p: Position, a: usize) -> bool {
    let t = spec_to_sq(a) as int;
    let s = p.squares;
    &&& s[t] != Pieces::OffLimits
    &&& if s[t] == Pieces::Empty {
        spec_taken(a) == 0
    } else {
        spec_color(s[t] as usize) == opp(p.side) && spec_taken(a) == s[t] as usize
    }
}

/// Promotion of a pawn of `side` leaving square `f`: one of queen, rook,
/// bishop, knight from the last but one rank, none elsewhere.
pub open spec fn promo_ok(side: Players, f: int, prom: usize) -> bool {
    if side == Players::White {
        if spec_rank_of(f) == 6 { prom == 5 || prom == 4 || prom == 3 || prom == 2 } else { prom == 0 }
    } else {
        if spec_rank_of(f) == 1 { prom == 11 || prom == 10 || prom == 9 || prom == 8 } else { prom == 0 }
    }
}

/// Pawn moves: single push, double push from the start rank, diagonal
/// capture, en passant capture.
pub open spec fn pawn_move(p: Position, a: usize) -> bool {
    let f = spec_from_sq(a) as int;
    let t = spec_to_sq(a) as int;
    let s = p.squares;
    let side = p.side;
    let fwd: int = if side == Players::White { 10 } else { -10 };
    let prom = spec_promoted(a);
    ||| (t == f + fwd && s[t] == Pieces::Empty && spec_taken(a) == 0 && plain(a) && promo_ok(side, f, prom))
    ||| (t == f + 2 * fwd && spec_rank_of(f) == (if side == Players::White { 1usize } else { 6usize })
        && s[f + fwd] == Pieces::Empty && s[t] == Pieces::Empty && spec_taken(a) == 0 && prom == 0 && only_x2(a))
    ||| ((t == f + fwd - 1 || t == f + fwd + 1) && s[t] != Pieces::OffLimits && s[t] != Pieces::Empty
        && spec_color(s[t] as usize) == opp(side) && spec_taken(a) == s[t] as usize && plain(a) && promo_ok(side, f, prom))
    ||| ((t == f + fwd - 1 || t == f + fwd + 1) && s[t] != Pieces::OffLimits && t == p.en_pas && p.en_pas != 0
        && spec_taken(a) == 0 && prom == 0 && only_ep(a))
}

/// A knight or king step to a square that is empty or holds an enemy piece.
pub open spec fn step_move(p: Position, a: usize, dirs: Seq<int>) -> bool {
    let f = spec_from_sq(a) as int;
    let t = spec_to_sq(a) as int;
    &&& exists|i: int| 0 <= i < dirs.len() && t == f + #[trigger] dirs[i]
    &&& target_ok(p, a)
    &&& spec_promoted(a) == 0
    &&& plain(a)
}

/// A slide of a bishop, rook or queen over empty squares to a square that
/// is empty or holds an enemy piece.
pub open spec fn slide_move(p: Position, a: usize, dirs: Seq<int>) -> bool {
    let f = spec_from_sq(a) as int;
    let t = spec_to_sq(a) as int;
    &&& exists|i: int| 0 <= i < dirs.len() && on_ray(p.squares, f, #[trigger] dirs[i], t)
    &&& target_ok(p, a)
    &&& spec_promoted(a) == 0
    &&& plain(a)
}

/// Castling: the right is held, the squares between king and rook are
/// empty, and the king's square and the square it passes are not attacked.
pub open spec fn castle_move(p: Position, a: usize) -> bool {
    let f = spec_from_sq(a) as int;
    let t = spec_to_sq(a) as int;
    let s = p.squares;
    &&& spec_taken(a) == 0
    &&& spec_promoted(a) == 0
    &&& only_cast(a)
    &&& if p.side == Players::White {
        &&& f == E1
        &&& ((t == G1 && p.castle_perm & 8 != 0 && s[F1 as int] == Pieces::Empty && s[G1 as int] == Pieces::Empty
            && !attacked(s, E1 as int, Players::Black) && !attacked(s, F1 as int, Players::Black))
        || (t == C1 && p.castle_perm & 4 != 0 && s[D1 as int] == Pieces::Empty && s[C1 as int] == Pieces::Empty
            && s[B1 as int] == Pieces::Empty && !attacked(s, E1 as int, Players::Black) && !attacked(s, D1 as int,
            Players::Black)))
    } else {
        &&& f == E8
        &&& ((t == G8 && p.castle_perm & 2 != 0 && s[F8 as int] == Pieces::Empty && s[G8 as int] == Pieces::Empty
            && !attacked(s, E8 as int, Players::White) && !attacked(s, F8 as int, Players::White))
        || (t == C8 && p.castle_perm & 1 != 0 && s[D8 as int] == Pieces::Empty && s[C8 as int] == Pieces::Empty
            && s[B8 as int] == Pieces::Empty && !attacked(s, E8 as int, Players::White) && !attacked(s, D8 as int,
            Players::White)))
    }
}

/// `a` is a pseudo legal move in `p`: a move of a piece of the side to
/// move by the rules of its kind, not looking at the safety of its king.
pub open spec fn gen_move(p: Position, a: usize) -> bool {
    let f = spec_from_sq(a) as int;
    let mover = p.squares[f] as usize;
    &&& on_board(f)
    &&& is_real(mover)
    &&& spec_color(mover) == p.side
    &&& {
        let k = spec_kind(mover);
        if k == 0 {
            pawn_move(p, a)
        } else if k == 1 {
            step_move(p, a, knight_dirs())
        } else if k == 2 {
            slide_move(p, a, bishop_dirs())
        } else if k == 3 {
            slide_move(p, a, rook_dirs())
        } else if k == 4 {
            slide_move(p, a, king_dirs())
        } else {
            step_move(p, a, king_dirs()) || castle_move(p, a)
        }
    }
}

/// A capture: something is taken, on the target or en passant.
pub open spec fn is_capture(a: usize) -> bool {
    spec_taken(a) != 0 || is_ep_move(a)
}

/// The pieces met walking back from the end of a clear ray.
pub proof fn lemma_on_ray_back(s: Seq<Pieces>, g: int, d: int, t: int)
    requires
        border_wf(s),
        on_ray(s, g, d, t),
        0 <= g < 120,
        d == -1 || d == 1 || d == -10 || d == 10 || d == -9 || d == 9 || d == -11 || d == 11,
        on_board(t),
    ensures
        ray_piece(s, t, -d) == ray_piece(s, g + d, -d),
    decreases (if d > 0 { 120 - g } else { g }),
{
    if g + d != t {
        assert(s[g + d] == Pieces::Empty);
        assert(on_board(g + d));
        lemma_on_ray_back(s, g + d, d, t);
    }
}

/// The first piece met walking back from the end of a clear ray from `f`
/// is the piece on `f`.
pub proof fn lemma_ray_sees_origin(s: Seq<Pieces>, f: int, d: int, t: int)
    requires
        border_wf(s),
        on_ray(s, f, d, t),
        on_board(f),
        on_board(t),
        is_real(s[f] as usize),
        d == -1 || d == 1 || d == -10 || d == 10 || d == -9 || d == 9 || d == -11 || d == 11,
    ensures
        ray_piece(s, t, -d) == s[f] as usize,
{
    lemma_on_ray_back(s, f, d, t);
}

/// A pseudo legal capture attacks the captured square.
pub proof fn lemma_gen_attacks(p: Position, a: usize)
    requires
        border_wf(p.squares),
        p.side == Players::White || p.side == Players::Black,
        gen_move(p, a),
        !is_cast_move(a),
        !is_ep_move(a),
        on_board(spec_to_sq(a) as int),
        p.squares[spec_to_sq(a) as int] != Pieces::Empty,
    ensures
        attacked(p.squares, spec_to_sq(a) as int, p.side),
{
    let s = p.squares;
    let f = spec_from_sq(a) as int;
    let t = spec_to_sq(a) as int;
    let mover = s[f] as usize;
    let k = spec_kind(mover);
    if k == 0 {
        assert(s[f] == pawn_of(p.side));
        assert(pawn_attacks(s, t, p.side));
    } else if k == 1 {
        let i = choose|i: int| 0 <= i < knight_dirs().len() && t == f + #[trigger] knight_dirs()[i];
        let j = (i + 4) % 8;
        assert(knight_dirs()[j] == -knight_dirs()[i]);
        assert(s[t + knight_dirs()[j]] == s[f]);
        assert(knight_attacks(s, t, p.side));
    } else if k == 5 && step_move(p, a, king_dirs()) {
        let i = choose|i: int| 0 <= i < king_dirs().len() && t == f + #[trigger] king_dirs()[i];
        let j = if i == 0 { 2 } else if i == 1 { 3 } else if i == 2 { 0 } else if i == 3 { 1 } else if i == 4 { 7 }
            else if i == 5 { 6 } else if i == 6 { 5 } else { 4 };
        assert(king_dirs()[j] == -king_dirs()[i]);
        assert(s[t + king_dirs()[j]] == s[f]);
        assert(king_attacks(s, t, p.side));
    } else if k == 5 {
        assert(castle_move(p, a));
    } else {
        let dirs = if k == 2 { bishop_dirs() } else if k == 3 { rook_dirs() } else { king_dirs() };
        let i = choose|i: int| 0 <= i < dirs.len() && on_ray(s, f, #[trigger] dirs[i], t);
        let d = dirs[i];
        lemma_ray_sees_origin(s, f, d, t);
        if d == -9 || d == 9 || d == -11 || d == 11 {
            let j = if d == -9 { 3 } else if d == 9 { 0 } else if d == -11 { 2 } else { 1int };
            assert(bishop_dirs()[j] == -d);
            assert(k != 3);
            assert(diagonal_attacks(s, t, p.side));
        } else {
            let j = if d == -1 { 2 } else if d == 1 { 0 } else if d == -10 { 3 } else { 1int };
            assert(rook_dirs()[j] == -d);
            assert(k != 2);
            assert(straight_attacks(s, t, p.side));
        }
    }
}

/// Flag facts of moves with at most one flag.
pub proof fn lemma_flag_facts(a: usize)
    ensures
        only_ep(a) ==> is_ep_move(a) && !is_x2(a) && !is_cast_move(a),
        only_x2(a) ==> !is_ep_move(a) && is_x2(a) && !is_cast_move(a),
        only_cast(a) ==> !is_ep_move(a) && !is_x2(a) && is_cast_move(a),
        plain(a) ==> !is_ep_move(a) && !is_x2(a) && !is_cast_move(a),
{
}

/// Every pseudo legal move of a valid position can be made.
pub proof fn lemma_gen_move_ok(p: Position, a: usize, k: ZobristKeys)
    requires
        pos_valid(p, k),
        gen_move(p, a),
        p.ply_depth < 1024,
        p.fifty_cnt < usize::MAX,
        p.ply < usize::MAX,
    ensures
        move_ok(p, a),
{
    let s = p.squares;
    let f = spec_from_sq(a) as int;
    let t = spec_to_sq(a) as int;
    let side = p.side;
    let mover = s[f] as usize;
    let kd = spec_kind(mover);
    lemma_flag_facts(a);
    lemma_fields_bounded(a);
    assert(0 <= t < 128);
    if kd == 0 {
        assert(s[f] == pawn_of(side));
        assert(0 <= t < 120);
        assert(on_board(t));
        if is_ep_move(a) {
            assert(t == p.en_pas);
        }
    } else if kd == 1 {
        let i = choose|i: int| 0 <= i < knight_dirs().len() && t == f + #[trigger] knight_dirs()[i];
        assert(0 <= t < 120);
    } else if kd == 5 && castle_move(p, a) {
        lemma_castle_perm_bits(0);
    } else if kd == 5 {
        let i = choose|i: int| 0 <= i < king_dirs().len() && t == f + #[trigger] king_dirs()[i];
        assert(0 <= t < 120);
    } else {
        let dirs = if kd == 2 { bishop_dirs() } else if kd == 3 { rook_dirs() } else { king_dirs() };
        let i = choose|i: int| 0 <= i < dirs.len() && on_ray(s, f, #[trigger] dirs[i], t);
        lemma_on_ray_in_range(s, f, dirs[i], t);
    }
    assert(on_board(t));
    if !is_ep_move(a) && !is_cast_move(a) && s[t] != Pieces::Empty {
        lemma_gen_attacks(p, a);
        if spec_is_king(s[t] as usize) {
            assert(spec_color(s[t] as usize) == opp(side));
            if side == Players::White {
                assert(s[t] == Pieces::Bk);
            } else {
                assert(s[t] == Pieces::Wk);
            }
            assert(t == p.king_sqs[side_idx(opp(side))]);
        }
    }
}

/// The end of a ray lies within the board area.
pub proof fn lemma_on_ray_in_range(s: Seq<Pieces>, f: int, d: int, t: int)
    requires
        on_ray(s, f, d, t),
        0 <= f < 120,
    ensures
        0 <= t < 120,
    decreases (if d > 0 { 120 - f } else { f }),
{
    if f + d != t {
        lemma_on_ray_in_range(s, f + d, d, t);
    }
}

/// Directions in which a piece of the given kind slides.
pub open spec fn slider_dirs(kind: usize) -> Seq<int> {
    if kind == 2 {
        bishop_dirs()
    } else if kind == 3 {
        rook_dirs()
    } else {
        king_dirs()
    }
}

/// The directions of a piece are different from each other.
pub proof fn lemma_dirs_distinct(ds: Seq<int>, i: int, j: int)
    requires
        ds == knight_dirs() || ds == king_dirs() || ds == bishop_dirs() || ds == rook_dirs(),
        0 <= i < ds.len(),
        0 <= j < ds.len(),
        ds[i] == ds[j],
    ensures
        i == j,
{
    assert(i == 0 || i == 1 || i == 2 || i == 3 || i == 4 || i == 5 || i == 6 || i == 7);
    assert(j == 0 || j == 1 || j == 2 || j == 3 || j == 4 || j == 5 || j == 6 || j == 7);
}

/// A direction of a slider is one of the eight.
pub proof fn lemma_slider_dir(kind: usize, j: int)
    requires
        0 <= j < slider_dirs(kind).len(),
    ensures
        slider_dirs(kind)[j] == -1 || slider_dirs(kind)[j] == 1 || slider_dirs(kind)[j] == -10 || slider_dirs(kind)[j]
            == 10 || slider_dirs(kind)[j] == -9 || slider_dirs(kind)[j] == -11 || slider_dirs(kind)[j] == 9
            || slider_dirs(kind)[j] == 11,
        slider_dirs(kind) == bishop_dirs() || slider_dirs(kind) == rook_dirs() || slider_dirs(kind) == king_dirs(),
{
    assert(j == 0 || j == 1 || j == 2 || j == 3 || j == 4 || j == 5 || j == 6 || j == 7);
}

/// File step (-1, 0 or 1) of one of the eight directions.
pub open spec fn step_file(d: int) -> int {
    if d == 1 || d == 11 || d == -9 {
        1
    } else if d == -1 || d == -11 || d == 9 {
        -1
    } else {
        0
    }
}

/// Rank step (-1, 0 or 1) of one of the eight directions.
pub open spec fn step_rank(d: int) -> int {
    if d == 10 || d == 11 || d == 9 {
        1
    } else if d == -10 || d == -11 || d == -9 {
        -1
    } else {
        0
    }
}

/// Sign of an integer.
pub open spec fn sgn(x: int) -> int {
    if x > 0 {
        1
    } else if x < 0 {
        -1
    } else {
        0
    }
}

/// A step between two playing squares moves by the direction's file and
/// rank steps.
pub proof fn lemma_board_step(f: int, d: int)
    requires
        on_board(f),
        on_board(f + d),
        d == -1 || d == 1 || d == -10 || d == 10 || d == -9 || d == -11 || d == 9 || d == 11,
    ensures
        (f + d) % 10 == f % 10 + step_file(d),
        (f + d) / 10 == f / 10 + step_rank(d),
{
    let q = f / 10;
    let r = f % 10;
    assert(f == 10 * q + r);
    assert(1 <= r <= 8);
}

/// A ray over the board keeps its sense: the square it reaches lies from
/// its origin in the file and rank sense of its direction.
pub proof fn lemma_ray_geometry(s: Seq<Pieces>, f: int, d: int, t: int)
    requires
        border_wf(s),
        on_board(f),
        on_board(t),
        on_ray(s, f, d, t),
        d == -1 || d == 1 || d == -10 || d == 10 || d == -9 || d == -11 || d == 9 || d == 11,
    ensures
        sgn(t % 10 - f % 10) == step_file(d),
        sgn(t / 10 - f / 10) == step_rank(d),
    decreases (if d > 0 { 120 - f } else { f }),
{
    let g = f + d;
    if g == t {
        lemma_board_step(f, d);
    } else {
        assert(s[g] == Pieces::Empty);
        assert(on_board(g));
        lemma_board_step(f, d);
        lemma_ray_geometry(s, g, d, t);
    }
}

/// Two rays from one square in two of the eight directions meet no
/// playing square in common.
pub proof fn lemma_rays_apart(s: Seq<Pieces>, f: int, d1: int, d2: int, t: int)
    requires
        border_wf(s),
        on_board(f),
        on_board(t),
        on_ray(s, f, d1, t),
        on_ray(s, f, d2, t),
        d1 == -1 || d1 == 1 || d1 == -10 || d1 == 10 || d1 == -9 || d1 == -11 || d1 == 9 || d1 == 11,
        d2 == -1 || d2 == 1 || d2 == -10 || d2 == 10 || d2 == -9 || d2 == -11 || d2 == 9 || d2 == 11,
    ensures
        d1 == d2,
{
    lemma_ray_geometry(s, f, d1, t);
    lemma_ray_geometry(s, f, d2, t);
}

/// A clear ray that ends on an empty square goes on one more step.
pub proof fn lemma_on_ray_extend(s: Seq<Pieces>, g: int, d: int, t: int)
    requires
        on_ray(s, g, d, t),
        s[t] == Pieces::Empty,
        0 <= t + d < 120,
        0 <= g < 120,
        d != 0,
    ensures
        on_ray(s, g, d, t + d),
    decreases (if d > 0 { 120 - g } else { g }),
{
    if g + d != t {
        lemma_on_ray_extend(s, g + d, d, t);
    } else {
        assert(on_ray(s, t, d, t + d));
    }
}

/// Squares on a ray lie beyond its origin.
pub proof fn lemma_on_ray_dir(s: Seq<Pieces>, f: int, d: int, t: int)
    requires
        on_ray(s, f, d, t),
    ensures
        d > 0 ==> t > f,
        d < 0 ==> t < f,
    decreases (if d > 0 { 120 - f } else { f }),
{
    if f + d != t {
        lemma_on_ray_dir(s, f + d, d, t);
    }
}

/// The first square of a ray is its nearest.
pub proof fn lemma_on_ray_first(s: Seq<Pieces>, f: int, d: int, t: int)
    requires
        on_ray(s, f, d, t),
    ensures
        d > 0 ==> t >= f + d,
        d < 0 ==> t <= f + d,
        0 <= f + d < 120,
{
    if f + d != t {
        lemma_on_ray_dir(s, f + d, d, t);
    }
}

/// Of two squares `g` and `t` on one ray, `t` comes first, is `g`, or is
/// reached over `g`, which is then empty.
pub proof fn lemma_on_ray_order(s: Seq<Pieces>, f: int, d: int, g: int, t: int)
    requires
        on_ray(s, f, d, g),
        on_ray(s, f, d, t),
    ensures
        t == g || (d > 0 && t < g) || (d < 0 && t > g) || (s[g] == Pieces::Empty && on_ray(s, g, d, t)),
    decreases (if d > 0 { 120 - f } else { f }),
{
    if f + d == t {
        if g != t {
            lemma_on_ray_dir(s, f + d, d, g);
        }
    } else if f + d != g {
        lemma_on_ray_order(s, f + d, d, g, t);
    }
}

/// The flags of a packed move, read from its flag bits.
pub proof fn lemma_packed_flags(a: usize)
    requires
        packed(a),
    ensures
        (a & 0x1C00000 == 0) == plain(a),
        (a & 0x1C00000 == EP_FLAG) == only_ep(a),
        (a & 0x1C00000 == X2_FLAG) == only_x2(a),
        (a & 0x1C00000 == CAST_FLAG) == only_cast(a),
        (a & CAST_FLAG != 0) == (a & 0x1C00000 == CAST_FLAG),
{
    assert((a & 0x1C00000 == 0) == (a & 0x400000 == 0 && a & 0x800000 == 0 && a & 0x1000000 == 0)) by (bit_vector);
    assert((a & 0x1C00000 == 0x400000) == (a & 0x400000 != 0 && a & 0x800000 == 0 && a & 0x1000000 == 0))
        by (bit_vector);
    assert((a & 0x1C00000 == 0x800000) == (a & 0x400000 == 0 && a & 0x800000 != 0 && a & 0x1000000 == 0))
        by (bit_vector);
    assert((a & 0x1C00000 == 0x1000000) == (a & 0x400000 == 0 && a & 0x800000 == 0 && a & 0x1000000 != 0))
        by (bit_vector);
}

/// `q` is `p` but for the history entries at or above the ply depth,
/// which only hold what later moves will need.
pub open spec fn eq_low(q: Position, p: Position) -> bool {
    &&& with_history(q, p.history) == p
    &&& q.history.len() == p.history.len()
    &&& forall|i: int| 0 <= i < p.ply_depth && i < p.history.len() ==> #[trigger] q.history[i] == p.history[i]
}

/// Positions that differ only in their scratch history are equally
/// valid, allow the same moves, and lead to such positions again.
pub proof fn lemma_eq_low_facts(q: Position, p: Position, a: usize, k: ZobristKeys)
    requires
        eq_low(q, p),
        p.ply_depth < p.history.len(),
    ensures
        pos_valid(q, k) == pos_valid(p, k),
        move_ok(q, a) == move_ok(p, a),
        gen_move(q, a) == gen_move(p, a),
        q.squares == p.squares,
        q.side == p.side,
        q.ply == p.ply,
        q.ply_depth == p.ply_depth,
        q.pos_key == p.pos_key,
        q.king_sqs == p.king_sqs,
        eq_low(make_spec(q, a, k), make_spec(p, a, k)),
        eq_low(p, q),
{
    assert(with_history(q, p.history).squares == q.squares);
    assert(q.squares == p.squares);
    assert(q.ply_depth == p.ply_depth);
    let mq = make_spec(q, a, k);
    let mp = make_spec(p, a, k);
    assert(with_history(mq, mp.history) == mp);
    assert forall|i: int| 0 <= i < mp.ply_depth && i < mp.history.len() implies #[trigger] mq.history[i]
        == mp.history[i] by {
        assert(mq.history == q.history.update(q.ply_depth as int, mq.history[q.ply_depth as int]));
        assert(mp.history == p.history.update(p.ply_depth as int, mp.history[p.ply_depth as int]));
        if i != p.ply_depth {
            assert(mq.history[i] == q.history[i]);
            assert(mp.history[i] == p.history[i]);
        }
    }
    assert(with_history(p, q.history) == q);
}

/// `eq_low` is transitive.
pub proof fn lemma_eq_low_trans(a: Position, b: Position, c: Position)
    requires
        eq_low(a, b),
        eq_low(b, c),
    ensures
        eq_low(a, c),
{
    assert(with_history(a, c.history) == c);
}

/// Taking back the move made from `p` leads back to `p`, but for scratch
/// history.
pub proof fn lemma_unmake_eq_low(q: Position, p: Position, a: usize, k: ZobristKeys)
    requires
        pos_valid(p, k),
        move_ok(p, a),
        eq_low(q, make_spec(p, a, k)),
    ensures
        eq_low(unmake_spec(q, k), p),
        exists|p0: Position, a0: usize| #[trigger] make_spec(p0, a0, k) == q && pos_valid(p0, k) && move_ok(p0, a0),
{
    let m = make_spec(p, a, k);
    lemma_unmake_make(p, a, k);
    assert(q.history[p.ply_depth as int] == m.history[p.ply_depth as int]);
    lemma_unmake_frame(q, m, k);
    lemma_eq_low_trans(unmake_spec(q, k), unmake_spec(m, k), p);
    lemma_make_with_history(p, a, k, q.history);
}

/// Taking back a move reads only the history entry below the ply depth.
proof fn lemma_unmake_frame(q: Position, m: Position, k: ZobristKeys)
    requires
        eq_low(q, m),
        1 <= m.ply_depth <= m.history.len(),
    ensures
        eq_low(unmake_spec(q, k), unmake_spec(m, k)),
{
    assert(q.history[m.ply_depth - 1] == m.history[m.ply_depth - 1]);
    assert(q.squares == m.squares && q.side == m.side && q.ply == m.ply && q.ply_depth == m.ply_depth);
    assert(q.king_sqs == m.king_sqs);
}

/// Making a move from `p` with another history writes that history.
proof fn lemma_make_with_history(p: Position, a: usize, k: ZobristKeys, h: Seq<Undo>)
    requires
        pos_valid(p, k),
        move_ok(p, a),
        h.len() == p.history.len(),
        0 <= p.ply_depth < h.len(),
        h[p.ply_depth as int] == make_spec(p, a, k).history[p.ply_depth as int],
        eq_low(with_history(make_spec(p, a, k), h), make_spec(p, a, k)),
    ensures
        exists|p0: Position, a0: usize| #[trigger] make_spec(p0, a0, k) == with_history(make_spec(p, a, k), h)
            && pos_valid(p0, k) && move_ok(p0, a0),
{
    let p1 = with_history(p, h);
    let m = make_spec(p, a, k);
    let m1 = make_spec(p1, a, k);
    assert(eq_low(p1, p));
    lemma_eq_low_facts(p1, p, a, k);
    assert(m1.history == h.update(p.ply_depth as int, m.history[p.ply_depth as int]));
    assert(m1.history =~= h);
    assert(with_history(m1, m.history) == m);
    assert(m1 == with_history(m, h));
}

/// `a` is a legal move in `p`: pseudo legal, and it does not leave the
/// mover's king attacked.
pub open spec fn legal(p: Position, a: usize, k: ZobristKeys) -> bool {
    &&& gen_move(p, a)
    &&& !attacked(make_spec(p, a, k).squares, make_spec(p, a, k).king_sqs[side_idx(p.side)] as int, opp(p.side))
}

/// The position after the moves of `line`, one after the other.
pub open spec fn play(p: Position, line: Seq<usize>, k: ZobristKeys) -> Position
    decreases line.len(),
{
    if line.len() == 0 {
        p
    } else {
        make_spec(play(p, line.drop_last(), k), line.last(), k)
    }
}

/// Every move of `line` is legal in the position it is made in.
pub open spec fn legal_line(p: Position, line: Seq<usize>, k: ZobristKeys) -> bool
    decreases line.len(),
{
    if line.len() == 0 {
        true
    } else {
        legal_line(p, line.drop_last(), k) && legal(play(p, line.drop_last(), k), line.last(), k)
    }
}

/// Every prefix of a legal line is a legal line.
pub proof fn lemma_line_prefix(p: Position, line: Seq<usize>, k: ZobristKeys, i: int)
    requires
        legal_line(p, line, k),
        0 <= i <= line.len(),
    ensures
        legal_line(p, line.subrange(0, i), k),
    decreases line.len(),
{
    if i < line.len() {
        assert(line.drop_last().subrange(0, i) =~= line.subrange(0, i));
        lemma_line_prefix(p, line.drop_last(), k, i);
    } else {
        assert(line.subrange(0, i) =~= line);
    }
}

/// The positions along a legal line from a valid position are valid; each
/// move adds a ply.
pub proof fn lemma_line_valid(p: Position, line: Seq<usize>, k: ZobristKeys)
    requires
        pos_valid(p, k),
        legal_line(p, line, k),
        p.ply_depth + line.len() < 1024,
        p.fifty_cnt + line.len() < usize::MAX,
        p.ply + line.len() < usize::MAX,
        p.fifty_cnt <= p.ply_depth,
    ensures
        pos_valid(play(p, line, k), k),
        play(p, line, k).ply == p.ply + line.len(),
        play(p, line, k).ply_depth == p.ply_depth + line.len(),
        play(p, line, k).fifty_cnt <= p.fifty_cnt + line.len(),
        play(p, line, k).fifty_cnt <= play(p, line, k).ply_depth,
    decreases line.len(),
{
    if line.len() > 0 {
        let pre = line.drop_last();
        lemma_line_valid(p, pre, k);
        let q = play(p, pre, k);
        lemma_gen_move_ok(q, line.last(), k);
        lemma_make_valid(q, line.last(), k);
    }
}

/// A line legal from a position is legal from the same position with
/// other scratch history.
pub proof fn lemma_line_eq_low(q: Position, p: Position, line: Seq<usize>, k: ZobristKeys)
    requires
        eq_low(q, p),
        p.ply_depth + line.len() < p.history.len(),
        p.history.len() == 1024,
        legal_line(q, line, k),
    ensures
        legal_line(p, line, k),
        eq_low(play(q, line, k), play(p, line, k)),
    decreases line.len(),
{
    if line.len() > 0 {
        let pre = line.drop_last();
        lemma_line_eq_low(q, p, pre, k);
        lemma_play_depth(p, pre, k);
        lemma_eq_low_facts(play(q, pre, k), play(p, pre, k), line.last(), k);
    }
}

/// Each move of a line adds one to the ply depth and keeps the history's
/// length.
pub proof fn lemma_play_depth(p: Position, line: Seq<usize>, k: ZobristKeys)
    requires
        p.ply_depth + line.len() < p.history.len(),
        p.history.len() == 1024,
    ensures
        play(p, line, k).ply_depth == p.ply_depth + line.len(),
        play(p, line, k).history.len() == p.history.len(),
    decreases line.len(),
{
    if line.len() > 0 {
        lemma_play_depth(p, line.drop_last(), k);
    }
}

/// The position with the search ply set to `x`.
pub open spec fn at_ply(p: Position, x: usize) -> Position {
    Position { ply: x, ..p }
}

/// The search ply plays no part in the rules: moves are the same, and
/// making one adds one to the ply.
pub proof fn lemma_at_ply(p: Position, a: usize, k: ZobristKeys, x: usize)
    requires
        x < usize::MAX,
        p.ply < usize::MAX,
    ensures
        make_spec(at_ply(p, x), a, k) == at_ply(make_spec(p, a, k), (x + 1) as usize),
        gen_move(at_ply(p, x), a) == gen_move(p, a),
        legal(at_ply(p, x), a, k) == legal(p, a, k),
        pos_valid(at_ply(p, x), k) == pos_valid(p, k),
        move_ok(at_ply(p, x), a) == move_ok(p, a),
{
    assert(make_spec(at_ply(p, x), a, k) == at_ply(make_spec(p, a, k), (x + 1) as usize));
}

/// Number of pieces (of both players) on the squares.
pub open spec fn pieces_total(s: Seq<Pieces>) -> int {
    count_of(s, 1) + count_of(s, 2) + count_of(s, 3) + count_of(s, 4) + count_of(s, 5) + count_of(s, 6) + count_of(s, 7)
        + count_of(s, 8) + count_of(s, 9) + count_of(s, 10) + count_of(s, 11) + count_of(s, 12)
}

/// A move never adds pieces; a capture removes one.
pub proof fn lemma_make_total(p: Position, a: usize, k: ZobristKeys)
    requires
        border_wf(p.squares),
        p.side == Players::White || p.side == Players::Black,
        move_ok(p, a),
    ensures
        pieces_total(make_spec(p, a, k).squares) <= pieces_total(p.squares),
        is_capture(a) ==> pieces_total(make_spec(p, a, k).squares) <= pieces_total(p.squares) - 1,
{
    lemma_make_counts(p, a);
    let s = p.squares;
    let s2 = make_squares(s, a, p.side);
    assert(make_spec(p, a, k).squares == s2);
    let prom = spec_promoted(a);
    let pw = pawn_of(p.side) as usize;
    let tk = spec_taken(a);
    assert(count_of(s2, 1) <= count_of(s, 1) + (if prom != 0 && 1 == prom { 1int } else { 0int }));
    assert(count_of(s2, 2) <= count_of(s, 2) + (if prom != 0 && 2 == prom { 1int } else { 0int }));
    assert(count_of(s2, 3) <= count_of(s, 3) + (if prom != 0 && 3 == prom { 1int } else { 0int }));
    assert(count_of(s2, 4) <= count_of(s, 4) + (if prom != 0 && 4 == prom { 1int } else { 0int }));
    assert(count_of(s2, 5) <= count_of(s, 5) + (if prom != 0 && 5 == prom { 1int } else { 0int }));
    assert(count_of(s2, 6) <= count_of(s, 6) + (if prom != 0 && 6 == prom { 1int } else { 0int }));
    assert(count_of(s2, 7) <= count_of(s, 7) + (if prom != 0 && 7 == prom { 1int } else { 0int }));
    assert(count_of(s2, 8) <= count_of(s, 8) + (if prom != 0 && 8 == prom { 1int } else { 0int }));
    assert(count_of(s2, 9) <= count_of(s, 9) + (if prom != 0 && 9 == prom { 1int } else { 0int }));
    assert(count_of(s2, 10) <= count_of(s, 10) + (if prom != 0 && 10 == prom { 1int } else { 0int }));
    assert(count_of(s2, 11) <= count_of(s, 11) + (if prom != 0 && 11 == prom { 1int } else { 0int }));
    assert(count_of(s2, 12) <= count_of(s, 12) + (if prom != 0 && 12 == prom { 1int } else { 0int }));
    if prom != 0 {
        assert(count_of(s2, pw) <= count_of(s, pw) - 1);
        assert(1 <= prom <= 12);
        assert(prom != pw);
    }
    if is_ep_move(a) {
        assert(count_of(s2, pawn_of(opp(p.side)) as usize) <= count_of(s, pawn_of(opp(p.side)) as usize) - 1);
    }
    if tk != 0 {
        assert(count_of(s2, tk) <= count_of(s, tk) - 1);
        assert(1 <= tk <= 12);
        assert(tk != prom);
    }
}

impl BoardStructure {
    /// The position the board holds.
    pub open spec fn position(&self) -> Position {
        Position {
            squares: self.board@,
            side: self.side,
            castle_perm: self.castle_perm,
            en_pas: self.en_pas,
            fifty_cnt: self.fifty_cnt,
            ply_depth: self.ply_depth,
            ply: self.ply,
            pos_key: self.pos_key,
            king_sqs: self.king_sqs@,
            history: self.history@,
        }
    }

    /// The board is consistent and holds a valid position.
    pub open spec fn valid(&self) -> bool {
        &&& self.pieces_wf()
        &&& pos_valid(self.position(), self.keys)
    }

    /// The board is consistent, whether or not the side that just moved
    /// left its king attacked: what move generation needs.
    pub open spec fn gen_ok(&self) -> bool {
        &&& self.pieces_wf()
        &&& pos_core(self.position(), self.keys)
    }

    /// The board holds the position after the last move of its history,
    /// made from a valid position.
    pub open spec fn undo_ok(&self) -> bool {
        exists|p0: Position, a: usize| #[trigger] make_spec(p0, a, self.keys) == self.position() && pos_valid(p0, self.keys)
            && move_ok(p0, a)
    }
}

} // verus!
