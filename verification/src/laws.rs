//! Laws that tie the engine's operations together.

use vstd::prelude::*;
use crate::statics::{on_board, is_real, spec_kind, spec_color};
use crate::structs::{ZobristKeys, BoardStructure};
use crate::rules::{
    Position, pos_valid, gen_move, legal, make_spec, unmake_spec, with_history, spec_from_sq, spec_to_sq,
    spec_promoted, lemma_gen_move_ok, lemma_unmake_make, lemma_make_valid,
};
use crate::uci::{move_text_spec, move_text_ok, square_of, promo_fits, promo_letter, promo_char_spec, go_spec, kw_num};
use crate::statics::{Pieces, Players, spec_file_of};
use crate::structs::{TransTableEntry, TransFlag};
use crate::fen::{fen_castling, castle_bit};
use crate::polyglot::{poly_hash, poly_pieces, ep_pawn_spec, poly_kind, poly_index};
use crate::trans_table::{probe_spec, mate_out};

verus! {

/// Taking back a move undoes it: for every pseudo legal move of a valid
/// position, making the move and taking it back gives the position before,
/// except for the history slot that making the move filled.
pub proof fn law_unmake_undoes_make(p: Position, a: usize, k: ZobristKeys)
    requires
        pos_valid(p, k),
        gen_move(p, a),
        p.ply_depth < 1024,
        p.fifty_cnt < usize::MAX,
        p.ply < usize::MAX,
    ensures
        unmake_spec(make_spec(p, a, k), k) == with_history(p, make_spec(p, a, k).history),
{
    lemma_gen_move_ok(p, a, k);
    lemma_unmake_make(p, a, k);
}

/// A legal move leads from a valid position to a valid position, one ply
/// deeper.
pub proof fn law_legal_move_keeps_valid(p: Position, a: usize, k: ZobristKeys)
    requires
        pos_valid(p, k),
        legal(p, a, k),
        p.ply_depth < 1024,
        p.fifty_cnt < usize::MAX,
        p.ply < usize::MAX,
    ensures
        pos_valid(make_spec(p, a, k), k),
        make_spec(p, a, k).ply_depth == p.ply_depth + 1,
{
    lemma_gen_move_ok(p, a, k);
    lemma_make_valid(p, a, k);
}

/// The key kept on a valid board, however many moves were made and taken
/// back, is the key computed from scratch (`generate_position_hash`).
pub proof fn law_key_is_hash(b: BoardStructure)
    requires
        b.valid(),
    ensures
        b.pos_key == b.hash_spec(),
{
}

/// The text of a move reads back as that move: its first four characters
/// name the from and to squares, and its promotion letter fits the piece
/// promoted to.
pub proof fn law_move_text_reads_back(a: usize)
    requires
        on_board(spec_from_sq(a) as int),
        on_board(spec_to_sq(a) as int),
        spec_promoted(a) == 0 || (is_real(spec_promoted(a)) && 1 <= spec_kind(spec_promoted(a)) <= 4),
    ensures
        move_text_ok(move_text_spec(a)),
        square_of(move_text_spec(a)[0], move_text_spec(a)[1]) == spec_from_sq(a),
        square_of(move_text_spec(a)[2], move_text_spec(a)[3]) == spec_to_sq(a),
        promo_fits(spec_promoted(a), promo_letter(move_text_spec(a))),
{
    let f = spec_from_sq(a) as int;
    let t = spec_to_sq(a) as int;
    assert(f == 21 + (f % 10 - 1) + (f / 10 - 2) * 10);
    assert(t == 21 + (t % 10 - 1) + (t / 10 - 2) * 10);
}

/// Bits of a castling permission: an added permission bit is set exactly
/// where it was set before or in what is added.
proof fn lemma_or_bit(perm: u8, x: u8, m: u8)
    requires
        m == 8 || m == 4 || m == 2 || m == 1,
    ensures
        ((perm | x) & m != 0) == (perm & m != 0 || x & m != 0),
{
    assert(((perm | x) & m != 0) == (perm & m != 0 || x & m != 0)) by (bit_vector)
        requires
            m == 8 || m == 4 || m == 2 || m == 1;
}

/// Each castling letter grants one right: `K` white king side (8), `Q`
/// white queen side (4), `k` black king side (2), `q` black queen side
/// (1); any other character none.
proof fn lemma_castle_letter(c: char)
    ensures
        (castle_bit(c) & 8 != 0) == (c == 'K'),
        (castle_bit(c) & 4 != 0) == (c == 'Q'),
        (castle_bit(c) & 2 != 0) == (c == 'k'),
        (castle_bit(c) & 1 != 0) == (c == 'q'),
{
    assert(8u8 & 8 != 0 && 8u8 & 4 == 0 && 8u8 & 2 == 0 && 8u8 & 1 == 0) by (bit_vector);
    assert(4u8 & 8 == 0 && 4u8 & 4 != 0 && 4u8 & 2 == 0 && 4u8 & 1 == 0) by (bit_vector);
    assert(2u8 & 8 == 0 && 2u8 & 4 == 0 && 2u8 & 2 != 0 && 2u8 & 1 == 0) by (bit_vector);
    assert(1u8 & 8 == 0 && 1u8 & 4 == 0 && 1u8 & 2 == 0 && 1u8 & 1 != 0) by (bit_vector);
    assert(0u8 & 8 == 0 && 0u8 & 4 == 0 && 0u8 & 2 == 0 && 0u8 & 1 == 0) by (bit_vector);
}

/// The castling field of a FEN grants exactly the rights its letters name:
/// reading it from index `i` with the rights `perm` so far, white may
/// castle king side (bit 8) exactly where that was allowed before or a `K`
/// stands in the field, queen side (bit 4) for a `Q`, and black king side
/// (bit 2) for a `k`, queen side (bit 1) for a `q`.
pub proof fn law_castling_field(f: Seq<char>, i: int, left: int, perm: u8)
    ensures
        fen_castling(f, i, left, perm) matches Some((p, j)) ==> {
            &&& i <= j
            &&& (p & 8 != 0) == (perm & 8 != 0 || exists|t: int| i <= t < j && #[trigger] f[t] == 'K')
            &&& (p & 4 != 0) == (perm & 4 != 0 || exists|t: int| i <= t < j && #[trigger] f[t] == 'Q')
            &&& (p & 2 != 0) == (perm & 2 != 0 || exists|t: int| i <= t < j && #[trigger] f[t] == 'k')
            &&& (p & 1 != 0) == (perm & 1 != 0 || exists|t: int| i <= t < j && #[trigger] f[t] == 'q')
        },
    decreases left,
{
    if left <= 0 {
    } else if i < 0 || i >= f.len() {
    } else if f[i] == ' ' {
    } else {
        let c = f[i];
        let np = perm | castle_bit(c);
        law_castling_field(f, i + 1, left - 1, np);
        lemma_castle_letter(c);
        lemma_or_bit(perm, castle_bit(c), 8);
        lemma_or_bit(perm, castle_bit(c), 4);
        lemma_or_bit(perm, castle_bit(c), 2);
        lemma_or_bit(perm, castle_bit(c), 1);
        if let Some((p, j)) = fen_castling(f, i, left, perm) {
            assert(fen_castling(f, i + 1, left - 1, np) == Some((p, j)));
            lemma_seen_step(f, i, j, 'K');
            lemma_seen_step(f, i, j, 'Q');
            lemma_seen_step(f, i, j, 'k');
            lemma_seen_step(f, i, j, 'q');
        }
    }
}

/// A character occurs in `f[i..j)` exactly where it is `f[i]` or occurs in
/// `f[i + 1..j)`.
proof fn lemma_seen_step(f: Seq<char>, i: int, j: int, ch: char)
    requires
        i < j,
    ensures
        (exists|t: int| i <= t < j && #[trigger] f[t] == ch) == (f[i] == ch || exists|t: int| i + 1 <= t < j
            && #[trigger] f[t] == ch),
{
    if exists|t: int| i <= t < j && #[trigger] f[t] == ch {
        let t = choose|t: int| i <= t < j && #[trigger] f[t] == ch;
        if t != i {
            assert(i + 1 <= t < j && f[t] == ch);
        }
    }
    if exists|t: int| i + 1 <= t < j && #[trigger] f[t] == ch {
        let t = choose|t: int| i + 1 <= t < j && #[trigger] f[t] == ch;
        assert(i <= t < j && f[t] == ch);
    }
    if f[i] == ch {
        assert(i <= i < j && f[i] == ch);
    }
}

/// The en passant part of the Polyglot key: a position with an en passant
/// square has the key of the same position without one, unless a pawn of
/// the side to move stands beside the pawn that just made its double step
/// (and could take it); then the key of the en passant file is added.
pub proof fn law_polyglot_en_passant(b: BoardStructure, b0: BoardStructure, keys: Seq<u64>)
    requires
        keys.len() == 781,
        21 <= b.en_pas <= 98,
        b0 == (BoardStructure { en_pas: 0, ..b }),
    ensures
        ({
            let capturer = if b.side == Players::White {
                b.board[b.en_pas - 9] == Pieces::Wp || b.board[b.en_pas - 11] == Pieces::Wp
            } else {
                b.board[b.en_pas + 9] == Pieces::Bp || b.board[b.en_pas + 11] == Pieces::Bp
            };
            &&& !capturer ==> poly_hash(&b, keys) == poly_hash(&b0, keys)
            &&& capturer ==> poly_hash(&b, keys) == poly_hash(&b0, keys) ^ keys[772 + spec_file_of(b.en_pas as int)]
        }),
{
    let e = keys[772 + spec_file_of(b.en_pas as int)];
    let k0 = poly_pieces(b.board@, keys, 120);
    let k1 = if b.castle_perm & 8 != 0 { k0 ^ keys[768] } else { k0 };
    let k2 = if b.castle_perm & 4 != 0 { k1 ^ keys[769] } else { k1 };
    let k3 = if b.castle_perm & 2 != 0 { k2 ^ keys[770] } else { k2 };
    let k4 = if b.castle_perm & 1 != 0 { k3 ^ keys[771] } else { k3 };
    assert(!ep_pawn_spec(&b0));
    assert(b0.board@ == b.board@);
    crate::model::lemma_xor_swap(k4, e, keys[780]);
}

/// The limits of a `go` command budget by the clock of the side to move:
/// where no move time is given and that side's clock (`wtime` for white,
/// `btime` for black) is, the search is timed with that clock split over
/// the moves to go (30 where none are given) less 50 milliseconds, whatever
/// the other side's clock; where neither is given the search is not timed.
pub proof fn law_go_budget_own_clock(s: Seq<char>, white: bool)
    requires
        go_spec(s, white) is Some,
    ensures
        ({
            let w = kw_num(s, 3, seq!['w', 't', 'i', 'm', 'e']);
            let b = kw_num(s, w.1, seq!['b', 't', 'i', 'm', 'e']);
            let wi = kw_num(s, b.1, seq!['w', 'i', 'n', 'c']);
            let bi = kw_num(s, wi.1, seq!['b', 'i', 'n', 'c']);
            let mg = kw_num(s, bi.1, seq!['m', 'o', 'v', 'e', 's', 't', 'o', 'g', 'o']);
            let d = kw_num(s, mg.1, seq!['d', 'e', 'p', 't', 'h']);
            let mt = kw_num(s, d.1, seq!['m', 'o', 'v', 'e', 't', 'i', 'm', 'e']);
            let own = if white { w } else { b };
            let g = go_spec(s, white)->0;
            &&& !mt.0 && own.0 ==> g.0 && g.1 == (own.2->0 as int) / (if mg.0 { mg.2->0 as int } else { 30int }) - 50
            &&& !mt.0 && !own.0 ==> !g.0
            &&& mt.0 ==> g.0 && g.1 == (mt.2->0 as int) - 50
            &&& g.2 == (if d.0 { d.2->0 as int } else { usize::MAX - 1 })
        }),
{
}

/// A probe finds only the entry of the board's own position and hands out
/// its move; it reads the score back only where the entry was searched at
/// least as deep as asked; and it settles the search only as the stored
/// bound justifies: an exact entry always, with its score; a lower bound
/// only where it reaches `beta` (answer `beta`); an upper bound only where
/// it stays at or below `alpha` (answer `alpha`). Where it does not settle,
/// the score read back is the stored one.
pub proof fn law_probe_settles_by_bound(b: &BoardStructure, entry: TransTableEntry, alpha: i32, beta: i32, depth: usize)
    requires
        entry.flag != TransFlag::NoFlag,
    ensures
        ({
            let r = probe_spec(b, entry, alpha, beta, depth);
            let s = mate_out(entry.score, b.ply as int);
            &&& (r is Some) == (entry.pos_key == b.pos_key)
            &&& r matches Some((a, read)) ==> a == entry.action && (read is Some) == (entry.depth >= depth)
            &&& r matches Some((_, Some((settles, sc)))) ==> {
                &&& settles == (entry.flag == TransFlag::Exact || (entry.flag == TransFlag::Beta && s >= beta) || (
                entry.flag == TransFlag::Alpha && s <= alpha))
                &&& settles && entry.flag == TransFlag::Beta ==> sc == beta
                &&& settles && entry.flag == TransFlag::Alpha ==> sc == alpha
                &&& !settles || entry.flag == TransFlag::Exact ==> sc == s
            }
        }),
{
}

/// Promotion letters are the standard piece letters, for both colors: a
/// promotion to a rook is written and read `r`, to a bishop `b`, to a
/// knight `n`, to a queen `q`, and no other letter reads as it.
pub proof fn law_promotion_letters(p: usize, c: char)
    ensures
        p == Pieces::Wr as usize || p == Pieces::Br as usize ==> (promo_fits(p, c) <==> c == 'r') && promo_char_spec(p)
            == 'r',
        p == Pieces::Wb as usize || p == Pieces::Bb as usize ==> (promo_fits(p, c) <==> c == 'b') && promo_char_spec(p)
            == 'b',
        p == Pieces::Wn as usize || p == Pieces::Bn as usize ==> (promo_fits(p, c) <==> c == 'n') && promo_char_spec(p)
            == 'n',
        p == Pieces::Wq as usize || p == Pieces::Bq as usize ==> (promo_fits(p, c) <==> c == 'q') && promo_char_spec(p)
            == 'q',
{
}

/// Polyglot numbers the pieces black pawn 0, white pawn 1, black knight 2,
/// white knight 3, and so on by bishop, rook and queen to black king 10 and
/// white king 11; a piece's key on a square is at 64 times its number plus
/// 8 times the rank plus the file (a1 first, h8 last).
pub proof fn law_polyglot_piece_numbers(sq: int)
    requires
        on_board(sq),
    ensures
        poly_kind(Pieces::Bp as usize) == 0 && poly_kind(Pieces::Wp as usize) == 1,
        poly_kind(Pieces::Bn as usize) == 2 && poly_kind(Pieces::Wn as usize) == 3,
        poly_kind(Pieces::Bb as usize) == 4 && poly_kind(Pieces::Wb as usize) == 5,
        poly_kind(Pieces::Br as usize) == 6 && poly_kind(Pieces::Wr as usize) == 7,
        poly_kind(Pieces::Bq as usize) == 8 && poly_kind(Pieces::Wq as usize) == 9,
        poly_kind(Pieces::Bk as usize) == 10 && poly_kind(Pieces::Wk as usize) == 11,
        forall|p: usize| 1 <= p <= 12 ==> #[trigger] poly_index(p, sq) == 64 * poly_kind(p) + 8 * (sq / 10 - 2) + (sq % 10
            - 1),
        poly_index(Pieces::Wp as usize, 21) == 64,
        poly_index(Pieces::Wk as usize, 98) == 767,
{
}

} // verus!
