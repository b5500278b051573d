//! Placing, removing and moving pieces with incremental updates of every
//! derived part of the board, and making and taking back moves.

use vstd::prelude::*;
use crate::statics::{
    Pieces, Players, on_board, is_real, spec_color, spec_value, spec_is_big, spec_is_min, spec_is_maj,
    spec_big_to_small, spec_small_to_big, color_mask, values, big_mask, min_mask, big_to_small,
    lemma_big_small, lemma_small_big, spec_piece_from, spec_is_pawn, spec_is_king, is_pawn_mask, is_king_mask,
    piece_from_usize, castle_perm_mask, spec_castle_perm, EP_FLAG, X2_FLAG, CAST_FLAG, NO_SQ, A1, C1, D1, F1, G1, H1,
    A8, C8, D8, F8, G8, H8,
};
use crate::structs::{BoardStructure, ZobristKeys, Undo};
use crate::rules::{
    Position, pos_valid, move_ok, make_spec, unmake_spec, make_squares, unmake_squares, with_history,
    lemma_unmake_make, lemma_make_valid, lemma_make_squares_facts, lemma_make_counts, lemma_piece_from_index,
    lemma_piece_from_prom, lemma_valid_with_history, spec_from_sq, spec_to_sq, spec_taken, spec_promoted, is_ep_move, is_cast_move, is_x2,
    ep_victim, rook_from, rook_to, opp, side_idx, pawn_of, attacked, make_touches, pos_core, legal_wf,
};
use crate::legal_move_gen::{from_sq, to_sq, taken, promoted, is_attacked};
use crate::model::{
    sum_pieces, lemma_sum_update, lemma_sum_ge_one, lemma_sum_bounds, mat_f, big_f, min_f, maj_f, pkey,
    piece_hash, lemma_piece_hash_update, pawn_bit_of, lemma_pawns_after, lemma_counts_after,
    lemma_list_remove, lemma_list_add, lemma_counts_bounded, lemma_list_move, lemma_sum_move,
    lemma_pawn_bits_at, pawns_match, lemma_counts_after_update_sum, count_of, lemma_count_update, lemma_count_move, lemma_extra_same, lemma_extra_shift, lemma_hash_extra, lemma_count_bounded, lemma_pieces_wf_frame,
};
use crate::bitboards::{bit_set, clear_bit, set_bit};

verus! {

/// Xor the key of `piece` on `sq` into the position key.
pub fn hash_piece(piece: usize, sq: usize, board: &mut BoardStructure)
    requires
        piece < 13,
        sq < 120,
    ensures
        final(board).pos_key == old(board).pos_key ^ old(board).keys.piece_keys[sq as int][piece as int],
        final(board).eq_pieces(old(board)),
        final(board).eq_state(old(board)),
        final(board).eq_search(old(board)),
{
    board.pos_key = board.pos_key ^ board.keys.piece_keys[sq][piece];
}

/// Xor the key of the castling permissions into the position key.
pub fn hash_cast(board: &mut BoardStructure)
    requires
        old(board).castle_perm < 16,
    ensures
        final(board).pos_key == old(board).pos_key ^ old(board).keys.castling_keys[old(board).castle_perm as int],
        final(board).key_extra() == old(board).key_extra() ^ old(board).keys.castling_keys[old(board).castle_perm as int],
        final(board).eq_pieces(old(board)),
        final(board).eq_state(old(board)),
        final(board).eq_search(old(board)),
{
    proof {
        lemma_extra_shift(board.pos_key, piece_hash(board.board@, board.keys, 120), board.keys.castling_keys[board.castle_perm as int]);
    }
    board.pos_key = board.pos_key ^ board.keys.castling_keys[board.castle_perm as usize];
}

/// Xor the side key into the position key.
pub fn hash_side(board: &mut BoardStructure)
    ensures
        final(board).pos_key == old(board).pos_key ^ old(board).keys.side_key,
        final(board).key_extra() == old(board).key_extra() ^ old(board).keys.side_key,
        final(board).eq_pieces(old(board)),
        final(board).eq_state(old(board)),
        final(board).eq_search(old(board)),
{
    proof {
        lemma_extra_shift(board.pos_key, piece_hash(board.board@, board.keys, 120), board.keys.side_key);
    }
    board.pos_key = board.pos_key ^ board.keys.side_key;
}

/// Xor the key of the en passant square into the position key.
pub fn hash_ep(board: &mut BoardStructure)
    requires
        old(board).en_pas < 120,
    ensures
        final(board).pos_key == old(board).pos_key ^ old(board).keys.piece_keys[old(board).en_pas as int][0],
        final(board).key_extra() == old(board).key_extra() ^ old(board).keys.piece_keys[old(board).en_pas as int][0],
        final(board).eq_pieces(old(board)),
        final(board).eq_state(old(board)),
        final(board).eq_search(old(board)),
{
    proof {
        lemma_extra_shift(board.pos_key, piece_hash(board.board@, board.keys, 120), board.keys.piece_keys[board.en_pas as int][0]);
    }
    board.pos_key = board.pos_key ^ board.keys.piece_keys[board.en_pas][0];
}

/// The piece list of `p` in `f` is that of `o` with `sq` appended after its
/// first `n` entries; the other lists are unchanged.
#[verifier::opaque]
pub open spec fn slot_added(o: [[usize; 10]; 13], f: [[usize; 10]; 13], p: int, n: int, sq: usize) -> bool {
    &&& f@ == o@.update(p, f[p])
    &&& f[p]@ == o[p]@.update(n, sq)
}

/// The entry `sq` among the first `n` of the piece list of `p` in `o` is
/// replaced in `f` by the list's last entry; the other lists are unchanged.
#[verifier::opaque]
pub open spec fn slot_removed(o: [[usize; 10]; 13], f: [[usize; 10]; 13], p: int, n: int, sq: usize) -> bool {
    &&& f@ == o@.update(p, f[p])
    &&& exists|i: int| 0 <= i < n && #[trigger] o[p][i] == sq && f[p]@ == o[p]@.update(i, o[p][n - 1])
}

/// The entry `from` among the first `n` of the piece list of `p` in `o`
/// becomes `to` in `f`, in the same slot; the other lists are unchanged.
#[verifier::opaque]
pub open spec fn slot_moved(o: [[usize; 10]; 13], f: [[usize; 10]; 13], p: int, n: int, from: usize, to: usize) -> bool {
    &&& f@ == o@.update(p, f[p])
    &&& exists|i: int| 0 <= i < n && #[trigger] o[p][i] == from && f[p]@ == o[p]@.update(i, to)
}

/// Remove the piece on `sq` from the board.

pub fn clear_piece(sq: usize, board: &mut BoardStructure)
    requires
        old(board).pieces_wf(),
        sq < 120,
        is_real(old(board).board[sq as int] as usize),
    ensures
        final(board).pieces_wf(),
        final(board).board@ == old(board).board@.update(sq as int, Pieces::Empty),
        final(board).pos_key == old(board).pos_key ^ pkey(old(board).keys, sq as int, old(board).board[sq as int] as usize),
        final(board).key_extra() == old(board).key_extra(),
        final(board).num_pieces@ == old(board).num_pieces@.update(old(board).board[sq as int] as int,
            (old(board).num_pieces[old(board).board[sq as int] as int] - 1) as usize),
        final(board).eq_state(old(board)),
        final(board).eq_search(old(board)),
        slot_removed(old(board).piece_list, final(board).piece_list, old(board).board[sq as int] as int, old(
            board).num_pieces[old(board).board[sq as int] as int] as int, sq),
{
    reveal(BoardStructure::derived_wf);
    let ghost ob = *board;
    let piece: Pieces = board.board[sq];
    let piece_u: usize = piece as usize;
    let color: Players = color_mask(piece_u);
    let color_u: usize = color as usize;
    proof {
        assert(ob.list_wf(piece_u as int));
        assert(ob.listed(piece_u as int, sq as int));
        assert(on_board(sq as int));
        lemma_big_small(sq as int);
        lemma_counts_bounded(ob.board@);
        lemma_sum_ge_one(ob.board@, 120, sq as int, mat_f(color));
        lemma_sum_ge_one(ob.board@, 120, sq as int, big_f(color));
        lemma_sum_ge_one(ob.board@, 120, sq as int, min_f(color));
        lemma_sum_ge_one(ob.board@, 120, sq as int, maj_f(color));
    }

    hash_piece(piece_u, sq, board);

    board.board[sq] = Pieces::Empty;
    board.mat_strength[color_u] = board.mat_strength[color_u] - values(piece_u);

    let small: usize = big_to_small(sq);
    if big_mask(piece_u) {
        board.big_pieces[color_u] = board.big_pieces[color_u] - 1;
        if min_mask(piece_u) {
            board.min_pieces[color_u] = board.min_pieces[color_u] - 1;
        } else {
            board.maj_pieces[color_u] = board.maj_pieces[color_u] - 1;
        }
    } else {
        let mut bb: u64 = board.pawns[color_u];
        clear_bit(&mut bb, small);
        board.pawns[color_u] = bb;
        let mut bb2: u64 = board.pawns[2];
        clear_bit(&mut bb2, small);
        board.pawns[2] = bb2;
    }
    proof {
        assert forall|k: int, i: u64| 0 <= k < 3 && i < 64 implies #[trigger] bit_set(board.pawns[k], i) == if i
            == spec_big_to_small(sq as int) {
            pawn_bit_of(k, Pieces::Empty)
        } else {
            bit_set(ob.pawns[k], i)
        } by {
            if i == spec_big_to_small(sq as int) {
                assert(spec_small_to_big(i as int) == sq);
                assert(bit_set(ob.pawns[0], i) <==> ob.board[spec_small_to_big(i as int) as int] == Pieces::Wp);
            }
        }
        lemma_pawns_after(ob.board@, ob.pawns, board.pawns, sq as int, Pieces::Empty);
        lemma_counts_after(ob, *board, sq as int, Pieces::Empty);
    }

    let n: usize = board.num_pieces[piece_u];
    let mut clear_index: usize = 0;
    let mut piece_num: usize = 0;
    while piece_num < n
        invariant_except_break
            forall|j: int| 0 <= j < piece_num ==> board.piece_list[piece_u as int][j] != sq,
        invariant
            n == board.num_pieces[piece_u as int],
            n <= 10,
            board.piece_list == ob.piece_list,
            board.num_pieces == ob.num_pieces,
            piece_u < 13,
            ob.listed(piece_u as int, sq as int),
            piece_num <= n,
        ensures
            clear_index < n,
            board.piece_list[piece_u as int][clear_index as int] == sq,
        decreases n - piece_num,
    {
        if board.piece_list[piece_u][piece_num] == sq {
            clear_index = piece_num;
            break;
        }
        piece_num = piece_num + 1;
    }
    let ghost mid = *board;

    board.num_pieces[piece_u] = board.num_pieces[piece_u] - 1;
    let last: usize = board.piece_list[piece_u][board.num_pieces[piece_u]];
    board.piece_list[piece_u][clear_index] = last;

    proof {
        lemma_piece_hash_update(ob.board@, ob.keys, 120, sq as int, Pieces::Empty);
        lemma_extra_same(ob.pos_key, piece_hash(ob.board@, ob.keys, 120), pkey(ob.keys, sq as int, piece_u));
        lemma_count_update(ob.board@, sq as int, Pieces::Empty);
        assert forall|p: int| 1 <= p <= 12 implies #[trigger] board.num_pieces[p] == count_of(board.board@, p as usize) by {
            assert(ob.num_pieces[p] == count_of(ob.board@, p as usize));
        }
        lemma_list_remove(ob, *board, sq as int, piece_u as int, clear_index as int);
        lemma_pawns_after(ob.board@, ob.pawns, board.pawns, sq as int, Pieces::Empty);
        lemma_counts_after(ob, *board, sq as int, Pieces::Empty);
        assert(board.num_pieces@ == ob.num_pieces@.update(piece_u as int, (ob.num_pieces[piece_u as int] - 1) as usize));
        assert(ob.piece_list[piece_u as int][clear_index as int] == sq);
        assert(board.piece_list[piece_u as int]@ =~= ob.piece_list[piece_u as int]@.update(clear_index as int,
            ob.piece_list[piece_u as int][n - 1]));
        assert(board.piece_list@ =~= ob.piece_list@.update(piece_u as int, board.piece_list[piece_u as int]));
        reveal(slot_removed);
        assert(ob.piece_list[piece_u as int][clear_index as int] == sq);
        assert(slot_removed(ob.piece_list, board.piece_list, piece_u as int, n as int, sq));
    }
}

/// Put `piece` on the empty square `sq`.
pub fn add_piece(piece: Pieces, sq: usize, board: &mut BoardStructure)
    requires
        old(board).pieces_wf(),
        on_board(sq as int),
        old(board).board[sq as int] == Pieces::Empty,
        is_real(piece as usize),
        old(board).num_pieces[piece as int] < 10,
    ensures
        final(board).pieces_wf(),
        final(board).board@ == old(board).board@.update(sq as int, piece),
        final(board).pos_key == old(board).pos_key ^ pkey(old(board).keys, sq as int, piece as usize),
        final(board).key_extra() == old(board).key_extra(),
        final(board).num_pieces@ == old(board).num_pieces@.update(piece as int,
            (old(board).num_pieces[piece as int] + 1) as usize),
        final(board).eq_state(old(board)),
        final(board).eq_search(old(board)),
        slot_added(old(board).piece_list, final(board).piece_list, piece as int, old(board).num_pieces[piece as int] as int,
            sq),
{
    reveal(BoardStructure::derived_wf);
    let ghost ob = *board;
    let piece_u: usize = piece as usize;
    let color: Players = color_mask(piece_u);
    let color_u: usize = color as usize;
    proof {
        lemma_big_small(sq as int);
        lemma_counts_bounded(ob.board@.update(sq as int, piece));
        lemma_counts_after_update_sum(ob.board@, sq as int, piece);
        lemma_pawn_bits_at(ob.board@, ob.pawns, sq as int);
    }

    hash_piece(piece_u, sq, board);

    board.board[sq] = piece;
    board.mat_strength[color_u] = board.mat_strength[color_u] + values(piece_u);

    let small: usize = big_to_small(sq);
    if big_mask(piece_u) {
        board.big_pieces[color_u] = board.big_pieces[color_u] + 1;
        if min_mask(piece_u) {
            board.min_pieces[color_u] = board.min_pieces[color_u] + 1;
        } else {
            board.maj_pieces[color_u] = board.maj_pieces[color_u] + 1;
        }
    } else {
        let mut bb: u64 = board.pawns[color_u];
        set_bit(&mut bb, small);
        board.pawns[color_u] = bb;
        let mut bb2: u64 = board.pawns[2];
        set_bit(&mut bb2, small);
        board.pawns[2] = bb2;
    }

    let n: usize = board.num_pieces[piece_u];
    board.piece_list[piece_u][n] = sq;
    board.num_pieces[piece_u] = n + 1;

    proof {
        assert(ob.list_wf(piece_u as int));
        assert forall|k: int, i: u64| 0 <= k < 3 && i < 64 implies #[trigger] bit_set(board.pawns[k], i) == if i
            == spec_big_to_small(sq as int) {
            pawn_bit_of(k, piece)
        } else {
            bit_set(ob.pawns[k], i)
        } by {
            if i == spec_big_to_small(sq as int) {
                assert(bit_set(ob.pawns[k], spec_big_to_small(sq as int) as u64) == pawn_bit_of(k, Pieces::Empty));
            }
        }
        lemma_pawns_after(ob.board@, ob.pawns, board.pawns, sq as int, piece);
        lemma_counts_after(ob, *board, sq as int, piece);
        lemma_list_add(ob, *board, sq as int, piece_u as int);
        reveal(slot_added);
        assert(board.piece_list[piece_u as int]@ =~= ob.piece_list[piece_u as int]@.update(n as int, sq));
        assert(board.piece_list@ =~= ob.piece_list@.update(piece_u as int, board.piece_list[piece_u as int]));
        lemma_count_update(ob.board@, sq as int, piece);
        lemma_piece_hash_update(ob.board@, ob.keys, 120, sq as int, piece);
        lemma_extra_same(ob.pos_key, piece_hash(ob.board@, ob.keys, 120), pkey(ob.keys, sq as int, piece_u));
        assert forall|p: int| 1 <= p <= 12 implies #[trigger] board.num_pieces[p] == count_of(board.board@, p as usize) by {
            assert(ob.num_pieces[p] == count_of(ob.board@, p as usize));
        }
        assert(board.num_pieces@ == ob.num_pieces@.update(piece_u as int, (ob.num_pieces[piece_u as int] + 1) as usize));
    }
}

/// Move the piece on `from` to the empty square `to`.
pub fn move_piece(from: usize, to: usize, board: &mut BoardStructure)
    requires
        old(board).pieces_wf(),
        on_board(from as int),
        on_board(to as int),
        from != to,
        is_real(old(board).board[from as int] as usize),
        old(board).board[to as int] == Pieces::Empty,
    ensures
        final(board).pieces_wf(),
        final(board).board@ == old(board).board@.update(from as int, Pieces::Empty).update(to as int,
            old(board).board[from as int]),
        final(board).pos_key == old(board).pos_key ^ pkey(old(board).keys, from as int, old(board).board[from as int] as usize)
            ^ pkey(old(board).keys, to as int, old(board).board[from as int] as usize),
        final(board).key_extra() == old(board).key_extra(),
        final(board).num_pieces == old(board).num_pieces,
        final(board).eq_state(old(board)),
        final(board).eq_search(old(board)),
        slot_moved(old(board).piece_list, final(board).piece_list, old(board).board[from as int] as int, old(
            board).num_pieces[old(board).board[from as int] as int] as int, from, to),
{
    reveal(BoardStructure::derived_wf);
    let ghost ob = *board;
    let piece: Pieces = board.board[from];
    let piece_u: usize = piece as usize;
    let color: Players = color_mask(piece_u);
    let color_u: usize = color as usize;
    proof {
        lemma_big_small(from as int);
        lemma_big_small(to as int);
        lemma_pawn_bits_at(ob.board@, ob.pawns, from as int);
        assert(ob.list_wf(piece_u as int));
        assert(ob.listed(piece_u as int, from as int));
    }

    hash_piece(piece_u, from, board);
    board.board[from] = Pieces::Empty;
    hash_piece(piece_u, to, board);
    board.board[to] = piece;

    let ghost mid_pawns = board.pawns;
    if !big_mask(piece_u) {
        let sf: usize = big_to_small(from);
        let st: usize = big_to_small(to);
        let mut bb: u64 = board.pawns[color_u];
        clear_bit(&mut bb, sf);
        board.pawns[color_u] = bb;
        let mut bb2: u64 = board.pawns[2];
        clear_bit(&mut bb2, sf);
        board.pawns[2] = bb2;
        proof {
            lemma_pawns_after(ob.board@, ob.pawns, board.pawns, from as int, Pieces::Empty);
        }
        let ghost mid2 = board.pawns;
        proof {
            lemma_pawn_bits_at(ob.board@.update(from as int, Pieces::Empty), mid2, to as int);
        }
        let mut bb3: u64 = board.pawns[color_u];
        set_bit(&mut bb3, st);
        board.pawns[color_u] = bb3;
        let mut bb4: u64 = board.pawns[2];
        set_bit(&mut bb4, st);
        board.pawns[2] = bb4;
        proof {
            lemma_pawns_after(ob.board@.update(from as int, Pieces::Empty), mid2, board.pawns, to as int, piece);
        }
    } else {
        proof {
            assert(piece != Pieces::Wp && piece != Pieces::Bp);
            assert forall|k: int| 0 <= k < 3 implies !#[trigger] pawn_bit_of(k, piece) by {}
            assert forall|k: int| 0 <= k < 3 implies !#[trigger] pawn_bit_of(k, Pieces::Empty) by {}
            lemma_pawn_bits_at(ob.board@, ob.pawns, from as int);
            assert forall|k: int, i: u64| 0 <= k < 3 && i < 64 implies #[trigger] bit_set(ob.pawns[k], i) == if i
                == spec_big_to_small(from as int) {
                pawn_bit_of(k, Pieces::Empty)
            } else {
                bit_set(ob.pawns[k], i)
            } by {
                if i == spec_big_to_small(from as int) {
                    assert(bit_set(ob.pawns[k], spec_big_to_small(from as int) as u64) == pawn_bit_of(k, piece));
                }
            }
            lemma_pawns_after(ob.board@, ob.pawns, ob.pawns, from as int, Pieces::Empty);
            lemma_pawn_bits_at(ob.board@.update(from as int, Pieces::Empty), ob.pawns, to as int);
            assert forall|k: int, i: u64| 0 <= k < 3 && i < 64 implies #[trigger] bit_set(ob.pawns[k], i) == if i
                == spec_big_to_small(to as int) {
                pawn_bit_of(k, piece)
            } else {
                bit_set(ob.pawns[k], i)
            } by {
                if i == spec_big_to_small(to as int) {
                    assert(bit_set(ob.pawns[k], spec_big_to_small(to as int) as u64) == pawn_bit_of(k, Pieces::Empty));
                }
            }
            lemma_pawns_after(ob.board@.update(from as int, Pieces::Empty), ob.pawns, ob.pawns, to as int, piece);
        }
    }

    let n: usize = board.num_pieces[piece_u];
    let mut piece_num: usize = 0;
    while piece_num < n
        invariant_except_break
            forall|j: int| 0 <= j < piece_num ==> board.piece_list[piece_u as int][j] != from,
            board.piece_list == ob.piece_list,
        invariant
            n == board.num_pieces[piece_u as int],
            n <= 10,
            board.num_pieces == ob.num_pieces,
            board.board@ == ob.board@.update(from as int, Pieces::Empty).update(to as int, piece),
            pawns_match(board.board@, board.pawns),
            board.pos_key == ob.pos_key ^ pkey(ob.keys, from as int, piece_u) ^ pkey(ob.keys, to as int, piece_u),
            board.eq_state(&ob),
            board.eq_search(&ob),
            board.mat_strength == ob.mat_strength,
            board.big_pieces == ob.big_pieces,
            board.min_pieces == ob.min_pieces,
            board.maj_pieces == ob.maj_pieces,
            piece_u < 13,
            piece == ob.board[from as int],
            piece_u == piece as usize,
            ob.listed(piece_u as int, from as int),
            piece_num <= n,
        ensures
            piece_num < n,
            ob.piece_list[piece_u as int][piece_num as int] == from,
            forall|q: int| 0 <= q < 13 && q != piece_u ==> #[trigger] board.piece_list[q] == ob.piece_list[q],
            forall|i: int| 0 <= i < 10 && i != piece_num ==> #[trigger] board.piece_list[piece_u as int][i]
                == ob.piece_list[piece_u as int][i],
            board.piece_list[piece_u as int][piece_num as int] == to,
        decreases n - piece_num,
    {
        if board.piece_list[piece_u][piece_num] == from {
            board.piece_list[piece_u][piece_num] = to;
            break;
        }
        piece_num = piece_num + 1;
    }

    proof {
        lemma_list_move(ob, *board, from as int, to as int, piece_u as int, piece_num as int);
        assert(ob.piece_list[piece_u as int][piece_num as int] == from);
        assert(board.piece_list[piece_u as int]@ =~= ob.piece_list[piece_u as int]@.update(piece_num as int, to));
        assert(board.piece_list@ =~= ob.piece_list@.update(piece_u as int, board.piece_list[piece_u as int]));
        reveal(slot_moved);
        assert(slot_moved(ob.piece_list, board.piece_list, piece_u as int, n as int, from, to));
        lemma_count_move(ob.board@, from as int, to as int);
        let s1 = ob.board@.update(from as int, Pieces::Empty);
        lemma_piece_hash_update(ob.board@, ob.keys, 120, from as int, Pieces::Empty);
        lemma_piece_hash_update(s1, ob.keys, 120, to as int, piece);
        let ph0 = piece_hash(ob.board@, ob.keys, 120);
        let pf = pkey(ob.keys, from as int, piece_u);
        let pt = pkey(ob.keys, to as int, piece_u);
        lemma_extra_same(ob.pos_key, ph0, pf);
        lemma_extra_same(ob.pos_key ^ pf, ph0 ^ (pf ^ 0), pt);
        assert forall|p: int| 1 <= p <= 12 implies #[trigger] board.num_pieces[p] == count_of(board.board@, p as usize) by {
            assert(ob.num_pieces[p] == count_of(ob.board@, p as usize));
        }
        lemma_sum_move(ob.board@, from as int, to as int, mat_f(Players::White));
        lemma_sum_move(ob.board@, from as int, to as int, mat_f(Players::Black));
        lemma_sum_move(ob.board@, from as int, to as int, big_f(Players::White));
        lemma_sum_move(ob.board@, from as int, to as int, big_f(Players::Black));
        lemma_sum_move(ob.board@, from as int, to as int, min_f(Players::White));
        lemma_sum_move(ob.board@, from as int, to as int, min_f(Players::Black));
        lemma_sum_move(ob.board@, from as int, to as int, maj_f(Players::White));
        lemma_sum_move(ob.board@, from as int, to as int, maj_f(Players::Black));
    }
}

/// Key bits that the side, en passant square and castling permissions
/// contribute to the position hash.
pub open spec fn state_keys(side: Players, ep: usize, castle: u8, k: ZobristKeys) -> u64 {
    ((if side == Players::White { k.side_key } else { 0 }) ^ (if ep != 0 { k.piece_keys[ep as int][0] } else { 0 }))
        ^ k.castling_keys[castle as int]
}

pub proof fn lemma_xor_facts(s0: u64, e0: u64, c0: u64, e1: u64, c1: u64, sk: u64)
    ensures
        (((((((s0 ^ e0) ^ c0) ^ e0) ^ c0) ^ e1) ^ c1) ^ sk) == ((s0 ^ sk) ^ e1) ^ c1,
        ((((((s0 ^ e0) ^ c0) ^ e0) ^ c0) ^ c1) ^ e1) ^ sk == ((s0 ^ sk) ^ e1) ^ c1,
        forall|x: u64| #[trigger] (x ^ 0u64) == x,
        0u64 ^ sk == sk,
        sk ^ sk == 0u64,
{
    assert((((((((s0 ^ e0) ^ c0) ^ e0) ^ c0) ^ e1) ^ c1) ^ sk) == ((s0 ^ sk) ^ e1) ^ c1) by (bit_vector);
    assert(((((((s0 ^ e0) ^ c0) ^ e0) ^ c0) ^ c1) ^ e1) ^ sk == ((s0 ^ sk) ^ e1) ^ c1) by (bit_vector);
    assert forall|x: u64| #[trigger] (x ^ 0u64) == x by {
        assert(x ^ 0u64 == x) by (bit_vector);
    }
    assert(0u64 ^ sk == sk) by (bit_vector);
    assert(sk ^ sk == 0u64) by (bit_vector);
}

/// Take back the last move of the history.
#[verifier::rlimit(100)]
pub fn unmake_move(board: &mut BoardStructure)
    requires
        old(board).pieces_wf(),
        old(board).undo_ok(),
    ensures
        final(board).valid(),
        final(board).position() == unmake_spec(old(board).position(), old(board).keys),
        final(board).eq_search(old(board)),
{
    let ghost ob = *board;
    let ghost k = ob.keys;
    let ghost (p0, a0) = choose|p0: Position, a: usize| #[trigger] make_spec(p0, a, k) == ob.position() && pos_valid(p0, k)
        && move_ok(p0, a);
    let ghost q = make_spec(p0, a0, k);
    let ghost side = p0.side;
    let ghost f0 = spec_from_sq(a0) as int;
    let ghost t0 = spec_to_sq(a0) as int;
    proof {
        lemma_unmake_make(p0, a0, k);
        lemma_make_valid(p0, a0, k);
        lemma_make_squares_facts(p0, a0);
        lemma_make_counts(p0, a0);
        lemma_hash_extra(ob.pos_key, piece_hash(ob.board@, k, 120),
            if ob.side == Players::White { k.side_key } else { 0 },
            if ob.en_pas != 0 { k.piece_keys[ob.en_pas as int][0] } else { 0 },
            k.castling_keys[ob.castle_perm as int]);
        assert(ob.history[ob.ply_depth - 1].action == a0);
        lemma_count_bounded(p0.squares);
        assert forall|x: usize| 1 <= x <= 12 && x != 6 && x != 12 implies #[trigger] count_of(p0.squares, x) <= 10 by {
            assert(count_of(p0.squares, 2) + count_of(p0.squares, 1) <= 10);
            assert(count_of(p0.squares, 8) + count_of(p0.squares, 7) <= 10);
            assert(count_of(p0.squares, x) + count_of(p0.squares, 1) <= 10 || count_of(p0.squares, x) + count_of(p0.squares, 7) <= 10
                || x == 1 || x == 7);
        }
    }

    board.ply_depth = board.ply_depth - 1;
    board.ply = board.ply - 1;

    let pd: usize = board.ply_depth;
    let action: usize = board.history[pd].action;
    let from: usize = from_sq(action);
    let to: usize = to_sq(action);

    let ghost sk = k.side_key;
    let ghost e_old = if ob.en_pas != 0 { k.piece_keys[ob.en_pas as int][0] } else { 0u64 };
    let ghost c_old = k.castling_keys[ob.castle_perm as int];
    let ghost e_new = if p0.en_pas != 0 { k.piece_keys[p0.en_pas as int][0] } else { 0u64 };
    let ghost c_new = k.castling_keys[p0.castle_perm as int];
    let ghost s_old = if ob.side == Players::White { sk } else { 0u64 };
    proof {
        lemma_xor_facts(s_old, e_old, c_old, e_new, c_new, sk);
        assert(ob.key_extra() == (s_old ^ e_old) ^ c_old);
    }
    if board.en_pas != NO_SQ {
        hash_ep(board);
    }
    assert(board.key_extra() == ((s_old ^ e_old) ^ c_old) ^ e_old);
    hash_cast(board);

    board.castle_perm = board.history[pd].castle_perm;
    board.fifty_cnt = board.history[pd].fifty_cnt;
    board.en_pas = board.history[pd].en_pas;

    if board.en_pas != NO_SQ {
        hash_ep(board);
    }
    assert(board.key_extra() == ((((s_old ^ e_old) ^ c_old) ^ e_old) ^ c_old) ^ e_new);
    hash_cast(board);

    board.side = if board.side == Players::White { Players::Black } else { Players::White };
    hash_side(board);

    proof {
        assert(board.key_extra() == state_keys(side, p0.en_pas, p0.castle_perm, k));
        assert(board.side == side);
        lemma_pieces_wf_frame(ob, *board);
    }
    let ghost mid = *board;

    if action & EP_FLAG != 0 {
        if board.side == Players::White {
            add_piece(Pieces::Bp, to - 10, board);
        } else {
            add_piece(Pieces::Wp, to + 10, board);
        }
    } else if action & CAST_FLAG != 0 {
        if to == C1 {
            move_piece(D1, A1, board);
        } else if to == C8 {
            move_piece(D8, A8, board);
        } else if to == G1 {
            move_piece(F1, H1, board);
        } else {
            move_piece(F8, H8, board);
        }
    }
    let ghost s1 = board.board@;
    proof {
        assert(s1[t0] == q.squares[t0]);
        assert(s1[f0] == Pieces::Empty);
    }

    move_piece(to, from, board);
    let ghost s2 = board.board@;
    let ghost b2 = *board;

    if is_king_mask(board.board[from] as usize) {
        board.king_sqs[board.side as usize] = from;
    }
    proof {
        lemma_pieces_wf_frame(b2, *board);
    }

    let captured: usize = taken(action);
    if captured != 0 {
        proof {
            lemma_count_move(s1, t0, f0);
            lemma_piece_from_index(p0.squares[t0]);
            assert(board.board[to as int] == Pieces::Empty);
            assert(count_of(s2, captured) == count_of(q.squares, captured));
            assert(board.num_pieces[captured as int] < 10);
        }
        add_piece(piece_from_usize(captured), to, board);
    }
    let ghost s3 = board.board@;

    let prom: usize = promoted(action);
    if prom != 0 {
        proof {
            lemma_count_move(s1, t0, f0);
            if captured != 0 {
                lemma_count_update(s2, t0, spec_piece_from(captured));
            }
        }
        clear_piece(from, board);
        proof {
            lemma_count_update(s3, f0, Pieces::Empty);
        }
        if color_mask(prom) == Players::White {
            add_piece(Pieces::Wp, from, board);
        } else {
            add_piece(Pieces::Bp, from, board);
        }
    }

    proof {
        assert(board.board@ =~= unmake_squares(q.squares, a0, side));
        lemma_hash_extra(board.pos_key, piece_hash(board.board@, k, 120),
            if side == Players::White { k.side_key } else { 0 },
            if p0.en_pas != 0 { k.piece_keys[p0.en_pas as int][0] } else { 0 },
            k.castling_keys[p0.castle_perm as int]);
        assert(board.king_sqs@ =~= unmake_spec(ob.position(), k).king_sqs);
        assert(board.position() == unmake_spec(ob.position(), k));
        lemma_valid_with_history(p0, q.history, k);
    }
}

pub proof fn lemma_make_xor(s0: u64, e0: u64, c0: u64, c1: u64, e1: u64, sk: u64)
    ensures
        (((((((s0 ^ e0) ^ c0) ^ e0) ^ c0) ^ c1) ^ e1) ^ sk) == ((s0 ^ sk) ^ e1) ^ c1,
{
    assert((((((((s0 ^ e0) ^ c0) ^ e0) ^ c0) ^ c1) ^ e1) ^ sk) == ((s0 ^ sk) ^ e1) ^ c1) by (bit_vector);
}

/// Make the move `action`.  If it leaves the mover's king attacked it is
/// taken back again and `false` is returned.
#[verifier::rlimit(100)]
pub fn make_move(action: usize, board: &mut BoardStructure) -> (r: bool)
    requires
        old(board).valid(),
        move_ok(old(board).position(), action),
    ensures
        final(board).valid(),
        r == !attacked(make_spec(old(board).position(), action, old(board).keys).squares,
            make_spec(old(board).position(), action, old(board).keys).king_sqs[side_idx(old(board).side)] as int,
            opp(old(board).side)),
        r ==> final(board).position() == make_spec(old(board).position(), action, old(board).keys),
        !r ==> final(board).position() == with_history(old(board).position(),
            make_spec(old(board).position(), action, old(board).keys).history),
        final(board).eq_search(old(board)),
{
    let ghost ob = *board;
    let ghost k = ob.keys;
    let ghost p0 = ob.position();
    let ghost q = make_spec(p0, action, k);
    let ghost f0 = spec_from_sq(action) as int;
    let ghost t0 = spec_to_sq(action) as int;
    proof {
        lemma_make_valid(p0, action, k);
        lemma_make_squares_facts(p0, action);
        lemma_make_counts(p0, action);
        lemma_hash_extra(ob.pos_key, piece_hash(ob.board@, k, 120),
            if ob.side == Players::White { k.side_key } else { 0 },
            if ob.en_pas != 0 { k.piece_keys[ob.en_pas as int][0] } else { 0 },
            k.castling_keys[ob.castle_perm as int]);
    }

    let side: Players = board.side;
    let from: usize = from_sq(action);
    let to: usize = to_sq(action);

    let pd: usize = board.ply_depth;
    board.history[pd] = Undo {
        action: action,
        castle_perm: board.castle_perm,
        en_pas: board.en_pas,
        fifty_cnt: board.fifty_cnt,
        pos_key: board.pos_key,
    };
    proof {
        lemma_pieces_wf_frame(ob, *board);
    }

    if action & EP_FLAG != 0 {
        if side == Players::White {
            clear_piece(to - 10, board);
        } else {
            clear_piece(to + 10, board);
        }
    } else if action & CAST_FLAG != 0 {
        if to == C1 {
            move_piece(A1, D1, board);
        } else if to == C8 {
            move_piece(A8, D8, board);
        } else if to == G1 {
            move_piece(H1, F1, board);
        } else {
            move_piece(H8, F8, board);
        }
    }
    let ghost s1 = board.board@;
    let ghost b0 = *board;
    proof {
        assert(s1 =~= crate::rules::make_squares1(p0.squares, action, side));
    }

    let ghost sk = k.side_key;
    let ghost e_old = if ob.en_pas != 0 { k.piece_keys[ob.en_pas as int][0] } else { 0u64 };
    let ghost c_old = k.castling_keys[ob.castle_perm as int];
    let ghost e_new = if q.en_pas != 0 { k.piece_keys[q.en_pas as int][0] } else { 0u64 };
    let ghost c_new = k.castling_keys[q.castle_perm as int];
    let ghost s_old = if ob.side == Players::White { sk } else { 0u64 };
    proof {
        lemma_xor_facts(s_old, e_old, c_old, e_new, c_new, sk);
        lemma_make_xor(s_old, e_old, c_old, c_new, e_new, sk);
        assert(board.key_extra() == (s_old ^ e_old) ^ c_old);
    }

    if board.en_pas != NO_SQ {
        hash_ep(board);
    }
    assert(board.key_extra() == ((s_old ^ e_old) ^ c_old) ^ e_old);
    hash_cast(board);

    board.castle_perm = board.castle_perm & castle_perm_mask(from);
    board.castle_perm = board.castle_perm & castle_perm_mask(to);
    board.en_pas = NO_SQ;
    proof {
        crate::rules::lemma_castle_and(ob.castle_perm, spec_castle_perm(from), spec_castle_perm(to));
    }

    hash_cast(board);
    assert(board.key_extra() == ((((s_old ^ e_old) ^ c_old) ^ e_old) ^ c_old) ^ c_new);
    proof {
        lemma_pieces_wf_frame(b0, *board);
    }

    let captured: usize = taken(action);
    let ghost mut bc = *board;
    board.fifty_cnt = board.fifty_cnt + 1;
    proof {
        lemma_pieces_wf_frame(bc, *board);
    }
    if captured != 0 {
        clear_piece(to, board);
        proof {
            bc = *board;
        }
        board.fifty_cnt = 0;
    }

    board.ply_depth = board.ply_depth + 1;
    board.ply = board.ply + 1;
    let ghost b2 = *board;
    proof {
        lemma_pieces_wf_frame(bc, b2);
        assert(board.board[from as int] == ob.board[from as int]);
    }

    if is_pawn_mask(board.board[from] as usize) {
        board.fifty_cnt = 0;
        if action & X2_FLAG != 0 {
            if side == Players::White {
                board.en_pas = from + 10;
            } else {
                board.en_pas = from - 10;
            }
            hash_ep(board);
        }
    }
    assert(board.key_extra() == (((((s_old ^ e_old) ^ c_old) ^ e_old) ^ c_old) ^ c_new) ^ e_new);
    let ghost b3 = *board;
    proof {
        lemma_pieces_wf_frame(b2, b3);
    }

    move_piece(from, to, board);

    let promoted_to: usize = promoted(action);
    if promoted_to != 0 {
        proof {
            lemma_piece_from_prom(promoted_to);
        }
        clear_piece(to, board);
        proof {
            let pw = pawn_of(side) as usize;
            assert(p0.squares[f0] as usize == pw);
            crate::model::lemma_sum_ge_one(p0.squares, 120, f0, crate::model::ind(pw));
            assert(count_of(p0.squares, pw) >= 1);
            assert(count_of(p0.squares, promoted_to) + count_of(p0.squares, pw) <= 10);
            assert(q.squares =~= board.board@.update(to as int, spec_piece_from(promoted_to)));
            lemma_count_update(board.board@, to as int, spec_piece_from(promoted_to));
            assert(board.num_pieces[promoted_to as int] < 10);
        }
        add_piece(piece_from_usize(promoted_to), to, board);
    }
    let ghost b4 = *board;

    if is_king_mask(board.board[to] as usize) {
        board.king_sqs[side as usize] = to;
    }

    board.side = if side == Players::White { Players::Black } else { Players::White };
    hash_side(board);
    proof {
        lemma_pieces_wf_frame(b4, *board);
        assert(board.board@ =~= q.squares);
        assert(board.key_extra() == ((s_old ^ sk) ^ e_new) ^ c_new);
        lemma_hash_extra(board.pos_key, piece_hash(board.board@, k, 120),
            if q.side == Players::White { k.side_key } else { 0 },
            e_new, c_new);
        assert(board.king_sqs@ =~= q.king_sqs);
        assert(board.history@ =~= q.history);
        assert(board.position() == q);
    }

    if is_attacked(board.king_sqs[side as usize], board.side, board) {
        unmake_move(board);
        proof {
            lemma_unmake_make(p0, action, k);
        }
        return false;
    }
    true
}

} // verus!
