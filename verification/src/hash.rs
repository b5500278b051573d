//! The Zobrist key of a position, computed from scratch.

use vstd::prelude::*;
use crate::statics::{Pieces, Players, NO_SQ};
use crate::structs::BoardStructure;
use crate::model::{pkey, piece_hash};

verus! {

/// The key of the position on the board: the keys of the pieces on their
/// squares, the side key if white is to move, the key of the en passant
/// square if there is one, and the key of the castling permissions.
pub fn generate_position_hash(board: &BoardStructure) -> (r: u64)
    requires
        board.castle_perm < 16,
        board.en_pas < 120,
    ensures
        r == board.hash_spec(),
{
    let mut key: u64 = 0;
    let mut sq: usize = 0;
    while sq < 120
        invariant
            sq <= 120,
            key == piece_hash(board.board@, board.keys, sq as int),
        decreases 120 - sq,
    {
        let piece: usize = board.board[sq] as usize;
        if piece != Pieces::OffLimits as usize && piece != Pieces::Empty as usize {
            key = key ^ board.keys.piece_keys[sq][piece];
        } else {
            proof { crate::model::lemma_xor_swap(key, 0, 0); }
        }
        assert(pkey(board.keys, sq as int, board.board@[sq as int] as usize) == (if piece != 13 && piece != 0 {
            board.keys.piece_keys[sq as int][piece as int]
        } else {
            0
        }));
        sq = sq + 1;
    }
    if board.side == Players::White {
        key = key ^ board.keys.side_key;
    } else {
        proof { crate::model::lemma_xor_swap(key, 0, 0); }
    }
    if board.en_pas != NO_SQ {
        key = key ^ board.keys.piece_keys[board.en_pas][0];
    } else {
        proof { crate::model::lemma_xor_swap(key, 0, 0); }
    }
    key = key ^ board.keys.castling_keys[board.castle_perm as usize];
    key
}

} // verus!
