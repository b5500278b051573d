//! Board geometry, piece tables and engine constants.
//!
//! The board is a 12x10 "mailbox": indices 0..120, the 8x8 playing area is
//! made of the indices whose rank (index / 10) lies in 2..=9 and whose file
//! (index % 10) lies in 1..=8.  The remaining indices form a border of
//! `OffLimits` squares that stops knight jumps and sliding rays.

use vstd::prelude::*;

verus! {

/// Pieces, indexed 0..=13 by their declaration order.
#[derive(PartialEq, Eq, Copy, Clone, Debug, Structural)]
pub enum Pieces {
    Empty,
    Wp, Wn, Wb, Wr, Wq, Wk,
    Bp, Bn, Bb, Br, Bq, Bk,
    OffLimits,
}

#[derive(PartialEq, Eq, Copy, Clone, Debug, Structural)]
pub enum Files {
    Fa, Fb, Fc, F, Fe, Ff, Fg, Fh,
    NoF,
}

#[derive(PartialEq, Eq, Copy, Clone, Debug, Structural)]
pub enum Ranks {
    R1, R2, R3, R4, R5, R6, R7, R8,
    NoR,
}

#[derive(PartialEq, Eq, Copy, Clone, Debug, Structural)]
pub enum Players {
    White,
    Black,
    Both,
}

/// The playing squares by name.
#[derive(PartialEq, Eq, Copy, Clone, Debug, Structural)]
pub enum Squares {
    NoSq, A1, B1, C1, D1, E1, F1, G1, H1, A2, B2, C2, D2, E2, F2, G2, H2, A3, B3, C3, D3, E3, F3, G3, H3, A4, B4, C4, D4, E4, F4, G4, H4, A5, B5, C5, D5, E5, F5, G5, H5, A6, B6, C6, D6, E6, F6, G6, H6, A7, B7, C7, D7, E7, F7, G7, H7, A8, B8, C8, D8, E8, F8, G8, H8,
}

impl Squares {
    /// Index of the square on the 12x10 mailbox board (`NoSq` is 0).
    pub open spec fn spec_index(self) -> usize {
        match self {
            Squares::NoSq => 0,
            Squares::A1 => 21,
            Squares::B1 => 22,
            Squares::C1 => 23,
            Squares::D1 => 24,
            Squares::E1 => 25,
            Squares::F1 => 26,
            Squares::G1 => 27,
            Squares::H1 => 28,
            Squares::A2 => 31,
            Squares::B2 => 32,
            Squares::C2 => 33,
            Squares::D2 => 34,
            Squares::E2 => 35,
            Squares::F2 => 36,
            Squares::G2 => 37,
            Squares::H2 => 38,
            Squares::A3 => 41,
            Squares::B3 => 42,
            Squares::C3 => 43,
            Squares::D3 => 44,
            Squares::E3 => 45,
            Squares::F3 => 46,
            Squares::G3 => 47,
            Squares::H3 => 48,
            Squares::A4 => 51,
            Squares::B4 => 52,
            Squares::C4 => 53,
            Squares::D4 => 54,
            Squares::E4 => 55,
            Squares::F4 => 56,
            Squares::G4 => 57,
            Squares::H4 => 58,
            Squares::A5 => 61,
            Squares::B5 => 62,
            Squares::C5 => 63,
            Squares::D5 => 64,
            Squares::E5 => 65,
            Squares::F5 => 66,
            Squares::G5 => 67,
            Squares::H5 => 68,
            Squares::A6 => 71,
            Squares::B6 => 72,
            Squares::C6 => 73,
            Squares::D6 => 74,
            Squares::E6 => 75,
            Squares::F6 => 76,
            Squares::G6 => 77,
            Squares::H6 => 78,
            Squares::A7 => 81,
            Squares::B7 => 82,
            Squares::C7 => 83,
            Squares::D7 => 84,
            Squares::E7 => 85,
            Squares::F7 => 86,
            Squares::G7 => 87,
            Squares::H7 => 88,
            Squares::A8 => 91,
            Squares::B8 => 92,
            Squares::C8 => 93,
            Squares::D8 => 94,
            Squares::E8 => 95,
            Squares::F8 => 96,
            Squares::G8 => 97,
            Squares::H8 => 98,
        }
    }

    /// Index of the square on the 12x10 mailbox board (`NoSq` is 0).
    pub fn index(self) -> (r: usize)
        ensures
            r == self.spec_index(),
    {
        match self {
            Squares::NoSq => 0,
            Squares::A1 => 21,
            Squares::B1 => 22,
            Squares::C1 => 23,
            Squares::D1 => 24,
            Squares::E1 => 25,
            Squares::F1 => 26,
            Squares::G1 => 27,
            Squares::H1 => 28,
            Squares::A2 => 31,
            Squares::B2 => 32,
            Squares::C2 => 33,
            Squares::D2 => 34,
            Squares::E2 => 35,
            Squares::F2 => 36,
            Squares::G2 => 37,
            Squares::H2 => 38,
            Squares::A3 => 41,
            Squares::B3 => 42,
            Squares::C3 => 43,
            Squares::D3 => 44,
            Squares::E3 => 45,
            Squares::F3 => 46,
            Squares::G3 => 47,
            Squares::H3 => 48,
            Squares::A4 => 51,
            Squares::B4 => 52,
            Squares::C4 => 53,
            Squares::D4 => 54,
            Squares::E4 => 55,
            Squares::F4 => 56,
            Squares::G4 => 57,
            Squares::H4 => 58,
            Squares::A5 => 61,
            Squares::B5 => 62,
            Squares::C5 => 63,
            Squares::D5 => 64,
            Squares::E5 => 65,
            Squares::F5 => 66,
            Squares::G5 => 67,
            Squares::H5 => 68,
            Squares::A6 => 71,
            Squares::B6 => 72,
            Squares::C6 => 73,
            Squares::D6 => 74,
            Squares::E6 => 75,
            Squares::F6 => 76,
            Squares::G6 => 77,
            Squares::H6 => 78,
            Squares::A7 => 81,
            Squares::B7 => 82,
            Squares::C7 => 83,
            Squares::D7 => 84,
            Squares::E7 => 85,
            Squares::F7 => 86,
            Squares::G7 => 87,
            Squares::H7 => 88,
            Squares::A8 => 91,
            Squares::B8 => 92,
            Squares::C8 => 93,
            Squares::D8 => 94,
            Squares::E8 => 95,
            Squares::F8 => 96,
            Squares::G8 => 97,
            Squares::H8 => 98,
        }
    }
}

/// Castling rights; each is one bit of the castling permission byte.
#[derive(PartialEq, Eq, Copy, Clone, Debug, Structural)]
pub enum CastlingRights {
    WkR, WqR, BkR, BqR,
}

impl CastlingRights {
    pub open spec fn spec_bit(self) -> u8 {
        match self {
            CastlingRights::WkR => 8,
            CastlingRights::WqR => 4,
            CastlingRights::BkR => 2,
            CastlingRights::BqR => 1,
        }
    }

    /// The bit of this right in the castling permission byte.
    pub fn bit(self) -> (r: u8)
        ensures
            r == self.spec_bit(),
    {
        match self {
            CastlingRights::WkR => 8,
            CastlingRights::WqR => 4,
            CastlingRights::BkR => 2,
            CastlingRights::BqR => 1,
        }
    }
}

/// Flag bit of an en passant capture.
pub const EP_FLAG: usize = 0x400000;
/// Flag bit of a pawn's double step.
pub const X2_FLAG: usize = 0x800000;
/// Flag bit of a castling move.
pub const CAST_FLAG: usize = 0x1000000;
/// Bits that are set exactly in capturing moves (captured piece or en passant).
pub const CAP_FLAG: usize = 0x43C000;

/// Score bound used by the search.
pub const INF: i32 = 30000;
/// Score of a mate at the root.
pub const MATE: i32 = 29000;
/// Scores beyond this bound (in absolute value) are mate scores.
pub const IS_MATE: i32 = 28936;
/// Deepest ply the search tables are sized for.
pub const MAX_DEPTH: usize = 64;

/// Number of slots in a move list.
pub const MAX_MOVES: usize = 255;
/// Number of entries in the undo history.
pub const MAX_GAME_MOVES: usize = 1024;
/// Default size of the transposition table in bytes.
pub const DEFAULT_TRANS_TABLE_SIZE: usize = 0x200000;
/// Size in bytes that one transposition table entry is accounted with.
pub const TRANS_ENTRY_BYTES: usize = 32;

pub const NO_SQ: usize = 0;
pub const A1: usize = 21;
pub const B1: usize = 22;
pub const C1: usize = 23;
pub const D1: usize = 24;
pub const E1: usize = 25;
pub const F1: usize = 26;
pub const G1: usize = 27;
pub const H1: usize = 28;
pub const A8: usize = 91;
pub const B8: usize = 92;
pub const C8: usize = 93;
pub const D8: usize = 94;
pub const E8: usize = 95;
pub const F8: usize = 96;
pub const G8: usize = 97;
pub const H8: usize = 98;

// ------------------------------------------------------------------
// geometry

/// `sq` is one of the 64 playing squares of the mailbox.
pub open spec fn on_board(sq: int) -> bool {
    21 <= sq <= 98 && 1 <= sq % 10 <= 8
}

pub open spec fn spec_file_of(sq: int) -> usize {
    if on_board(sq) { (sq % 10 - 1) as usize } else { 8 }
}

pub open spec fn spec_rank_of(sq: int) -> usize {
    if on_board(sq) { (sq / 10 - 2) as usize } else { 8 }
}

pub open spec fn spec_big_to_small(sq: int) -> usize {
    if on_board(sq) { ((sq / 10 - 2) * 8 + (sq % 10 - 1)) as usize } else { 65 }
}

pub open spec fn spec_small_to_big(s: int) -> usize {
    (21 + s % 8 + (s / 8) * 10) as usize
}

/// File (0..=7) of a mailbox square, 8 (`Files::NoF`) off the board.
pub fn files_from_120(sq: usize) -> (r: usize)
    ensures
        r == spec_file_of(sq as int),
{
    if 21 <= sq && sq <= 98 && 1 <= sq % 10 && sq % 10 <= 8 {
        sq % 10 - 1
    } else {
        8
    }
}

/// Rank (0..=7) of a mailbox square, 8 (`Ranks::NoR`) off the board.
pub fn ranks_from_120(sq: usize) -> (r: usize)
    ensures
        r == spec_rank_of(sq as int),
{
    if 21 <= sq && sq <= 98 && 1 <= sq % 10 && sq % 10 <= 8 {
        sq / 10 - 2
    } else {
        8
    }
}

/// Index 0..64 of a mailbox square on the 8x8 board, 65 off the board.
pub fn big_to_small(sq: usize) -> (r: usize)
    ensures
        r == spec_big_to_small(sq as int),
{
    if 21 <= sq && sq <= 98 && 1 <= sq % 10 && sq % 10 <= 8 {
        (sq / 10 - 2) * 8 + (sq % 10 - 1)
    } else {
        65
    }
}

/// Mailbox square of an index 0..64 of the 8x8 board.
pub fn small_to_big(s: usize) -> (r: usize)
    requires
        s < 64,
    ensures
        r == spec_small_to_big(s as int),
        on_board(r as int),
        spec_big_to_small(r as int) == s,
{
    21 + s % 8 + (s / 8) * 10
}

pub proof fn lemma_big_small(sq: int)
    requires
        on_board(sq),
    ensures
        0 <= spec_big_to_small(sq) < 64,
        spec_small_to_big(spec_big_to_small(sq) as int) == sq,
{
}

pub proof fn lemma_small_big(s: int)
    requires
        0 <= s < 64,
    ensures
        on_board(spec_small_to_big(s) as int),
        spec_big_to_small(spec_small_to_big(s) as int) == s,
{
}

// ------------------------------------------------------------------
// pieces

pub open spec fn spec_color(p: usize) -> Players {
    if 1 <= p <= 6 {
        Players::White
    } else if 7 <= p <= 12 {
        Players::Black
    } else {
        Players::Both
    }
}

/// 0..=5 for pawn, knight, bishop, rook, queen, king; 6 for no piece.
pub open spec fn spec_kind(p: usize) -> usize {
    if 1 <= p <= 6 {
        (p - 1) as usize
    } else if 7 <= p <= 12 {
        (p - 7) as usize
    } else {
        6
    }
}

pub open spec fn spec_value(p: usize) -> usize {
    let k = spec_kind(p);
    if k == 0 {
        100
    } else if k == 1 || k == 2 {
        325
    } else if k == 3 {
        550
    } else if k == 4 {
        1000
    } else if k == 5 {
        50000
    } else {
        0
    }
}

pub open spec fn spec_is_big(p: usize) -> bool {
    1 <= spec_kind(p) <= 5
}

pub open spec fn spec_is_min(p: usize) -> bool {
    spec_kind(p) == 1 || spec_kind(p) == 2
}

pub open spec fn spec_is_maj(p: usize) -> bool {
    3 <= spec_kind(p) <= 5
}

pub open spec fn spec_is_pawn(p: usize) -> bool {
    spec_kind(p) == 0
}

pub open spec fn spec_is_knight(p: usize) -> bool {
    spec_kind(p) == 1
}

pub open spec fn spec_is_king(p: usize) -> bool {
    spec_kind(p) == 5
}

pub open spec fn spec_is_rook_queen(p: usize) -> bool {
    spec_kind(p) == 3 || spec_kind(p) == 4
}

pub open spec fn spec_is_bishop_queen(p: usize) -> bool {
    spec_kind(p) == 2 || spec_kind(p) == 4
}

/// A piece of one of the two players (not `Empty`, not `OffLimits`).
pub open spec fn is_real(p: usize) -> bool {
    1 <= p <= 12
}

pub fn color_mask(p: usize) -> (r: Players)
    ensures
        r == spec_color(p),
{
    if 1 <= p && p <= 6 {
        Players::White
    } else if 7 <= p && p <= 12 {
        Players::Black
    } else {
        Players::Both
    }
}

pub fn kind_of(p: usize) -> (r: usize)
    ensures
        r == spec_kind(p),
{
    if 1 <= p && p <= 6 {
        p - 1
    } else if 7 <= p && p <= 12 {
        p - 7
    } else {
        6
    }
}

/// Material value of a piece.
pub fn values(p: usize) -> (r: usize)
    ensures
        r == spec_value(p),
{
    let k = kind_of(p);
    if k == 0 {
        100
    } else if k == 1 || k == 2 {
        325
    } else if k == 3 {
        550
    } else if k == 4 {
        1000
    } else if k == 5 {
        50000
    } else {
        0
    }
}

pub fn big_mask(p: usize) -> (r: bool)
    ensures
        r == spec_is_big(p),
{
    let k = kind_of(p);
    1 <= k && k <= 5
}

pub fn min_mask(p: usize) -> (r: bool)
    ensures
        r == spec_is_min(p),
{
    let k = kind_of(p);
    k == 1 || k == 2
}

pub fn maj_mask(p: usize) -> (r: bool)
    ensures
        r == spec_is_maj(p),
{
    let k = kind_of(p);
    3 <= k && k <= 5
}

pub fn is_pawn_mask(p: usize) -> (r: bool)
    ensures
        r == spec_is_pawn(p),
{
    kind_of(p) == 0
}

pub fn is_knight_mask(p: usize) -> (r: bool)
    ensures
        r == spec_is_knight(p),
{
    kind_of(p) == 1
}

pub fn is_king_mask(p: usize) -> (r: bool)
    ensures
        r == spec_is_king(p),
{
    kind_of(p) == 5
}

pub fn is_rook_queen_mask(p: usize) -> (r: bool)
    ensures
        r == spec_is_rook_queen(p),
{
    let k = kind_of(p);
    k == 3 || k == 4
}

pub fn is_bishop_queen_mask(p: usize) -> (r: bool)
    ensures
        r == spec_is_bishop_queen(p),
{
    let k = kind_of(p);
    k == 2 || k == 4
}

/// The piece with a given index.
pub open spec fn spec_piece_from(p: usize) -> Pieces {
    if p == 1 { Pieces::Wp }
    else if p == 2 { Pieces::Wn }
    else if p == 3 { Pieces::Wb }
    else if p == 4 { Pieces::Wr }
    else if p == 5 { Pieces::Wq }
    else if p == 6 { Pieces::Wk }
    else if p == 7 { Pieces::Bp }
    else if p == 8 { Pieces::Bn }
    else if p == 9 { Pieces::Bb }
    else if p == 10 { Pieces::Br }
    else if p == 11 { Pieces::Bq }
    else if p == 12 { Pieces::Bk }
    else if p == 13 { Pieces::OffLimits }
    else { Pieces::Empty }
}

/// The piece with index `p` (0..=13); `Empty` beyond.
pub fn piece_from_usize(p: usize) -> (r: Pieces)
    ensures
        r == spec_piece_from(p),
        p <= 13 ==> r as usize == p,
{
    if p == 1 { Pieces::Wp }
    else if p == 2 { Pieces::Wn }
    else if p == 3 { Pieces::Wb }
    else if p == 4 { Pieces::Wr }
    else if p == 5 { Pieces::Wq }
    else if p == 6 { Pieces::Wk }
    else if p == 7 { Pieces::Bp }
    else if p == 8 { Pieces::Bn }
    else if p == 9 { Pieces::Bb }
    else if p == 10 { Pieces::Br }
    else if p == 11 { Pieces::Bq }
    else if p == 12 { Pieces::Bk }
    else if p == 13 { Pieces::OffLimits }
    else { Pieces::Empty }
}

pub open spec fn spec_victim_score(p: usize) -> usize {
    if spec_kind(p) < 6 { ((spec_kind(p) + 1) * 100) as usize } else { 0 }
}

/// Most valuable victim / least valuable attacker ordering score.
pub open spec fn spec_mvv_lva(victim: usize, attacker: usize) -> usize {
    (spec_victim_score(victim) + 6 - spec_victim_score(attacker) / 100) as usize
}

pub fn mvv_lva(victim: usize, attacker: usize) -> (r: usize)
    ensures
        r == spec_mvv_lva(victim, attacker),
{
    let kv = kind_of(victim);
    let ka = kind_of(attacker);
    let sv: usize = if kv < 6 { (kv + 1) * 100 } else { 0 };
    let sa: usize = if ka < 6 { (ka + 1) * 100 } else { 0 };
    sv + 6 - sa / 100
}

/// Mask that a move from or to `sq` applies to the castling permissions:
/// leaving or entering a king's or rook's home square drops the rights that
/// need that piece there.
pub open spec fn spec_castle_perm(sq: usize) -> u8 {
    if sq == A1 { 11 }
    else if sq == E1 { 3 }
    else if sq == H1 { 7 }
    else if sq == A8 { 14 }
    else if sq == E8 { 12 }
    else if sq == H8 { 13 }
    else { 15 }
}

pub fn castle_perm_mask(sq: usize) -> (r: u8)
    ensures
        r == spec_castle_perm(sq),
{
    if sq == A1 { 11 }
    else if sq == E1 { 3 }
    else if sq == H1 { 7 }
    else if sq == A8 { 14 }
    else if sq == E8 { 12 }
    else if sq == H8 { 13 }
    else { 15 }
}

/// Mirror of an 8x8 index across the middle between ranks 4 and 5.
pub open spec fn spec_mirror(s: int) -> int {
    (7 - s / 8) * 8 + s % 8
}

pub fn mirror(s: usize) -> (r: usize)
    requires
        s < 64,
    ensures
        r == spec_mirror(s as int),
        r < 64,
{
    (7 - s / 8) * 8 + s % 8
}

/// Letter of a file 0..8.
pub open spec fn spec_file_char(f: int) -> char {
    if f == 0 { 'a' } else if f == 1 { 'b' } else if f == 2 { 'c' } else if f == 3 { 'd' }
    else if f == 4 { 'e' } else if f == 5 { 'f' } else if f == 6 { 'g' } else { 'h' }
}

/// Digit of a rank 0..8.
pub open spec fn spec_rank_char(r: int) -> char {
    if r == 0 { '1' } else if r == 1 { '2' } else if r == 2 { '3' } else if r == 3 { '4' }
    else if r == 4 { '5' } else if r == 5 { '6' } else if r == 6 { '7' } else { '8' }
}

/// The letters and digits stand for their files and ranks.
pub proof fn lemma_square_chars(f: int, r: int)
    requires
        0 <= f < 8,
        0 <= r < 8,
    ensures
        (spec_file_char(f) as u32) as int == 97 + f,
        (spec_rank_char(r) as u32) as int == 49 + r,
{
}

/// Letter of a file 0..8.
pub fn file_char(f: usize) -> (r: char)
    requires
        f < 8,
    ensures
        r == spec_file_char(f as int),
{
    if f == 0 { 'a' } else if f == 1 { 'b' } else if f == 2 { 'c' } else if f == 3 { 'd' }
    else if f == 4 { 'e' } else if f == 5 { 'f' } else if f == 6 { 'g' } else { 'h' }
}

/// Digit of a rank 0..8.
pub fn rank_char(r8: usize) -> (r: char)
    requires
        r8 < 8,
    ensures
        r == spec_rank_char(r8 as int),
{
    if r8 == 0 { '1' } else if r8 == 1 { '2' } else if r8 == 2 { '3' } else if r8 == 3 { '4' }
    else if r8 == 4 { '5' } else if r8 == 5 { '6' } else if r8 == 6 { '7' } else { '8' }
}

} // verus!
