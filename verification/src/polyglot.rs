//! Polyglot opening books: the Polyglot hash of a position, book moves, and
//! reading a book's bytes.

use vstd::prelude::*;
use crate::statics::{Pieces, Players, on_board, spec_rank_of, spec_file_of, ranks_from_120, files_from_120, spec_file_char,
    spec_rank_char, file_char, rank_char, lemma_square_chars, E1, E8};
use crate::structs::{BoardStructure, PolyglotBook, PolyglotBookEntry};
use crate::rules::{gen_move, spec_from_sq, spec_to_sq, spec_promoted};
use crate::uci::{move_from_chars, move_text_ok, square_of, promo_fits, promo_letter, names_move};
use crate::legal_move_gen::owed_count;

verus! {

/// The pawn of the side to move stands next to the square behind the en
/// passant square, so that the en passant capture is there to be made.
pub open spec fn ep_pawn_spec(b: &BoardStructure) -> bool {
    b.en_pas != 0 && {
        let pawn = if b.side == Players::White { Pieces::Wp } else { Pieces::Bp };
        let att: int = if b.side == Players::White { b.en_pas - 10 } else { b.en_pas + 10 };
        b.board[att + 1] == pawn || b.board[att - 1] == pawn
    }
}

/// See `ep_pawn_spec`.
pub fn has_pawn_for_en_passant(board: &BoardStructure) -> (r: bool)
    requires
        board.en_pas == 0 || 21 <= board.en_pas <= 98,
    ensures
        r == ep_pawn_spec(board),
{
    let target: Pieces = if board.side == Players::White { Pieces::Wp } else { Pieces::Bp };
    if board.en_pas != 0 {
        let attacker_sq: usize = if board.side == Players::White { board.en_pas - 10 } else { board.en_pas + 10 };
        if board.board[attacker_sq + 1] == target {
            return true;
        } else if board.board[attacker_sq - 1] == target {
            return true;
        }
    }
    false
}

/// Polyglot's number for a piece: black pawn 0, white pawn 1, black
/// knight 2, and so on to white king 11.
pub open spec fn poly_kind(p: usize) -> int {
    if p <= 6 { 2 * (p - 1) + 1 } else { 2 * (p - 7) }
}

/// Index of the key of piece `p` on mailbox square `sq`.
pub open spec fn poly_index(p: usize, sq: int) -> int {
    64 * poly_kind(p) + 8 * spec_rank_of(sq) + spec_file_of(sq)
}

/// Xor of the keys of the pieces on the first `n` squares.
pub open spec fn poly_pieces(s: Seq<Pieces>, keys: Seq<u64>, n: int) -> u64
    decreases n,
{
    if n <= 0 {
        0
    } else {
        let p = s[n - 1] as usize;
        poly_pieces(s, keys, n - 1) ^ (if 1 <= p <= 12 { keys[poly_index(p, n - 1)] } else { 0 })
    }
}

/// The Polyglot hash of the position, given the 781 keys: pieces, castling
/// rights (768..772), the en passant file where a capture is possible
/// (772..780), white to move (780).
pub open spec fn poly_hash(b: &BoardStructure, keys: Seq<u64>) -> u64 {
    let k0 = poly_pieces(b.board@, keys, 120);
    let k1 = if b.castle_perm & 8 != 0 { k0 ^ keys[768] } else { k0 };
    let k2 = if b.castle_perm & 4 != 0 { k1 ^ keys[769] } else { k1 };
    let k3 = if b.castle_perm & 2 != 0 { k2 ^ keys[770] } else { k2 };
    let k4 = if b.castle_perm & 1 != 0 { k3 ^ keys[771] } else { k3 };
    let k5 = if ep_pawn_spec(b) { k4 ^ keys[772 + spec_file_of(b.en_pas as int)] } else { k4 };
    if b.side == Players::White { k5 ^ keys[780] } else { k5 }
}

/// The Polyglot hash of the position under the 781 Polyglot keys `keys`.
pub fn polykey_from_board(board: &BoardStructure, keys: &Vec<u64>) -> (r: u64)
    requires
        keys@.len() == 781,
        board.en_pas == 0 || 21 <= board.en_pas <= 98,
    ensures
        r == poly_hash(board, keys@),
{
    let mut key: u64 = 0;
    let mut sq: usize = 0;
    while sq < 120
        invariant
            sq <= 120,
            keys@.len() == 781,
            key == poly_pieces(board.board@, keys@, sq as int),
        decreases 120 - sq,
    {
        let piece: usize = board.board[sq] as usize;
        if 1 <= piece && piece <= 12 {
            let kind: usize = if piece <= 6 { 2 * (piece - 1) + 1 } else { 2 * (piece - 7) };
            let idx: usize = 64 * kind + 8 * ranks_from_120(sq) + files_from_120(sq);
            key = key ^ keys[idx];
        } else {
            proof { crate::model::lemma_xor_swap(key, 0, 0); }
        }
        sq = sq + 1;
    }
    if board.castle_perm & 8 != 0 {
        key = key ^ keys[768];
    }
    if board.castle_perm & 4 != 0 {
        key = key ^ keys[769];
    }
    if board.castle_perm & 2 != 0 {
        key = key ^ keys[770];
    }
    if board.castle_perm & 1 != 0 {
        key = key ^ keys[771];
    }
    if has_pawn_for_en_passant(board) {
        let file: usize = files_from_120(board.en_pas);
        key = key ^ keys[772 + file];
    }
    if board.side == Players::White {
        key = key ^ keys[780];
    }
    key
}

/// The promotion letter of a Polyglot promotion number (1 knight .. 4
/// queen).
pub open spec fn poly_promo_char(pp: int) -> char {
    if pp == 1 { 'n' } else if pp == 2 { 'b' } else if pp == 3 { 'r' } else { 'q' }
}

/// The move text of a Polyglot move: from file and rank (bits 6..12), to
/// file and rank (bits 0..6), and the promotion letter (bits 12..15, 0 for
/// none).
pub open spec fn poly_text(b: &BoardStructure, action: u16) -> Seq<char> {
    let base = seq![
        spec_file_char(((action >> 6u16) & 7) as int),
        spec_rank_char(((action >> 9u16) & 7) as int),
        spec_file_char(poly_to_file(b, action)),
        spec_rank_char(((action >> 3u16) & 7) as int),
    ];
    let pp = ((action >> 12u16) & 7) as int;
    if pp == 0 { base } else { base.push(poly_promo_char(pp)) }
}

/// Polyglot writes castling as the king taking its own rook (e1h1, e1a1,
/// e8h8, e8a8): where the king stands on its start square, such a move
/// goes to the g or c file. The file of the target square to read.
pub open spec fn poly_to_file(b: &BoardStructure, action: u16) -> int {
    let ff = ((action >> 6u16) & 7) as int;
    let fr = ((action >> 9u16) & 7) as int;
    let tf = (action & 7) as int;
    let tr = ((action >> 3u16) & 7) as int;
    if ff == 4 && fr == tr && ((fr == 0 && b.board[E1 as int] == Pieces::Wk) || (fr == 7 && b.board[E8 as int]
        == Pieces::Bk)) {
        if tf == 7 {
            6
        } else if tf == 0 {
            2
        } else {
            tf
        }
    } else {
        tf
    }
}

/// A Polyglot move whose promotion number is one this reader knows (0..4).
pub open spec fn poly_move_ok(action: u16) -> bool {
    (action >> 12u16) & 7 <= 4
}

/// The move of the position that a Polyglot move names: as `parse_move`
/// reads its text (see `poly_text`).
pub fn parse_polymove(action: u16, board: &BoardStructure) -> (r: usize)
    requires
        poly_move_ok(action),
        board.valid(),
        board.ply < 64,
    ensures
        poly_parse_ok(board, action, r),
{
    assert((action >> 6u16) & 7 < 8 && (action >> 9u16) & 7 < 8 && action & 7 < 8 && (action >> 3u16) & 7 < 8)
        by (bit_vector);
    let ff: char = file_char(((action >> 6) & 7) as usize);
    let fr: char = rank_char(((action >> 9) & 7) as usize);
    let ffi: usize = ((action >> 6) & 7) as usize;
    let fri: usize = ((action >> 9) & 7) as usize;
    let tfi: usize = (action & 7) as usize;
    let tri: usize = ((action >> 3) & 7) as usize;
    let castles: bool = ffi == 4 && fri == tri && ((fri == 0 && board.board[E1] == Pieces::Wk) || (fri == 7
        && board.board[E8] == Pieces::Bk));
    let to_file: usize = if castles && tfi == 7 {
        6
    } else if castles && tfi == 0 {
        2
    } else {
        tfi
    };
    let tf: char = file_char(to_file);
    let tr: char = rank_char(((action >> 3) & 7) as usize);
    let mut text: Vec<char> = vec![ff, fr, tf, tr];
    let pp: u16 = (action >> 12) & 7;
    if pp == 1 {
        text.push('n');
    } else if pp == 2 {
        text.push('b');
    } else if pp == 3 {
        text.push('r');
    } else if pp == 4 {
        text.push('q');
    }
    proof {
        lemma_square_chars(((action >> 6u16) & 7) as int, ((action >> 9u16) & 7) as int);
        lemma_square_chars(to_file as int, ((action >> 3u16) & 7) as int);
        assert(to_file as int == poly_to_file(board, action));
        assert(text@ =~= poly_text(board, action));
    }
    move_from_chars(&text, board)
}

/// The book move chosen among the first `n` entries: the first entry with
/// the position's key, a move that reads (`parsed`, non-zero) and the
/// highest weight; its move, weight, and whether there is one.
pub open spec fn pick_spec(entries: Seq<PolyglotBookEntry>, parsed: Seq<usize>, key: u64, n: int) -> (usize, u16, bool)
    decreases n,
{
    if n <= 0 {
        (0, 0, false)
    } else {
        let prev = pick_spec(entries, parsed, key, n - 1);
        let e = entries[n - 1];
        if e.key == key && parsed[n - 1] != 0 && (!prev.2 || e.weigth > prev.1) {
            (parsed[n - 1], e.weigth, true)
        } else {
            prev
        }
    }
}

/// What reading the Polyglot move `action` gives in the position: a packed
/// pseudo legal move from and to the squares it names with a fitting
/// promotion, or 0, which (where the position has fewer than 255 pseudo
/// legal moves) means there is none.
pub open spec fn poly_parse_ok(b: &BoardStructure, action: u16, r: usize) -> bool {
    &&& (r != 0 ==> names_move(b.position(), poly_text(b, action), r))
    &&& (owed_count(b, false) < 255 ==> (r == 0 <==> !exists|a: usize| names_move(b.position(), poly_text(b, action), a)))
    &&& forall|a: usize| #[trigger] names_move(b.position(), poly_text(b, action), a) && (r != 0 || owed_count(b, false)
        < 255) ==> r == a
}

/// The book's move for the position: among the entries with the
/// position's Polyglot key whose move reads, the best: the one of highest
/// weight (the first of them on a tie); 0 if there is none.
pub fn get_book_move(board: &BoardStructure, book: &PolyglotBook, keys: &Vec<u64>) -> (r: usize)
    requires
        keys@.len() == 781,
        board.valid(),
        board.ply < 64,
        forall|i: int| 0 <= i < book.entries@.len() && #[trigger] book.entries@[i].key == poly_hash(board, keys@)
            ==> poly_move_ok(book.entries@[i].action),
    ensures
        exists|parsed: Seq<usize>| {
            &&& parsed.len() == book.entries@.len()
            &&& forall|i: int| 0 <= i < parsed.len() && book.entries@[i].key == poly_hash(board, keys@) ==> poly_parse_ok(
                board, book.entries@[i].action, #[trigger] parsed[i])
            &&& r == pick_spec(book.entries@, parsed, poly_hash(board, keys@), parsed.len() as int).0
        },
{
    proof {
        assert(board.en_pas == 0 || crate::statics::on_board(board.en_pas as int));
    }
    let board_key: u64 = polykey_from_board(board, keys);
    let mut best: usize = 0;
    let mut best_weight: u16 = 0;
    let mut found: bool = false;
    let ghost mut parsed: Seq<usize> = Seq::empty();
    let mut i: usize = 0;
    while i < book.entries.len()
        invariant
            i <= book.entries@.len(),
            board.valid(),
            board.ply < 64,
            board_key == poly_hash(board, keys@),
            forall|j: int| 0 <= j < book.entries@.len() && #[trigger] book.entries@[j].key == board_key ==> poly_move_ok(
                book.entries@[j].action),
            parsed.len() == i,
            forall|j: int| 0 <= j < i && book.entries@[j].key == board_key ==> poly_parse_ok(board, book.entries@[j].action,
                #[trigger] parsed[j]),
            pick_spec(book.entries@, parsed, board_key, i as int) == (best, best_weight, found),
        decreases book.entries@.len() - i,
    {
        let entry: PolyglotBookEntry = book.entries[i];
        let mut a: usize = 0;
        if entry.key == board_key {
            a = parse_polymove(entry.action, board);
            if a != 0 && (!found || entry.weigth > best_weight) {
                best = a;
                best_weight = entry.weigth;
                found = true;
            }
        }
        proof {
            let np = parsed.push(a);
            assert(np.subrange(0, i as int) =~= parsed);
            assert forall|j: int| 0 <= j < i && book.entries@[j].key == board_key implies poly_parse_ok(board,
                book.entries@[j].action, #[trigger] np[j]) by {
                assert(np[j] == parsed[j]);
            }
            assert(pick_spec(book.entries@, np, board_key, i as int) == pick_spec(book.entries@, parsed, board_key, i as int))
                by {
                lemma_pick_prefix(book.entries@, parsed, np, board_key, i as int);
            }
            parsed = np;
        }
        i = i + 1;
    }
    best
}

/// The choice among the first `n` entries looks only at the first `n`
/// readings.
proof fn lemma_pick_prefix(entries: Seq<PolyglotBookEntry>, p1: Seq<usize>, p2: Seq<usize>, key: u64, n: int)
    requires
        0 <= n <= p1.len(),
        n <= p2.len(),
        forall|j: int| 0 <= j < n ==> p1[j] == p2[j],
    ensures
        pick_spec(entries, p1, key, n) == pick_spec(entries, p2, key, n),
    decreases n,
{
    if n > 0 {
        lemma_pick_prefix(entries, p1, p2, key, n - 1);
    }
}

/// The big-endian number in `len` bytes from `at`.
pub open spec fn be_value(b: Seq<u8>, at: int, len: int) -> int
    decreases len,
{
    if len <= 0 {
        0
    } else {
        be_value(b, at, len - 1) * 256 + b[at + len - 1] as int
    }
}

/// The book entry in the 16 bytes from `at`: key (8 bytes), move (2),
/// weight (2), learn (4), each big-endian.
pub open spec fn entry_at(b: Seq<u8>, at: int) -> PolyglotBookEntry {
    PolyglotBookEntry {
        key: be_value(b, at, 8) as u64,
        action: be_value(b, at + 8, 2) as u16,
        weigth: be_value(b, at + 10, 2) as u16,
        learn: be_value(b, at + 12, 4) as u32,
    }
}

/// Read `len` big-endian bytes from `at`.
fn read_be(b: &Vec<u8>, at: usize, len: usize) -> (r: u64)
    requires
        len <= 8,
        at + len <= b.len(),
    ensures
        r as int == be_value(b@, at as int, len as int),
{
    let mut v: u64 = 0;
    let mut i: usize = 0;
    while i < len
        invariant
            i <= len <= 8,
            at + len <= b.len(),
            v as int == be_value(b@, at as int, i as int),
            be_value(b@, at as int, i as int) < pow256(i as int),
        decreases len - i,
    {
        proof {
            lemma_pow256_step(i as int);
            assert(be_value(b@, at as int, i + 1) == be_value(b@, at as int, i as int) * 256 + b@[at + i] as int);
            assert(be_value(b@, at as int, i + 1) < pow256(i + 1)) by (nonlinear_arith)
                requires
                    be_value(b@, at as int, i + 1) == be_value(b@, at as int, i as int) * 256 + b@[at + i] as int,
                    be_value(b@, at as int, i as int) < pow256(i as int),
                    pow256(i + 1) == pow256(i as int) * 256,
                    b@[at + i] < 256,
            ;
            lemma_pow256_mono(i + 1, 8);
            assert(pow256(8) == 0x1_0000_0000_0000_0000);
            assert(be_value(b@, at as int, i + 1) <= u64::MAX);
            assert(v * 256 + b@[at + i] as int <= u64::MAX);
        }
        v = v * 256 + b[at + i] as u64;
        i = i + 1;
    }
    v
}

pub open spec fn pow256(n: int) -> int
    decreases n,
{
    if n <= 0 { 1 } else { pow256(n - 1) * 256 }
}

proof fn lemma_pow256_step(n: int)
    requires
        n >= 0,
    ensures
        pow256(n + 1) == pow256(n) * 256,
        pow256(n) >= 1,
    decreases n,
{
    if n > 0 {
        lemma_pow256_step(n - 1);
    }
}

proof fn lemma_pow256_mono(n: int, m: int)
    requires
        0 <= n <= m,
    ensures
        pow256(n) <= pow256(m),
        pow256(8) == 0x1_0000_0000_0000_0000,
    decreases m - n,
{
    reveal_with_fuel(pow256, 9);
    if n < m {
        lemma_pow256_mono(n, m - 1);
        lemma_pow256_step(m - 1);
    }
}

impl PolyglotBook {
    /// The book whose file holds `buffer`: one entry per whole 16 bytes,
    /// in order (see `entry_at`); a partial last record is ignored.
    pub fn from_bytes(buffer: &Vec<u8>) -> (r: PolyglotBook)
        ensures
            r.entries@.len() == buffer@.len() / 16,
            forall|i: int| 0 <= i < r.entries@.len() ==> #[trigger] r.entries@[i] == entry_at(buffer@, 16 * i),
    {
        let mut book = PolyglotBook { entries: Vec::new() };
        let n: usize = buffer.len() / 16;
        let mut i: usize = 0;
        while i < n
            invariant
                n == buffer@.len() / 16,
                i <= n,
                book.entries@.len() == i,
                forall|j: int| 0 <= j < i ==> #[trigger] book.entries@[j] == entry_at(buffer@, 16 * j),
            decreases n - i,
        {
            assert(16 * i + 16 <= buffer.len()) by (nonlinear_arith)
                requires
                    i < n,
                    n == buffer@.len() / 16,
                    buffer@.len() == buffer.len(),
            ;
            let ind: usize = 16 * i;
            proof {
                lemma_pow256_mono(2, 8);
                lemma_pow256_mono(4, 8);
                reveal_with_fuel(pow256, 5);
            }
            let key: u64 = read_be(buffer, ind, 8);
            let action: u64 = read_be(buffer, ind + 8, 2);
            let weigth: u64 = read_be(buffer, ind + 10, 2);
            let learn: u64 = read_be(buffer, ind + 12, 4);
            proof {
                lemma_be_bound(buffer@, ind + 8, 2);
                lemma_be_bound(buffer@, ind + 10, 2);
                lemma_be_bound(buffer@, ind + 12, 4);
            }
            book.entries.push(PolyglotBookEntry {
                key: key,
                action: action as u16,
                weigth: weigth as u16,
                learn: learn as u32,
            });
            i = i + 1;
        }
        book
    }
}

/// `len` bytes make a number below `256^len`.
proof fn lemma_be_bound(b: Seq<u8>, at: int, len: int)
    requires
        0 <= len,
        0 <= at,
        at + len <= b.len(),
    ensures
        0 <= be_value(b, at, len) < pow256(len),
    decreases len,
{
    if len > 0 {
        lemma_be_bound(b, at, len - 1);
        lemma_pow256_step(len - 1);
        assert(be_value(b, at, len) < pow256(len)) by (nonlinear_arith)
            requires
                be_value(b, at, len) == be_value(b, at, len - 1) * 256 + b[at + len - 1] as int,
                0 <= be_value(b, at, len - 1) < pow256(len - 1),
                pow256(len) == pow256(len - 1) * 256,
                b[at + len - 1] < 256,
        ;
    }
}

} // verus!
