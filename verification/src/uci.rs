//! Reading the engine's commands: numbers, moves in long algebraic
//! notation, and the `position` and `go` commands of the UCI protocol.

use vstd::prelude::*;
use crate::statics::{Pieces, spec_is_king, is_king_mask, spec_file_of, spec_rank_of, files_from_120, ranks_from_120,
    spec_is_rook_queen, spec_is_bishop_queen, spec_is_knight, is_rook_queen_mask,
    is_bishop_queen_mask, is_knight_mask};
use crate::structs::{BoardStructure, MoveListStructure, SearchInfo};
use crate::statics::Players;
use crate::rules::{gen_move, spec_from_sq, spec_to_sq, spec_promoted, Position, legal, legal_line, play, eq_low, at_ply,
    make_spec, pos_valid, lemma_at_ply, lemma_eq_low_facts, lemma_eq_low_trans, lemma_gen_move_ok, packed};
use crate::rules::{lemma_packed, lemma_packed_flags, promo_ok, castle_move, spec_taken};
use crate::statics::spec_kind;
use crate::perft::pos_owed_set;
use crate::structs::ZobristKeys;
use crate::fen::{fen_ok, fen_setup, parse_fen, build_fen_chars, chars_of};
use crate::validation::position_valid;
use crate::do_undo_moves::make_move;
use crate::legal_move_gen::{pseudo_legal_move_gen, appended_ok, from_sq, to_sq, promoted, complete, owed, owed_count, owed_set,
    holds_from};

verus! {

/// The character is one of the ten decimal digits.
pub open spec fn is_digit(c: char) -> bool {
    '0' <= c && c <= '9'
}

/// Number of leading decimal digits of `s`.
pub open spec fn digits_len(s: Seq<char>) -> nat
    decreases s.len(),
{
    if s.len() > 0 && is_digit(s[0]) {
        1 + digits_len(s.drop_first())
    } else {
        0
    }
}

/// Decimal value of the first `n` characters of `s`.
pub open spec fn digits_value(s: Seq<char>, n: int) -> nat
    decreases n,
{
    if n <= 0 {
        0
    } else {
        digits_value(s, n - 1) * 10 + ((s[n - 1] as u32) as nat - 48) as nat
    }
}

proof fn lemma_digits_len(s: Seq<char>, i: int)
    requires
        0 <= i <= s.len(),
        forall|j: int| 0 <= j < i ==> is_digit(#[trigger] s[j]),
        i == s.len() || !is_digit(s[i]),
    ensures
        digits_len(s) == i,
    decreases s.len(),
{
    if s.len() > 0 && is_digit(s[0]) {
        assert(i > 0);
        let t = s.drop_first();
        assert forall|j: int| 0 <= j < i - 1 implies is_digit(#[trigger] t[j]) by {
            assert(t[j] == s[j + 1]);
        }
        lemma_digits_len(t, i - 1);
    }
}

/// Read the decimal number at the front of `chars`, ignoring what follows
/// it: the number (`None` if `chars` does not start with a digit) and how
/// many digits it has.
pub fn parse_num(chars: Vec<char>) -> (r: (Option<usize>, usize))
    requires
        digits_value(chars@, digits_len(chars@) as int) <= usize::MAX,
    ensures
        r.1 == digits_len(chars@),
        r.0 == (if digits_len(chars@) == 0 { None } else { Some(digits_value(chars@, digits_len(chars@) as int) as usize) }),
{
    let mut head: usize = 0;
    let mut num: usize = 0;
    while head < chars.len() && '0' <= chars[head] && chars[head] <= '9'
        invariant
            head <= chars@.len(),
            forall|j: int| 0 <= j < head ==> is_digit(#[trigger] chars@[j]),
            num == digits_value(chars@, head as int),
            digits_value(chars@, digits_len(chars@) as int) <= usize::MAX,
            head <= digits_len(chars@),
        decreases chars@.len() - head,
    {
        proof {
            lemma_digits_prefix(chars@, head as int + 1);
            lemma_digits_len_facts(chars@);
            lemma_digits_mono(chars@, head as int + 1, digits_len(chars@) as int);
        }
        let d: usize = (chars[head] as u32 - 48) as usize;
        num = 10 * num + d;
        head = head + 1;
    }
    proof {
        lemma_digits_len(chars@, head as int);
    }
    if head == 0 {
        (None, 0)
    } else {
        (Some(num), head)
    }
}

/// A prefix of digits is no longer than the leading digits.
proof fn lemma_digits_prefix(s: Seq<char>, i: int)
    requires
        0 <= i <= s.len(),
        forall|j: int| 0 <= j < i ==> is_digit(#[trigger] s[j]),
    ensures
        i <= digits_len(s),
    decreases s.len(),
{
    if i > 0 {
        let t = s.drop_first();
        assert forall|j: int| 0 <= j < i - 1 implies is_digit(#[trigger] t[j]) by {
            assert(t[j] == s[j + 1]);
        }
        lemma_digits_prefix(t, i - 1);
    }
}

/// The leading digits are digits, and no more than the characters.
proof fn lemma_digits_len_facts(s: Seq<char>)
    ensures
        digits_len(s) <= s.len(),
        forall|j: int| 0 <= j < digits_len(s) ==> is_digit(#[trigger] s[j]),
    decreases s.len(),
{
    if s.len() > 0 && is_digit(s[0]) {
        let t = s.drop_first();
        lemma_digits_len_facts(t);
        assert forall|j: int| 0 <= j < digits_len(s) implies is_digit(#[trigger] s[j]) by {
            if j > 0 {
                assert(s[j] == t[j - 1]);
            }
        }
    }
}

/// More digits, a larger value.
proof fn lemma_digits_mono(s: Seq<char>, i: int, n: int)
    requires
        0 <= i <= n <= s.len(),
        forall|j: int| 0 <= j < n ==> is_digit(#[trigger] s[j]),
    ensures
        digits_value(s, i) <= digits_value(s, n),
    decreases n - i,
{
    if i < n {
        lemma_digits_mono(s, i, n - 1);
        assert(is_digit(s[n - 1]));
    }
}

/// Square (mailbox index) named by a file letter and a rank digit, counted
/// from `a` and `1`.
pub open spec fn square_of(file: char, rank: char) -> int {
    21 + ((file as u32) as int - 97) + ((rank as u32) as int - 49) * 10
}

/// A move text this reader accepts: from and to squares as letter and
/// digit, each at least `a` and `1`.
pub open spec fn move_text_ok(t: Seq<char>) -> bool {
    &&& t.len() >= 4
    &&& (t[0] as u32) >= 97
    &&& (t[1] as u32) >= 49
    &&& (t[2] as u32) >= 97
    &&& (t[3] as u32) >= 49
}

/// The promotion letter of a move text (`t` where there is none).
pub open spec fn promo_letter(t: Seq<char>) -> char {
    if t.len() >= 5 { t[4] } else { 't' }
}

/// A move with promotion `prom` fits the letter: no promotion, or the
/// letter names the piece promoted to (`r`, `b`, `q`, `n`).
pub open spec fn promo_fits(prom: usize, last: char) -> bool {
    ||| prom == 0
    ||| (spec_is_rook_queen(prom) && !spec_is_bishop_queen(prom) && last == 'r')
    ||| (!spec_is_rook_queen(prom) && spec_is_bishop_queen(prom) && last == 'b')
    ||| (spec_is_rook_queen(prom) && spec_is_bishop_queen(prom) && last == 'q')
    ||| (spec_is_knight(prom) && last == 'n')
}

/// `a` is a packed pseudo legal move of `p` that the move text `t` names:
/// from and to the named squares, with a promotion that fits the letter.
pub open spec fn names_move(p: Position, t: Seq<char>, a: usize) -> bool {
    &&& packed(a)
    &&& gen_move(p, a)
    &&& spec_from_sq(a) == square_of(t[0], t[1])
    &&& spec_to_sq(a) == square_of(t[2], t[3])
    &&& promo_fits(spec_promoted(a), promo_letter(t))
}

/// Promotions that fit one letter are one piece for one side.
proof fn lemma_promo_fits_same(side: Players, f: int, x: usize, y: usize, c: char)
    requires
        promo_ok(side, f, x),
        promo_ok(side, f, y),
        promo_fits(x, c),
        promo_fits(y, c),
    ensures
        x == y,
{
}

/// A move text names at most one move of a valid position: from and to
/// squares and the promotion decide the captured piece and the flags.
pub proof fn lemma_names_move_unique(p: Position, t: Seq<char>, a: usize, b: usize, k: ZobristKeys)
    requires
        pos_valid(p, k),
        names_move(p, t, a),
        names_move(p, t, b),
    ensures
        a == b,
{
    lemma_packed(a);
    lemma_packed(b);
    lemma_packed_flags(a);
    lemma_packed_flags(b);
    let f = spec_from_sq(a) as int;
    let to = spec_to_sq(a) as int;
    let s = p.squares;
    let kd = spec_kind(s[f] as usize);
    assert(spec_from_sq(b) as int == f && spec_to_sq(b) as int == to);
    if kd == 0 {
        let fwd: int = if p.side == Players::White { 10 } else { -10 };
        if to == f + fwd {
            lemma_promo_fits_same(p.side, f, spec_promoted(a), spec_promoted(b), promo_letter(t));
        } else if to == f + 2 * fwd {
        } else if s[to] != Pieces::Empty {
            assert(!(to == p.en_pas && p.en_pas != 0));
            lemma_promo_fits_same(p.side, f, spec_promoted(a), spec_promoted(b), promo_letter(t));
        } else {
        }
    } else if kd == 5 {
        if castle_move(p, a) && !castle_move(p, b) {
            assert(false);
        }
        if castle_move(p, b) && !castle_move(p, a) {
            assert(false);
        }
    }
    assert(spec_promoted(a) == spec_promoted(b));
    assert(spec_taken(a) == spec_taken(b));
    assert(a & 0x1C00000 == b & 0x1C00000);
}

/// The move of the position that a text in long algebraic notation (such
/// as `e2e4` or `e7e8q`) names: the pseudo legal move from and to the
/// named squares whose promotion fits the letter (there is at most one); 0
/// if there is none (where the position has fewer than 255 pseudo legal
/// moves; beyond that, a move the generator could not list is not found).
pub fn parse_move(action: String, board: &BoardStructure) -> (r: usize)
    requires
        move_text_ok(action@),
        board.valid(),
        board.ply < 64,
    ensures
        r != 0 ==> names_move(board.position(), action@, r),
        owed_count(board, false) < 255 ==> (r == 0 <==> !exists|a: usize| names_move(board.position(), action@, a)),
        forall|a: usize| #[trigger] names_move(board.position(), action@, a) && (r != 0 || owed_count(board, false)
            < 255) ==> r == a,
{
    let t: Vec<char> = crate::fen::chars_of(action.as_str());
    move_from_chars(&t, board)
}

/// `parse_move` on the characters of the text.
pub fn move_from_chars(t: &Vec<char>, board: &BoardStructure) -> (r: usize)
    requires
        move_text_ok(t@),
        board.valid(),
        board.ply < 64,
    ensures
        r != 0 ==> names_move(board.position(), t@, r),
        owed_count(board, false) < 255 ==> (r == 0 <==> !exists|a: usize| names_move(board.position(), t@, a)),
        forall|a: usize| #[trigger] names_move(board.position(), t@, a) && (r != 0 || owed_count(board, false) < 255)
            ==> r == a,
{
    let r: usize = find_named_move(t, board);
    proof {
        assert forall|a: usize| #[trigger] names_move(board.position(), t@, a) && (r != 0 || owed_count(board, false)
            < 255) implies r == a by {
            if r != 0 {
                lemma_names_move_unique(board.position(), t@, r, a, board.keys);
            }
        }
    }
    r
}

/// The first generated move that the text names, 0 if none.
fn find_named_move(t: &Vec<char>, board: &BoardStructure) -> (r: usize)
    requires
        move_text_ok(t@),
        board.valid(),
        board.ply < 64,
    ensures
        r != 0 ==> names_move(board.position(), t@, r),
        owed_count(board, false) < 255 ==> (r == 0 <==> !exists|a: usize| names_move(board.position(), t@, a)),
{
    let from: u64 = 21 + (t[0] as u32 - 97) as u64 + (t[1] as u32 - 49) as u64 * 10;
    let to: u64 = 21 + (t[2] as u32 - 97) as u64 + (t[3] as u32 - 49) as u64 * 10;
    let last: char = if t.len() >= 5 { t[4] } else { 't' };
    let mut movelist: MoveListStructure = MoveListStructure::new();
    let ghost l0 = movelist;
    pseudo_legal_move_gen(board, &mut movelist);
    let mut move_num: usize = 0;
    while move_num < movelist.length
        invariant
            movelist.length <= 255,
            l0.length == 0,
            appended_ok(board, l0, movelist, false),
            move_num <= movelist.length,
            from == square_of(t@[0], t@[1]),
            to == square_of(t@[2], t@[3]),
            last == promo_letter(t@),
            complete(board, l0, movelist, false),
            owed_count(board, false) < 255 ==> movelist.length < 255,
            forall|q: int| 0 <= q < move_num ==> !names_move(board.position(), t@, #[trigger] movelist.moves[q].action),
        decreases movelist.length - move_num,
    {
        let mv: usize = movelist.moves[move_num].action;
        proof {
            assert(l0.length <= move_num < movelist.length);
            assert(packed(mv) && gen_move(board.position(), mv));
            assert(mv != 0) by {
                if mv == 0 {
                    assert(spec_from_sq(0) == 0) by (bit_vector);
                }
            }
        }
        if from_sq(mv) as u64 == from && to_sq(mv) as u64 == to {
            let pr: usize = promoted(mv);
            let fits: bool = if pr != Pieces::Empty as usize {
                let rq: bool = is_rook_queen_mask(pr);
                let bq: bool = is_bishop_queen_mask(pr);
                (rq && !bq && last == 'r') || (!rq && bq && last == 'b') || (rq && bq && last == 'q') || (
                is_knight_mask(pr) && last == 'n')
            } else {
                true
            };
            if fits {
                proof {
                    assert(names_move(board.position(), t@, mv));
                }
                return mv;
            }
        }
        move_num = move_num + 1;
    }
    proof {
        if owed_count(board, false) < 255 && exists|a: usize| names_move(board.position(), t@, a) {
            let a = choose|a: usize| names_move(board.position(), t@, a);
            assert(owed(board, a, false));
            assert(holds_from(movelist, 0, a));
            let q = choose|q: int| 0 <= q < movelist.length && #[trigger] movelist.moves[q].action == a;
            assert(!names_move(board.position(), t@, movelist.moves[q].action));
        }
    }
    0
}

/// The text of the start position in FEN.
/// The word that starts the moves of a `position` command.
pub open spec fn moves_keyword() -> Seq<char> {
    seq!['m', 'o', 'v', 'e', 's', ' ']
}

/// Whether a `position` command asks for the start position.
pub open spec fn asks_startpos(input: Seq<char>) -> bool {
    word_at(input, 9, seq!['s', 't', 'a', 'r', 't', 'p', 'o', 's'])
}

/// The FEN text of a `position` command.
pub open spec fn position_fen_text(input: Seq<char>) -> Seq<char> {
    if asks_startpos(input) {
        start_fen_text()
    } else {
        input.subrange(13, input.len() as int)
    }
}

/// The part of a `position` command in which its moves are looked for.
pub open spec fn position_rest(input: Seq<char>) -> Seq<char> {
    if asks_startpos(input) {
        input
    } else {
        input.subrange(13, input.len() as int)
    }
}

pub open spec fn start_fen_text() -> Seq<char> {
    "rnbqkbnr/pppppppp/8/8/8/8/PPPPPPPP/RNBQKBNR w KQkq - 0 1"@
}

/// `w` stands at index `i` of `s`.
pub open spec fn word_at(s: Seq<char>, i: int, w: Seq<char>) -> bool {
    &&& 0 <= i
    &&& i + w.len() <= s.len()
    &&& s.subrange(i, i + w.len()) == w
}

fn word_at_exec(s: &Vec<char>, i: usize, w: &Vec<char>) -> (r: bool)
    ensures
        r == word_at(s@, i as int, w@),
{
    if i > s.len() || w.len() > s.len() - i {
        return false;
    }
    let mut j: usize = 0;
    while j < w.len()
        invariant
            i + w@.len() <= s@.len(),
            s@.len() == s.len(),
            j <= w@.len(),
            forall|q: int| 0 <= q < j ==> s@[i + q] == w@[q],
        decreases w@.len() - j,
    {
        if s[i + j] != w[j] {
            assert(s@.subrange(i as int, i + w@.len())[j as int] != w@[j as int]);
            return false;
        }
        j = j + 1;
    }
    assert(s@.subrange(i as int, i + w@.len()) =~= w@);
    true
}

/// The characters from index `from` on.
fn tail_of(s: &Vec<char>, from: usize) -> (r: Vec<char>)
    requires
        from <= s@.len(),
    ensures
        r@ == s@.subrange(from as int, s@.len() as int),
{
    let mut r: Vec<char> = Vec::new();
    let mut i: usize = from;
    while i < s.len()
        invariant
            from <= i <= s@.len(),
            r@ == s@.subrange(from as int, i as int),
        decreases s@.len() - i,
    {
        r.push(s[i]);
        i = i + 1;
    }
    r
}

/// The characters in `from..to`.
fn slice_of(s: &Vec<char>, from: usize, to: usize) -> (r: Vec<char>)
    requires
        from <= to <= s@.len(),
    ensures
        r@ == s@.subrange(from as int, to as int),
{
    let mut r: Vec<char> = Vec::new();
    let mut i: usize = from;
    while i < to
        invariant
            from <= i <= to,
            to <= s@.len(),
            r@ == s@.subrange(from as int, i as int),
        decreases to - i,
    {
        r.push(s[i]);
        i = i + 1;
    }
    r
}

/// One move of a `position` command: the line grows by the move where it
/// was legal, else the position stays.
proof fn lemma_line_step(s0: Position, line: Seq<usize>, k: crate::structs::ZobristKeys, cur: Position, after: Position,
    a: usize, ok: bool)
    requires
        pos_valid(s0, k),
        s0.ply == 0 && s0.ply_depth == 0 && s0.fifty_cnt == 0,
        legal_line(s0, line, k),
        line.len() < 1023,
        eq_low(cur, at_ply(play(s0, line, k), 0)),
        gen_move(cur, a),
        ok ==> after == make_spec(cur, a, k) && legal(cur, a, k),
        !ok ==> eq_low(after, cur),
    ensures
        legal_line(s0, if ok { line.push(a) } else { line }, k),
        eq_low(at_ply(after, 0), at_ply(play(s0, if ok { line.push(a) } else { line }, k), 0)),
{
    crate::rules::lemma_line_valid(s0, line, k);
    let pl = play(s0, line, k);
    lemma_at_ply(pl, a, k, 0);
    lemma_eq_low_facts(cur, at_ply(pl, 0), a, k);
    if ok {
        let nl = line.push(a);
        assert(nl.drop_last() =~= line);
        assert(legal(pl, a, k));
        assert(play(s0, nl, k) == make_spec(pl, a, k));
    } else {
        lemma_eq_low_trans(after, cur, at_ply(pl, 0));
    }
}

/// Where the first occurrence of `w` in `s` starts.
pub open spec fn first_word(s: Seq<char>, w: Seq<char>) -> int {
    choose|i: int| word_at(s, i, w) && forall|j: int| 0 <= j < i ==> !#[trigger] word_at(s, j, w)
}

/// The moves of a `position` command, read from `head` of `rem`, can be
/// carried out from the position that `line` reaches from `s0`: each move
/// text reads and names a pseudo legal move of the position reached, which
/// is made where it is legal and passed over where it is not, while the
/// game stays below 1023 half moves; with `fit`, each such position also
/// has fewer than 255 pseudo legal moves.
pub open spec fn moves_walk(s0: Position, line: Seq<usize>, rem: Seq<char>, head: int, k: ZobristKeys, fit: bool) -> bool
    decreases rem.len() + 1 - head,
{
    if head < 0 || head + 4 >= rem.len() {
        true
    } else {
        let cur = at_ply(play(s0, line, k), 0);
        let c = rem[head + 4];
        let promo = c != ' ' && c != '\r' && c != '\n';
        let text = if promo {
            rem.subrange(head, head + 5)
        } else {
            rem.subrange(head, head + 4)
        };
        let step: int = if promo { 6 } else { 5 };
        let a = choose|a: usize| names_move(cur, text, a);
        &&& move_text_ok(text)
        &&& names_move(cur, text, a)
        &&& cur.ply_depth < 1023
        &&& (fit ==> pos_owed_set(cur).len() < 255)
        &&& moves_walk(s0, if legal(cur, a, k) { line.push(a) } else { line }, rem, head + step, k, fit)
    }
}

/// The line that the moves of a `position` command, read from `head` of
/// `rem`, extend `line` to: each move text names a move of the position
/// reached, which is added where it is legal (as `moves_walk` reads them).
pub open spec fn moves_line(s0: Position, line: Seq<usize>, rem: Seq<char>, head: int, k: ZobristKeys) -> Seq<usize>
    decreases rem.len() + 1 - head,
{
    if head < 0 || head + 4 >= rem.len() {
        line
    } else {
        let cur = at_ply(play(s0, line, k), 0);
        let c = rem[head + 4];
        let promo = c != ' ' && c != '\r' && c != '\n';
        let text = if promo {
            rem.subrange(head, head + 5)
        } else {
            rem.subrange(head, head + 4)
        };
        let step: int = if promo { 6 } else { 5 };
        let a = choose|a: usize| names_move(cur, text, a);
        moves_line(s0, if legal(cur, a, k) { line.push(a) } else { line }, rem, head + step, k)
    }
}

/// One step of `moves_walk` that reads a move `a`.
proof fn lemma_walk_step(s0: Position, line: Seq<usize>, rem: Seq<char>, head: int, k: ZobristKeys, fit: bool,
    a: usize)
    requires
        0 <= head,
        head + 4 < rem.len(),
        pos_valid(at_ply(play(s0, line, k), 0), k),
        move_text_ok(
            if rem[head + 4] != ' ' && rem[head + 4] != '\r' && rem[head + 4] != '\n' {
                rem.subrange(head, head + 5)
            } else {
                rem.subrange(head, head + 4)
            },
        ),
        names_move(
            at_ply(play(s0, line, k), 0),
            if rem[head + 4] != ' ' && rem[head + 4] != '\r' && rem[head + 4] != '\n' {
                rem.subrange(head, head + 5)
            } else {
                rem.subrange(head, head + 4)
            },
            a,
        ),
        at_ply(play(s0, line, k), 0).ply_depth < 1023,
        fit ==> pos_owed_set(at_ply(play(s0, line, k), 0)).len() < 255,
    ensures
        moves_walk(s0, line, rem, head, k, fit) == moves_walk(
            s0,
            if legal(at_ply(play(s0, line, k), 0), a, k) {
                line.push(a)
            } else {
                line
            },
            rem,
            head + (if rem[head + 4] != ' ' && rem[head + 4] != '\r' && rem[head + 4] != '\n' {
                6int
            } else {
                5int
            }),
            k,
            fit,
        ),
        moves_line(s0, line, rem, head, k) == moves_line(
            s0,
            if legal(at_ply(play(s0, line, k), 0), a, k) {
                line.push(a)
            } else {
                line
            },
            rem,
            head + (if rem[head + 4] != ' ' && rem[head + 4] != '\r' && rem[head + 4] != '\n' {
                6int
            } else {
                5int
            }),
            k,
        ),
{
    let cur = at_ply(play(s0, line, k), 0);
    let c = rem[head + 4];
    let text = if c != ' ' && c != '\r' && c != '\n' {
        rem.subrange(head, head + 5)
    } else {
        rem.subrange(head, head + 4)
    };
    let ch = choose|x: usize| names_move(cur, text, x);
    lemma_names_move_unique(cur, text, a, ch, k);
}

/// The line of legal moves that a `position` command names, from the
/// position `s0` its FEN sets up: empty without `moves `, else the moves
/// after the first `moves ` (see `moves_line`).
pub open spec fn position_line(input: Seq<char>, s0: Position, k: ZobristKeys) -> Seq<usize> {
    let rest = position_rest(input);
    if exists|i: int| #[trigger] word_at(rest, i, moves_keyword()) {
        moves_line(s0, Seq::empty(), rest.subrange(first_word(rest, moves_keyword()) + 6, rest.len() as int), 0, k)
    } else {
        Seq::empty()
    }
}

/// The board holds the position reached from `p` by a legal line, but for
/// its scratch history and with the search ply 0.
pub open spec fn reached_by_line(b: &BoardStructure, p: Position) -> bool {
    exists|line: Seq<usize>| legal_line(p, line, b.keys) && eq_low(b.position(), at_ply(play(p, line, b.keys), 0))
}

/// Carry out a `position` command (`position startpos ...` or `position fen
/// <fen> ...`, optionally followed by `moves` and moves in long algebraic
/// notation): set the board up from the start position or the FEN and
/// make each legal move named, leaving the search ply 0. `false` where the
/// command cannot be carried out: the FEN does not read, the position is
/// not one the engine plays from, a move text does not read or names no
/// pseudo legal move, or the game grows too long; the board then holds
/// what was reached.
#[verifier::rlimit(100)]
#[verifier::spinoff_prover]
pub fn parse_position(input_chars: Vec<char>, board: &mut BoardStructure) -> (r: bool)
    requires
        input_chars@.len() >= 17,
        input_chars@.len() < 0x1000_0000,
    ensures
        r ==> final(board).valid(),
        r ==> final(board).ply == 0,
        final(board).keys == old(board).keys,
        r ==> reached_by_line(final(board), fen_setup(
            position_fen_text(input_chars@),
            old(board).history@,
            old(board).keys,
        )),
        ({
            let text = position_fen_text(input_chars@);
            let s0 = fen_setup(text, old(board).history@, old(board).keys);
            &&& !fen_ok(text) ==> !r
            &&& fen_ok(text) && !pos_valid(s0, old(board).keys) ==> !r
            &&& fen_ok(text) && pos_valid(s0, old(board).keys) && !(exists|i: int| #[trigger] word_at(
                position_rest(input_chars@),
                i,
                moves_keyword(),
            )) ==> r
        }),
        ({
            let s0 = fen_setup(position_fen_text(input_chars@), old(board).history@, old(board).keys);
            r ==> eq_low(final(board).position(), at_ply(play(s0, position_line(input_chars@, s0, old(board).keys),
                old(board).keys), 0))
        }),
        ({
            let text = position_fen_text(input_chars@);
            let s0 = fen_setup(text, old(board).history@, old(board).keys);
            let rest = position_rest(input_chars@);
            let moves = rest.subrange(first_word(rest, moves_keyword()) + 6, rest.len() as int);
            fen_ok(text) && pos_valid(s0, old(board).keys) && (exists|i: int| #[trigger] word_at(rest, i, moves_keyword()))
                ==> (!moves_walk(s0, Seq::empty(), moves, 0, old(board).keys, false) ==> !r) && (moves_walk(
                s0,
                Seq::empty(),
                moves,
                0,
                old(board).keys,
                true,
            ) ==> r)
        }),
{
    let startpos: Vec<char> = vec!['s', 't', 'a', 'r', 't', 'p', 'o', 's'];
    let is_start: bool = word_at_exec(&input_chars, 9, &startpos);
    assert(startpos@ == seq!['s', 't', 'a', 'r', 't', 'p', 'o', 's']);
    let rem_chars: Vec<char> = if is_start {
        input_chars.clone()
    } else {
        tail_of(&input_chars, 13)
    };
    assert(rem_chars@ == input_chars@ || !is_start);
    let fen_text: Vec<char> = if is_start {
        let s = String::from_str("rnbqkbnr/pppppppp/8/8/8/8/PPPPPPPP/RNBQKBNR w KQkq - 0 1");
        proof {
            reveal_strlit("rnbqkbnr/pppppppp/8/8/8/8/PPPPPPPP/RNBQKBNR w KQkq - 0 1");
        }
        chars_of(s.as_str())
    } else {
        tail_of(&input_chars, 13)
    };
    let ghost k = board.keys;
    let ghost s0 = fen_setup(fen_text@, board.history@, k);
    match parse_fen(&fen_text) {
        Some(_) => {},
        None => {
            return false;
        },
    }
    build_fen_chars(&fen_text, board);
    if !position_valid(board) {
        return false;
    }
    let ghost line0: Seq<usize> = Seq::empty();
    proof {
        assert(play(s0, line0, k) == s0);
        assert(at_ply(s0, 0) == s0);
        assert(eq_low(board.position(), at_ply(play(s0, line0, k), 0)));
        assert(legal_line(s0, line0, k) && eq_low(board.position(), at_ply(play(s0, line0, k), 0)));
        assert(reached_by_line(board, s0));
    }
    proof {
        assert(rem_chars@ == position_rest(input_chars@));
    }
    if let Some(index) = find_moves_word(&rem_chars) {
        let rem: Vec<char> = tail_of(&rem_chars, index + 6);
        return play_moves(&rem, board, Ghost(s0));
    }
    true
}

/// Where the first `moves ` of `s` starts, if it holds one.
fn find_moves_word(s: &Vec<char>) -> (r: Option<usize>)
    ensures
        r is None <==> !exists|i: int| #[trigger] word_at(s@, i, moves_keyword()),
        r is Some ==> r->0 == first_word(s@, moves_keyword()) && r->0 + 6 <= s@.len(),
{
    let moves_word: Vec<char> = vec!['m', 'o', 'v', 'e', 's', ' '];
    assert(moves_word@ == seq!['m', 'o', 'v', 'e', 's', ' ']);
    assert(moves_word@ == moves_keyword());
    let mut i: usize = 0;
    while i < s.len()
        invariant
            i <= s@.len(),
            moves_word@ == moves_keyword(),
            forall|j: int| 0 <= j < i ==> !#[trigger] word_at(s@, j, moves_keyword()),
        decreases s@.len() - i,
    {
        if word_at_exec(s, i, &moves_word) {
            proof {
                let fw = first_word(s@, moves_keyword());
                assert(word_at(s@, i as int, moves_keyword()) && forall|j: int| 0 <= j < i ==> !#[trigger] word_at(s@, j,
                    moves_keyword()));
                assert(word_at(s@, fw, moves_keyword()) && forall|j: int| 0 <= j < fw ==> !#[trigger] word_at(s@, j,
                    moves_keyword()));
                if fw < i {
                    assert(!word_at(s@, fw, moves_keyword()));
                }
                if fw > i {
                    assert(!word_at(s@, i as int, moves_keyword()));
                }
            }
            return Some(i);
        }
        i = i + 1;
    }
    proof {
        assert forall|j: int| !#[trigger] word_at(s@, j, moves_keyword()) by {
            if 0 <= j < i {
            }
        }
    }
    None
}

/// Make the moves of a `position` command, written in `rem`, from the
/// position `s0` the board holds: each legal move named is made (the
/// search ply staying 0), a pseudo legal but illegal one passed over.
/// `false` where a move text does not read or names no pseudo legal move,
/// or the game grows too long.
#[verifier::rlimit(100)]
#[verifier::spinoff_prover]
fn play_moves(rem: &Vec<char>, board: &mut BoardStructure, start: Ghost<Position>) -> (r: bool)
    requires
        rem@.len() < 0x1000_0000,
        old(board).valid(),
        old(board).ply == 0,
        old(board).ply_depth == 0,
        old(board).fifty_cnt == 0,
        eq_low(old(board).position(), start@),
        pos_valid(start@, old(board).keys),
        start@.ply == 0 && start@.ply_depth == 0 && start@.fifty_cnt == 0,
    ensures
        final(board).keys == old(board).keys,
        r ==> final(board).valid() && final(board).ply == 0 && reached_by_line(final(board), start@),
        r ==> eq_low(final(board).position(), at_ply(play(start@, moves_line(start@, Seq::empty(), rem@, 0,
            old(board).keys), old(board).keys), 0)),
        !moves_walk(start@, Seq::empty(), rem@, 0, old(board).keys, false) ==> !r,
        moves_walk(start@, Seq::empty(), rem@, 0, old(board).keys, true) ==> r,
{
    let ghost s0 = start@;
    let ghost k = board.keys;
    let ghost line0: Seq<usize> = Seq::empty();
    proof {
        assert(play(s0, line0, k) == s0);
        assert(at_ply(s0, 0) == s0);
    }
        let mut head: usize = 0;
        let ghost mut line: Seq<usize> = line0;
        let ghost w0 = moves_walk(s0, line0, rem@, 0, k, false);
        let ghost w1 = moves_walk(s0, line0, rem@, 0, k, true);
        while head + 4 < rem.len()
            invariant
                moves_walk(s0, line, rem@, head as int, k, false) == w0,
                w1 ==> moves_walk(s0, line, rem@, head as int, k, true),
                s0 == start@,
                w0 == moves_walk(s0, Seq::<usize>::empty(), rem@, 0, k, false),
                w1 == moves_walk(s0, Seq::<usize>::empty(), rem@, 0, k, true),
                moves_line(s0, line, rem@, head as int, k) == moves_line(s0, Seq::<usize>::empty(), rem@, 0, k),
                board.ply_depth < 1024,
                rem@.len() < 0x1000_0000,
                head <= rem@.len() + 1,
                k == old(board).keys,
                board.valid(),
                board.ply == 0,
                board.keys == k,
                board.fifty_cnt <= board.ply_depth,
                legal_line(s0, line, k),
                eq_low(board.position(), at_ply(play(s0, line, k), 0)),
                line.len() == board.ply_depth,
                pos_valid(s0, k),
                s0.ply == 0 && s0.ply_depth == 0 && s0.fifty_cnt == 0,
            decreases rem@.len() + 1 - head,
        {
            let c: char = rem[head + 4];
            let text: Vec<char> = if c != ' ' && c != '\r' && c != '\n' {
                slice_of(rem, head, head + 5)
            } else {
                slice_of(rem, head, head + 4)
            };
            let step: usize = if c != ' ' && c != '\r' && c != '\n' { 6 } else { 5 };
            let ghost curs = at_ply(play(s0, line, k), 0);
            proof {
                crate::rules::lemma_line_valid(s0, line, k);
                lemma_at_ply(play(s0, line, k), 0, k, 0);
                assert(pos_valid(curs, k));
                assert forall|x: usize|
                    #![trigger names_move(board.position(), text@, x)]
                    #![trigger names_move(curs, text@, x)]
                    names_move(board.position(), text@, x) == names_move(curs, text@, x) by {
                    lemma_eq_low_facts(board.position(), curs, x, k);
                }
                assert(owed_set(&*board, false) =~= pos_owed_set(curs)) by {
                    assert forall|x: int| 0 <= x < 0x2000000 implies #[trigger] gen_move(board.position(), x as usize)
                        == gen_move(curs, x as usize) by {
                        lemma_eq_low_facts(board.position(), curs, x as usize, k);
                    }
                }
                lemma_eq_low_facts(board.position(), curs, 0, k);
            }
            proof {
                assert(c == rem@[head + 4]);
                assert(text@ == (if c != ' ' && c != '\r' && c != '\n' {
                    rem@.subrange(head as int, head + 5)
                } else {
                    rem@.subrange(head as int, head + 4)
                }));
                assert(moves_walk(s0, line, rem@, head as int, k, false) ==> move_text_ok(text@) && (exists|x: usize|
                    names_move(curs, text@, x)) && curs.ply_depth < 1023);
                assert(moves_walk(s0, line, rem@, head as int, k, true) ==> move_text_ok(text@) && pos_owed_set(curs).len()
                    < 255);
            }
            if (text[0] as u32) < 97 || (text[1] as u32) < 49 || (text[2] as u32) < 97 || (text[3] as u32) < 49 {
                return false;
            }
            let action: usize = move_from_chars(&text, board);
            if action == 0 || board.ply_depth >= 1023 {
                return false;
            }
            let ghost cur = board.position();
            let ghost pl = play(s0, line, k);
            let ghost chosen = choose|a: usize| names_move(curs, text@, a);
            let ghost line_old = line;
            let ghost head_old = head as int;
            proof {
                lemma_gen_move_ok(cur, action, k);
                assert(names_move(curs, text@, action));
                lemma_names_move_unique(curs, text@, action, chosen, k);
                lemma_eq_low_facts(cur, curs, action, k);
                lemma_at_ply(pl, action, k, 0);
                lemma_eq_low_facts(cur, at_ply(pl, 0), action, k);
            }
            let ok: bool = make_move(action, board);
            let ghost bm = *board;
            board.ply = 0;
            proof {
                crate::model::lemma_pieces_wf_frame(bm, *board);
                assert(board.position() == at_ply(bm.position(), 0));
                lemma_at_ply(bm.position(), action, k, 0);
                lemma_line_step(s0, line, k, cur, bm.position(), action, ok);
                if ok {
                    line = line.push(action);
                }
                assert(chosen == action);
                assert(legal(cur, action, k) == legal(curs, action, k));
                assert(line == (if legal(curs, chosen, k) { line_old.push(chosen) } else { line_old }));
                lemma_walk_step(s0, line_old, rem@, head_old, k, false, action);
                assert(moves_walk(s0, line_old, rem@, head_old, k, false) == moves_walk(s0, line, rem@, head_old + step, k,
                    false));
                assert(moves_walk(s0, line_old, rem@, head_old, k, true) ==> moves_walk(s0, line, rem@, head_old + step, k,
                    true));
            }
            head = head + step;
        }
    proof {
        assert(moves_line(s0, line, rem@, head as int, k) == line);
        assert(reached_by_line(board, s0));
    }
    true
}

/// Whether the leading digits of `t` make a number that fits in a `usize`.
fn leading_number_fits(t: &Vec<char>) -> (r: bool)
    ensures
        r == (digits_value(t@, digits_len(t@) as int) <= usize::MAX),
{
    proof {
        lemma_digits_len_facts(t@);
    }
    let n: usize = digits_len_exec(t);
    let mut v: usize = 0;
    let mut i: usize = 0;
    while i < n
        invariant
            n == digits_len(t@),
            n <= t@.len(),
            forall|j: int| 0 <= j < n ==> is_digit(#[trigger] t@[j]),
            i <= n,
            v == digits_value(t@, i as int),
        decreases n - i,
    {
        let d: usize = (t[i] as u32 - 48) as usize;
        assert(is_digit(t@[i as int]));
        match v.checked_mul(10) {
            Some(m) => match m.checked_add(d) {
                Some(x) => {
                    v = x;
                },
                None => {
                    proof {
                        lemma_digits_mono(t@, i as int + 1, n as int);
                    }
                    return false;
                },
            },
            None => {
                proof {
                    lemma_digits_mono(t@, i as int + 1, n as int);
                }
                return false;
            },
        }
        i = i + 1;
    }
    true
}

fn digits_len_exec(t: &Vec<char>) -> (r: usize)
    ensures
        r == digits_len(t@),
{
    let mut i: usize = 0;
    while i < t.len() && '0' <= t[i] && t[i] <= '9'
        invariant
            i <= t@.len(),
            forall|j: int| 0 <= j < i ==> is_digit(#[trigger] t@[j]),
        decreases t@.len() - i,
    {
        i = i + 1;
    }
    proof {
        lemma_digits_len(t@, i as int);
    }
    i
}

/// Keyword `kw` at index `head`, followed by a space and a number: whether
/// it is there (only if something follows it), the index after the number
/// and the space after it, and the number (`None` if no digit follows).
pub open spec fn kw_num(s: Seq<char>, head: int, kw: Seq<char>) -> (bool, int, Option<nat>) {
    if 0 <= head && head + kw.len() < s.len() && s.subrange(head, head + kw.len()) == kw {
        let h = head + kw.len() + 1;
        let t = s.subrange(h, s.len() as int);
        let n = digits_len(t);
        (true, h + n + 1, if n == 0 { None } else { Some(digits_value(t, n as int)) })
    } else {
        (false, head, None)
    }
}

/// The keyword's number is read where the keyword is there, and it fits.
pub open spec fn kw_ok(k: (bool, int, Option<nat>), used: bool) -> bool {
    k.0 ==> ((used ==> k.2 is Some) && (k.2 is Some ==> k.2->0 <= usize::MAX))
}

/// The limits a `go` command sets for the side to move (`white` or not):
/// whether the search is timed, the time it may use (the side's clock, or
/// the move time, split over the moves to go, less 50 milliseconds), and
/// the depth limit (`usize::MAX - 1` where none is given). `None` where
/// the command cannot be read: a number is missing or too large, no moves
/// are to go, or less than 50 milliseconds remain.
pub open spec fn go_spec(s: Seq<char>, white: bool) -> Option<(bool, int, int)> {
    let w = kw_num(s, 3, seq!['w', 't', 'i', 'm', 'e']);
    let b = kw_num(s, w.1, seq!['b', 't', 'i', 'm', 'e']);
    let wi = kw_num(s, b.1, seq!['w', 'i', 'n', 'c']);
    let bi = kw_num(s, wi.1, seq!['b', 'i', 'n', 'c']);
    let mg = kw_num(s, bi.1, seq!['m', 'o', 'v', 'e', 's', 't', 'o', 'g', 'o']);
    let d = kw_num(s, mg.1, seq!['d', 'e', 'p', 't', 'h']);
    let mt = kw_num(s, d.1, seq!['m', 'o', 'v', 'e', 't', 'i', 'm', 'e']);
    if !(kw_ok(w, white) && kw_ok(b, !white) && kw_ok(wi, white) && kw_ok(bi, !white) && kw_ok(mg, true) && kw_ok(d, true)
        && kw_ok(mt, true)) {
        None
    } else {
        let clock: int = if b.0 && !white { b.2->0 as int } else if w.0 && white { w.2->0 as int } else { 0 };
        let clock_set = (w.0 && white) || (b.0 && !white);
        let to_go: int = if mg.0 { mg.2->0 as int } else { 30 };
        let time: int = if mt.0 { mt.2->0 as int } else { clock };
        let moves: int = if mt.0 { 1 } else { to_go };
        let timed = mt.0 || clock_set;
        let depth: int = if d.0 { d.2->0 as int } else { usize::MAX - 1 };
        if timed && (moves == 0 || time / moves < 50) {
            None
        } else {
            Some((timed, if timed { time / moves - 50 } else { 0 }, depth))
        }
    }
}

/// `kw_num` computed, with the number read where it fits, and whether it
/// fits.
fn kw_num_exec(s: &Vec<char>, head: usize, kw: &Vec<char>) -> (r: (bool, usize, Option<usize>, bool))
    requires
        s@.len() < 0x1000_0000,
        head <= s@.len() + 0x1000_0000,
    ensures
        r.0 == kw_num(s@, head as int, kw@).0,
        r.1 == kw_num(s@, head as int, kw@).1,
        r.3 == (kw_num(s@, head as int, kw@).2 is Some ==> kw_num(s@, head as int, kw@).2->0 <= usize::MAX),
        kw_num(s@, head as int, kw@).2 is Some && kw_num(s@, head as int, kw@).2->0 <= usize::MAX ==> r.2 == Some(
            kw_num(s@, head as int, kw@).2->0 as usize),
        kw_num(s@, head as int, kw@).2 is None ==> r.2 is None,
        r.1 <= s@.len() + 0x1000_0000,
{
    if head < s.len() && kw.len() < s.len() - head && word_at_exec(s, head, kw) {
        let h: usize = head + kw.len() + 1;
        let t: Vec<char> = tail_of(s, h);
        let n: usize = digits_len_exec(&t);
        proof {
            lemma_digits_len_facts(t@);
        }
        if n == 0 {
            (true, h + n + 1, None, true)
        } else if leading_number_fits(&t) {
            let (v, len) = parse_num(t);
            (true, h + len + 1, v, true)
        } else {
            (true, h + n + 1, None, false)
        }
    } else {
        (false, head, None, true)
    }
}

/// The limits of a `go` command for the side to move (see `go_spec`):
/// whether the search is timed, the time it may use, and the depth limit;
/// `None` exactly where the command cannot be read.
#[verifier::rlimit(60)]
#[verifier::spinoff_prover]
pub fn go_limits(input_chars: &Vec<char>, white: bool) -> (r: Option<(bool, u128, usize)>)
    requires
        input_chars@.len() < 0x1000_0000,
    ensures
        match go_spec(input_chars@, white) {
            None => r is None,
            Some((t, b, d)) => r == Some((t, b as u128, d as usize)),
        },
{
    let s: &Vec<char> = input_chars;
    let kw_wtime: Vec<char> = vec!['w', 't', 'i', 'm', 'e'];
    let kw_btime: Vec<char> = vec!['b', 't', 'i', 'm', 'e'];
    let kw_winc: Vec<char> = vec!['w', 'i', 'n', 'c'];
    let kw_binc: Vec<char> = vec!['b', 'i', 'n', 'c'];
    let kw_togo: Vec<char> = vec!['m', 'o', 'v', 'e', 's', 't', 'o', 'g', 'o'];
    let kw_depth: Vec<char> = vec!['d', 'e', 'p', 't', 'h'];
    let kw_mtime: Vec<char> = vec!['m', 'o', 'v', 'e', 't', 'i', 'm', 'e'];
    assert(kw_wtime@ == seq!['w', 't', 'i', 'm', 'e']);
    assert(kw_btime@ == seq!['b', 't', 'i', 'm', 'e']);
    assert(kw_winc@ == seq!['w', 'i', 'n', 'c']);
    assert(kw_binc@ == seq!['b', 'i', 'n', 'c']);
    assert(kw_togo@ == seq!['m', 'o', 'v', 'e', 's', 't', 'o', 'g', 'o']);
    assert(kw_depth@ == seq!['d', 'e', 'p', 't', 'h']);
    assert(kw_mtime@ == seq!['m', 'o', 'v', 'e', 't', 'i', 'm', 'e']);
    let w = kw_num_exec(s, 3, &kw_wtime);
    let b = kw_num_exec(s, w.1, &kw_btime);
    let wi = kw_num_exec(s, b.1, &kw_winc);
    let bi = kw_num_exec(s, wi.1, &kw_binc);
    let mg = kw_num_exec(s, bi.1, &kw_togo);
    let d = kw_num_exec(s, mg.1, &kw_depth);
    let mt = kw_num_exec(s, d.1, &kw_mtime);
    let ghost gw = kw_num(s@, 3, kw_wtime@);
    let ghost gb = kw_num(s@, gw.1, kw_btime@);
    let ghost gwi = kw_num(s@, gb.1, kw_winc@);
    let ghost gbi = kw_num(s@, gwi.1, kw_binc@);
    let ghost gmg = kw_num(s@, gbi.1, kw_togo@);
    let ghost gd = kw_num(s@, gmg.1, kw_depth@);
    let ghost gmt = kw_num(s@, gd.1, kw_mtime@);
    if !(num_ok(w, white) && num_ok(b, !white) && num_ok(wi, white) && num_ok(bi, !white) && num_ok(mg, true) && num_ok(
        d,
        true,
    ) && num_ok(mt, true)) {
        proof {
            assert(!(kw_ok(gw, white) && kw_ok(gb, !white) && kw_ok(gwi, white) && kw_ok(gbi, !white) && kw_ok(gmg, true)
                && kw_ok(gd, true) && kw_ok(gmt, true)));
        }
        return None;
    }
    let clock: u128 = if b.0 && !white {
        match b.2 { Some(v) => v as u128, None => 0 }
    } else if w.0 && white {
        match w.2 { Some(v) => v as u128, None => 0 }
    } else {
        0
    };
    let clock_set: bool = (w.0 && white) || (b.0 && !white);
    let to_go: u128 = if mg.0 { match mg.2 { Some(v) => v as u128, None => 0 } } else { 30 };
    let time: u128 = if mt.0 { match mt.2 { Some(v) => v as u128, None => 0 } } else { clock };
    let moves: u128 = if mt.0 { 1 } else { to_go };
    let timed: bool = mt.0 || clock_set;
    let depth_lim: usize = if d.0 { match d.2 { Some(v) => v, None => 0 } } else { usize::MAX - 1 };
    if timed && (moves == 0 || time / moves < 50) {
        return None;
    }
    let budget: u128 = if timed { time / moves - 50 } else { 0 };
    Some((timed, budget, depth_lim))
}

/// The number after a keyword is there where it is needed, and fits
/// (`kw_ok` of what `kw_num_exec` found).
fn num_ok(k: (bool, usize, Option<usize>, bool), used: bool) -> (r: bool)
    ensures
        r == (k.0 ==> ((used ==> k.2 is Some) && k.3)),
{
    !k.0 || ((!used || k.2.is_some()) && k.3)
}

/// Read the limits of a `go` command for the side to move into the search
/// information (see `go_spec`): whether it is timed, the depth limit, the
/// start time (now, by the clock) and, if timed, the stop time. The time
/// the search may use.
pub fn parse_go(input_chars: Vec<char>, info: &mut SearchInfo, board: &BoardStructure) -> (r: u128)
    requires
        input_chars@.len() < 0x1000_0000,
        go_spec(input_chars@, board.side == Players::White) is Some,
    ensures
        ({
            let g = go_spec(input_chars@, board.side == Players::White)->0;
            &&& final(info).timed == g.0
            &&& r == g.1
            &&& final(info).depth_lim == g.2
            &&& g.0 ==> final(info).stop_time == (if final(info).start_time + r <= u128::MAX {
                final(info).start_time + r
            } else {
                u128::MAX as int
            })
            &&& *final(info) == (SearchInfo {
                timed: final(info).timed,
                depth_lim: final(info).depth_lim,
                start_time: final(info).start_time,
                stop_time: final(info).stop_time,
                ..*old(info)
            })
            &&& !g.0 ==> final(info).stop_time == old(info).stop_time
        }),
{
    let white: bool = board.side == Players::White;
    let (timed, budget, depth_lim) = match go_limits(&input_chars, white) {
        Some(x) => x,
        None => {
            assert(false);
            return 0;
        },
    };
    info.timed = false;
    info.depth_lim = depth_lim;
    info.start_time = crate::search::get_time();
    if timed {
        info.timed = true;
        info.stop_time = info.start_time.saturating_add(budget);
    }
    budget
}

/// Letter of a file 0..=8 (`i` for the files off the board).
pub open spec fn file_letter(f: int) -> char {
    if f == 0 { 'a' } else if f == 1 { 'b' } else if f == 2 { 'c' } else if f == 3 { 'd' } else if f == 4 { 'e' }
    else if f == 5 { 'f' } else if f == 6 { 'g' } else if f == 7 { 'h' } else { 'i' }
}

/// Digit of a rank 0..=8 (`9` for the ranks off the board).
pub open spec fn rank_digit(r: int) -> char {
    if r == 0 { '1' } else if r == 1 { '2' } else if r == 2 { '3' } else if r == 3 { '4' } else if r == 4 { '5' }
    else if r == 5 { '6' } else if r == 6 { '7' } else if r == 7 { '8' } else { '9' }
}

/// A square in algebraic notation, `-` for no square (0).
pub open spec fn square_text_spec(sq: int) -> Seq<char> {
    if sq == 0 {
        seq!['-']
    } else {
        seq![file_letter(spec_file_of(sq) as int), rank_digit(spec_rank_of(sq) as int)]
    }
}

/// The letter a promotion is written with.
pub open spec fn promo_char_spec(p: usize) -> char {
    if spec_is_king(p) {
        'k'
    } else if !spec_is_bishop_queen(p) && spec_is_rook_queen(p) {
        'r'
    } else if spec_is_bishop_queen(p) && !spec_is_rook_queen(p) {
        'b'
    } else if spec_is_knight(p) {
        'n'
    } else {
        'q'
    }
}

/// A move in long algebraic notation: from and to squares, and the
/// promotion letter if it promotes.
pub open spec fn move_text_spec(a: usize) -> Seq<char> {
    let base = square_text_spec(spec_from_sq(a) as int) + square_text_spec(spec_to_sq(a) as int);
    if spec_promoted(a) != 0 { base.push(promo_char_spec(spec_promoted(a))) } else { base }
}

fn square_text(sq: usize) -> (r: Vec<char>)
    ensures
        r@ == square_text_spec(sq as int),
{
    if sq == 0 {
        return vec!['-'];
    }
    let f: usize = files_from_120(sq);
    let rk: usize = ranks_from_120(sq);
    let fc: char = if f == 0 { 'a' } else if f == 1 { 'b' } else if f == 2 { 'c' } else if f == 3 { 'd' } else if f == 4 {
        'e'
    } else if f == 5 { 'f' } else if f == 6 { 'g' } else if f == 7 { 'h' } else { 'i' };
    let rc: char = if rk == 0 { '1' } else if rk == 1 { '2' } else if rk == 2 { '3' } else if rk == 3 { '4' } else if rk
        == 4 { '5' } else if rk == 5 { '6' } else if rk == 6 { '7' } else if rk == 7 { '8' } else { '9' };
    vec![fc, rc]
}

/// Write a move in long algebraic notation (see `move_text_spec`).
pub fn move_text(action: usize) -> (r: Vec<char>)
    ensures
        r@ == move_text_spec(action),
{
    let mut t: Vec<char> = square_text(from_sq(action));
    let mut to: Vec<char> = square_text(to_sq(action));
    t.append(&mut to);
    let p: usize = promoted(action);
    if p != 0 {
        let c: char = if is_king_mask(p) {
            'k'
        } else if !is_bishop_queen_mask(p) && is_rook_queen_mask(p) {
            'r'
        } else if is_bishop_queen_mask(p) && !is_rook_queen_mask(p) {
            'b'
        } else if is_knight_mask(p) {
            'n'
        } else {
            'q'
        };
        t.push(c);
    }
    t
}

} // verus!
