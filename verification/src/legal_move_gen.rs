//! Attacks, the packed move encoding and pseudo legal move generation.

use vstd::prelude::*;
use crate::statics::{
    Pieces, Players, on_board, spec_color, spec_is_knight, spec_is_king, spec_is_rook_queen,
    spec_is_bishop_queen, NO_SQ, E1, E8, EP_FLAG, X2_FLAG, CAST_FLAG, CAP_FLAG, spec_mvv_lva, mvv_lva, spec_kind, kind_of, spec_rank_of, ranks_from_120, color_mask, is_knight_mask, is_king_mask, is_rook_queen_mask, is_bishop_queen_mask,
};
use crate::structs::{BoardStructure, MoveStructure, MoveListStructure};
use crate::rules::{
    knight_dirs, king_dirs, rook_dirs, bishop_dirs, ray_piece, pawn_attacks, knight_attacks, king_attacks,
    diagonal_attacks, straight_attacks, attacked, spec_from_sq, spec_to_sq, spec_taken, spec_promoted,
    spec_create_move, lemma_fields_bounded, lemma_create_move, gen_move, is_capture, is_ep_move, promo_ok, slider_dirs, on_ray,
    lemma_on_ray_extend, slide_move, packed, flag_ok, lemma_packed, lemma_create_packed, lemma_packed_flags,
    lemma_on_ray_order, lemma_on_ray_first, step_move, pawn_move, castle_move, lemma_dirs_distinct, lemma_rays_apart,
    lemma_slider_dir,
};
use crate::model::{lemma_list_entry, lemma_list_len};

verus! {

/// The square `sq + direc` for a step `direc` of a piece; the caller keeps
/// the result within 0..128.
pub fn direc_add(sq: usize, direc: i8) -> (r: usize)
    requires
        sq < 128,
        0 <= sq + direc < 128,
    ensures
        r == sq + direc,
{
    if direc >= 0 {
        sq + (direc as usize)
    } else {
        let d: usize = (-(direc as i16)) as usize;
        sq - d
    }
}

/// Some piece of `side` on a square `sq + dirs[j]`, `j < 8`, satisfies `test`.
fn step_attacks(sq: usize, side: Players, board: &BoardStructure, dirs: [i8; 8], kings: bool) -> (r: bool)
    requires
        board.squares_wf(),
        on_board(sq as int),
        kings ==> dirs@.map_values(|d: i8| d as int) == king_dirs(),
        !kings ==> dirs@.map_values(|d: i8| d as int) == knight_dirs(),
    ensures
        kings ==> r == king_attacks(board.board@, sq as int, side),
        !kings ==> r == knight_attacks(board.board@, sq as int, side),
{
    let ghost s = board.board@;
    let ghost ds = if kings { king_dirs() } else { knight_dirs() };
    let mut i: usize = 0;
    while i < 8
        invariant
            board.squares_wf(),
            on_board(sq as int),
            s == board.board@,
            ds == dirs@.map_values(|d: i8| d as int),
            ds == (if kings { king_dirs() } else { knight_dirs() }),
            i <= 8,
            forall|j: int| 0 <= j < i ==> !((if kings { spec_is_king(#[trigger] s[sq + ds[j]] as usize) } else {
                spec_is_knight(s[sq + ds[j]] as usize) }) && spec_color(s[sq + ds[j]] as usize) == side),
        decreases 8 - i,
    {
        assert(ds[i as int] == dirs[i as int] as int);
        let new_sq: usize = direc_add(sq, dirs[i]);
        let piece: usize = board.board[new_sq] as usize;
        if piece != (Pieces::OffLimits as usize) {
            let hit: bool = if kings { is_king_mask(piece) } else { is_knight_mask(piece) };
            if hit && color_mask(piece) == side {
                assert(0 <= i < 8 && s[sq + ds[i as int]] as usize == piece);
                return true;
            }
        }
        i = i + 1;
    }
    false
}

/// The first piece on some ray `dirs[j]`, `j < 4`, from `sq` is a piece of
/// `side` that moves along such rays.
fn ray_attacks(sq: usize, side: Players, board: &BoardStructure, dirs: [i8; 4], straight: bool) -> (r: bool)
    requires
        board.squares_wf(),
        on_board(sq as int),
        straight ==> dirs@.map_values(|d: i8| d as int) == rook_dirs(),
        !straight ==> dirs@.map_values(|d: i8| d as int) == bishop_dirs(),
    ensures
        straight ==> r == straight_attacks(board.board@, sq as int, side),
        !straight ==> r == diagonal_attacks(board.board@, sq as int, side),
{
    let ghost s = board.board@;
    let ghost ds = if straight { rook_dirs() } else { bishop_dirs() };
    let mut i: usize = 0;
    while i < 4
        invariant
            board.squares_wf(),
            on_board(sq as int),
            s == board.board@,
            ds == dirs@.map_values(|d: i8| d as int),
            ds == (if straight { rook_dirs() } else { bishop_dirs() }),
            i <= 4,
            forall|j: int| 0 <= j < i ==> !((if straight { spec_is_rook_queen(#[trigger] ray_piece(s, sq as int, ds[j])) } else {
                spec_is_bishop_queen(ray_piece(s, sq as int, ds[j])) }) && spec_color(ray_piece(s, sq as int, ds[j])) == side),
        decreases 4 - i,
    {
        let d: i8 = dirs[i];
        assert(ds[i as int] == d as int);
        let ghost dd: int = d as int;
        let mut cur: usize = sq;
        let mut new_sq: usize = direc_add(sq, d);
        let mut piece: usize = board.board[new_sq] as usize;
        let mut hit: bool = false;
        while piece != (Pieces::OffLimits as usize)
            invariant_except_break
                piece == s[cur + dd] as usize,
                new_sq == cur + dd,
                on_board(cur as int),
                ray_piece(s, sq as int, dd) == ray_piece(s, cur as int, dd),
            invariant
                board.squares_wf(),
                s == board.board@,
                dd == -1 || dd == 1 || dd == -10 || dd == 10 || dd == -9 || dd == -11 || dd == 9 || dd == 11,
                dd == d as int,
                !hit,
            ensures
                piece == 13 ==> ray_piece(s, sq as int, dd) == 13,
                piece != 13 ==> ray_piece(s, sq as int, dd) == piece && piece != 0,
            decreases (if dd > 0 { 120 - cur } else { cur as int }),
        {
            if piece != (Pieces::Empty as usize) {
                break;
            }
            cur = new_sq;
            new_sq = direc_add(cur, d);
            piece = board.board[new_sq] as usize;
        }
        if piece != (Pieces::OffLimits as usize) {
            let slides: bool = if straight { is_rook_queen_mask(piece) } else { is_bishop_queen_mask(piece) };
            if slides && color_mask(piece) == side {
                assert(0 <= i < 4 && ray_piece(s, sq as int, ds[i as int]) == piece);
                return true;
            }
        }
        i = i + 1;
    }
    false
}

/// A piece of `side` attacks the square `sq`.
pub fn is_attacked(sq: usize, side: Players, board: &BoardStructure) -> (r: bool)
    requires
        board.squares_wf(),
        on_board(sq as int),
    ensures
        r == attacked(board.board@, sq as int, side),
{
    if side == Players::White {
        if board.board[sq - 11] == Pieces::Wp || board.board[sq - 9] == Pieces::Wp {
            return true;
        }
    } else {
        if board.board[sq + 11] == Pieces::Bp || board.board[sq + 9] == Pieces::Bp {
            return true;
        }
    }
    let knights: [i8; 8] = [-8, -19, -21, -12, 8, 19, 21, 12];
    assert(knights@.map_values(|d: i8| d as int) =~= knight_dirs());
    if step_attacks(sq, side, board, knights, false) {
        return true;
    }
    let diagonals: [i8; 4] = [-9, -11, 11, 9];
    assert(diagonals@.map_values(|d: i8| d as int) =~= bishop_dirs());
    if ray_attacks(sq, side, board, diagonals, false) {
        return true;
    }
    let straights: [i8; 4] = [-1, -10, 1, 10];
    assert(straights@.map_values(|d: i8| d as int) =~= rook_dirs());
    if ray_attacks(sq, side, board, straights, true) {
        return true;
    }
    let kings: [i8; 8] = [-1, -10, 1, 10, -9, -11, 11, 9];
    assert(kings@.map_values(|d: i8| d as int) =~= king_dirs());
    step_attacks(sq, side, board, kings, true)
}

/// From square of a move (bits 0..7).
pub fn from_sq(m: usize) -> (r: usize)
    ensures
        r == spec_from_sq(m),
        r < 128,
{
    proof {
        lemma_fields_bounded(m);
    }
    m & 0x7F
}

/// To square of a move (bits 7..14).
pub fn to_sq(m: usize) -> (r: usize)
    ensures
        r == spec_to_sq(m),
        r < 128,
{
    proof {
        lemma_fields_bounded(m);
    }
    (m >> 7) & 0x7F
}

/// Captured piece of a move (bits 14..18).
pub fn taken(m: usize) -> (r: usize)
    ensures
        r == spec_taken(m),
        r < 16,
{
    proof {
        lemma_fields_bounded(m);
    }
    (m >> 14) & 0xF
}

/// Piece promoted to in a move (bits 18..22), 0 if none.
pub fn promoted(m: usize) -> (r: usize)
    ensures
        r == spec_promoted(m),
        r < 16,
{
    proof {
        lemma_fields_bounded(m);
    }
    (m >> 18) & 0xF
}

/// Pack a move from its from and to squares, captured piece, piece
/// promoted to and flag bits.
pub fn create_move(f: usize, t: usize, cap: usize, prom: usize, fl: usize) -> (r: usize)
    requires
        f < 128,
        t < 128,
        cap < 16,
        prom < 16,
        fl == 0 || fl == EP_FLAG || fl == X2_FLAG || fl == CAST_FLAG,
    ensures
        r == spec_create_move(f, t, cap, prom, fl),
        spec_from_sq(r) == f,
        spec_to_sq(r) == t,
        spec_taken(r) == cap,
        spec_promoted(r) == prom,
        (r & EP_FLAG != 0) == (fl == EP_FLAG),
        (r & X2_FLAG != 0) == (fl == X2_FLAG),
        (r & CAST_FLAG != 0) == (fl == CAST_FLAG),
        (r & CAP_FLAG != 0) == (cap != 0 || fl == EP_FLAG),
        r < 0x2000000,
        packed(r),
{
    proof {
        lemma_create_move(f, t, cap, prom, fl);
        lemma_create_packed(f, t, cap, prom, fl);
    }
    f | t << 7 | cap << 14 | prom << 18 | fl
}

/// Ordering score of a quiet move: killer moves first, then by history.
pub open spec fn quiet_score(b: &BoardStructure, a: usize) -> usize {
    if b.search_killers[b.ply as int][0] == a {
        900000
    } else if b.search_killers[b.ply as int][1] == a {
        800000
    } else {
        b.search_history[spec_to_sq(a) as int][b.board[spec_from_sq(a) as int] as int]
    }
}

/// Ordering score of a capture: most valuable victim, least valuable attacker.
pub open spec fn loud_score(b: &BoardStructure, a: usize) -> usize {
    (spec_mvv_lva(spec_taken(a), b.board[spec_from_sq(a) as int] as usize) + 1000000) as usize
}

/// Ordering score that the generator gives a move.
pub open spec fn move_score(b: &BoardStructure, a: usize) -> usize {
    if is_ep_move(a) {
        1000105
    } else if spec_taken(a) != 0 {
        loud_score(b, a)
    } else {
        quiet_score(b, a)
    }
}

/// `new` is `old` with moves appended.
pub open spec fn extends(old: MoveListStructure, new: MoveListStructure) -> bool {
    &&& old.length <= new.length <= 255
    &&& forall|i: int| 0 <= i < old.length ==> #[trigger] new.moves[i] == old.moves[i]
}

/// The moves appended are pseudo legal moves of `b` (captures only, if
/// asked) with their ordering scores.
pub open spec fn appended_ok(b: &BoardStructure, old: MoveListStructure, new: MoveListStructure, captures_only: bool) -> bool {
    forall|i: int| old.length <= i < new.length ==> {
        &&& gen_move(b.position(), #[trigger] new.moves[i].action)
        &&& packed(new.moves[i].action)
        &&& new.moves[i].score == move_score(b, new.moves[i].action)
        &&& (captures_only ==> is_capture(new.moves[i].action))
    }
}

/// `l` holds the move `a` at index `lo` or after.
pub open spec fn holds_from(l: MoveListStructure, lo: int, a: usize) -> bool {
    exists|i: int| lo <= i < l.length && #[trigger] l.moves[i].action == a
}

/// A move the generator owes in `b`: packed and pseudo legal, and a
/// capture if only captures are asked for.
pub open spec fn owed(b: &BoardStructure, a: usize, captures_only: bool) -> bool {
    &&& packed(a)
    &&& gen_move(b.position(), a)
    &&& (captures_only ==> is_capture(a))
}

/// The moves of `l` from index `lo` on are pairwise different.
pub open spec fn distinct_from(l: MoveListStructure, lo: int) -> bool {
    forall|i: int, j: int| #![trigger l.moves[i], l.moves[j]] lo <= i < j < l.length ==> l.moves[i].action
        != l.moves[j].action
}

/// Appending pairwise different moves, each different from the moves
/// before them, keeps the moves pairwise different.
pub proof fn lemma_distinct_join(l1: MoveListStructure, l2: MoveListStructure, lo: int)
    requires
        0 <= lo,
        distinct_from(l1, lo),
        extends(l1, l2),
        distinct_from(l2, l1.length as int),
        forall|i: int, j: int| #![trigger l2.moves[i], l2.moves[j]] lo <= i < l1.length <= j < l2.length
            ==> l2.moves[i].action != l2.moves[j].action,
    ensures
        distinct_from(l2, lo),
{
    assert forall|i: int, j: int| #![trigger l2.moves[i], l2.moves[j]] lo <= i < j < l2.length implies l2.moves[i].action
        != l2.moves[j].action by {
        if j < l1.length {
            assert(l2.moves[i] == l1.moves[i]);
            assert(l2.moves[j] == l1.moves[j]);
        }
    }
}

/// The packed pseudo legal moves of `b` (captures only, if asked), as
/// numbers.
pub open spec fn owed_set(b: &BoardStructure, captures_only: bool) -> Set<int> {
    Set::new(|x: int| 0 <= x < 0x2000000 && owed(b, x as usize, captures_only))
}

/// How many moves the generator owes in `b`.
pub open spec fn owed_count(b: &BoardStructure, captures_only: bool) -> nat {
    owed_set(b, captures_only).len()
}

/// The actions of `l` from index `lo` on, as numbers.
pub open spec fn actions_from(l: MoveListStructure, lo: int) -> Seq<int> {
    Seq::new((l.length - lo) as nat, |i: int| l.moves[lo + i].action as int)
}

/// A list that received each owed move once, and nothing else, received
/// as many moves as are owed; with fewer than that, not all were appended.
pub proof fn lemma_owed_count(b: &BoardStructure, old: MoveListStructure, new: MoveListStructure, co: bool)
    requires
        old.length <= new.length,
        appended_ok(b, old, new, co),
        distinct_from(new, old.length as int),
    ensures
        new.length - old.length <= owed_count(b, co),
        complete(b, old, new, co) && new.length < 255 ==> new.length - old.length == owed_count(b, co),
{
    let q = actions_from(new, old.length as int);
    let os = owed_set(b, co);
    vstd::set_lib::lemma_int_range(0, 0x2000000);
    assert(os.subset_of(vstd::set_lib::set_int_range(0, 0x2000000)));
    vstd::set_lib::lemma_len_subset(os, vstd::set_lib::set_int_range(0, 0x2000000));
    assert(q.no_duplicates()) by {
        assert forall|i: int, j: int| 0 <= i < q.len() && 0 <= j < q.len() && i != j implies q[i] != q[j] by {
            let a = old.length + i;
            let c = old.length + j;
            if i < j {
                assert(new.moves[a].action != new.moves[c].action);
            } else {
                assert(new.moves[c].action != new.moves[a].action);
            }
        }
    }
    q.unique_seq_to_set();
    assert forall|x: int| q.to_set().contains(x) implies os.contains(x) by {
        let i = choose|i: int| 0 <= i < q.len() && q[i] == x;
        let a = new.moves[old.length + i].action;
        assert(gen_move(b.position(), a) && packed(a) && (co ==> is_capture(a)));
    }
    vstd::set_lib::lemma_len_subset(q.to_set(), os);
    if complete(b, old, new, co) && new.length < 255 {
        assert forall|x: int| os.contains(x) implies q.to_set().contains(x) by {
            let a = x as usize;
            assert(owed(b, a, co));
            assert(holds_from(new, old.length as int, a));
            let i = choose|i: int| old.length <= i < new.length && #[trigger] new.moves[i].action == a;
            assert(q[i - old.length] == x);
        }
        assert(q.to_set() =~= os);
    }
}

/// A move held after `lo1` in a list is held after `lo2 <= lo1` in any
/// list that extends it.
pub proof fn lemma_holds_mono(l1: MoveListStructure, l2: MoveListStructure, lo1: int, lo2: int, a: usize)
    requires
        holds_from(l1, lo1, a),
        extends(l1, l2),
        0 <= lo2 <= lo1,
    ensures
        holds_from(l2, lo2, a),
{
    let i = choose|i: int| lo1 <= i < l1.length && #[trigger] l1.moves[i].action == a;
    assert(l2.moves[i] == l1.moves[i]);
}

/// An owed move is the packing of its parts, and its flag bits say which
/// kind of move it is.
pub proof fn lemma_owed_parts(b: &BoardStructure, a: usize, co: bool)
    requires
        owed(b, a, co),
    ensures
        a == spec_create_move(spec_from_sq(a), spec_to_sq(a), spec_taken(a), spec_promoted(a), a & 0x1C00000),
        spec_from_sq(a) < 128,
        spec_to_sq(a) < 128,
        spec_taken(a) < 16,
        spec_promoted(a) < 16,
        (a & 0x1C00000 == 0) == crate::rules::plain(a),
        (a & 0x1C00000 == EP_FLAG) == crate::rules::only_ep(a),
        (a & 0x1C00000 == X2_FLAG) == crate::rules::only_x2(a),
        (a & 0x1C00000 == CAST_FLAG) == crate::rules::only_cast(a),
        (a & CAST_FLAG != 0) == (a & 0x1C00000 == CAST_FLAG),
{
    lemma_packed(a);
    lemma_packed_flags(a);
}

/// Append a quiet move scored by the killer and history heuristics.
pub fn add_quiet_move(action: usize, board: &BoardStructure, list: &mut MoveListStructure)
    requires
        old(list).length <= 255,
        board.ply < 64,
        spec_to_sq(action) < 120,
        spec_from_sq(action) < 120,
        (board.board[spec_from_sq(action) as int] as usize) < 13,
    ensures
        old(list).length < 255 ==> final(list).length == old(list).length + 1 && final(list).moves[old(list).length as int]
            == (MoveStructure { action: action, score: quiet_score(board, action) }),
        old(list).length == 255 ==> *final(list) == *old(list),
        forall|i: int| 0 <= i < old(list).length ==> #[trigger] final(list).moves[i] == old(list).moves[i],
{
    if list.length < 255 {
        let score: usize = if board.search_killers[board.ply][0] == action {
            900000
        } else if board.search_killers[board.ply][1] == action {
            800000
        } else {
            board.search_history[to_sq(action)][board.board[from_sq(action)] as usize]
        };
        list.moves[list.length] = MoveStructure { action: action, score: score };
        list.length = list.length + 1;
    }
}

/// Append a capture scored by most valuable victim / least valuable attacker.
pub fn add_loud_move(action: usize, board: &BoardStructure, list: &mut MoveListStructure)
    requires
        old(list).length <= 255,
        spec_from_sq(action) < 120,
        spec_taken(action) < 13,
        (board.board[spec_from_sq(action) as int] as usize) < 13,
    ensures
        old(list).length < 255 ==> final(list).length == old(list).length + 1 && final(list).moves[old(list).length as int]
            == (MoveStructure { action: action, score: loud_score(board, action) }),
        old(list).length == 255 ==> *final(list) == *old(list),
        forall|i: int| 0 <= i < old(list).length ==> #[trigger] final(list).moves[i] == old(list).moves[i],
{
    if list.length < 255 {
        let score: usize = mvv_lva(taken(action), board.board[from_sq(action)] as usize) + 1000000;
        list.moves[list.length] = MoveStructure { action: action, score: score };
        list.length = list.length + 1;
    }
}

/// Append an en passant capture.
pub fn add_en_pas_move(action: usize, list: &mut MoveListStructure)
    requires
        old(list).length <= 255,
    ensures
        old(list).length < 255 ==> final(list).length == old(list).length + 1 && final(list).moves[old(list).length as int]
            == (MoveStructure { action: action, score: 1000105 }),
        old(list).length == 255 ==> *final(list) == *old(list),
        forall|i: int| 0 <= i < old(list).length ==> #[trigger] final(list).moves[i] == old(list).moves[i],
{
    if list.length < 255 {
        list.moves[list.length] = MoveStructure { action: action, score: 105 + 1000000 };
        list.length = list.length + 1;
    }
}

/// Pieces a pawn of the given color can promote to, in the order tried.
pub open spec fn promo_pieces(white: bool) -> Seq<usize> {
    if white { seq![5usize, 4, 3, 2] } else { seq![11usize, 10, 9, 8] }
}

/// The pawn moves from `from` to `to` appended to `old`: the four
/// promotions if the pawn stands on its last but one rank, else one move,
/// as many of them as the list has room for.
pub open spec fn pawn_adds(b: &BoardStructure, old: MoveListStructure, new: MoveListStructure, from: usize, to: usize,
    cap: usize, white: bool, loud: bool) -> bool {
    let promoting = spec_rank_of(from as int) == (if white { 6usize } else { 1usize });
    let n: int = if promoting { 4 } else { 1 };
    let m: int = if old.length + n <= 255 { n } else { 255 - old.length };
    &&& new.length == old.length + m
    &&& forall|i: int| 0 <= i < old.length ==> #[trigger] new.moves[i] == old.moves[i]
    &&& forall|j: int| 0 <= j < m ==> {
        let a = spec_create_move(from, to, cap, if promoting { promo_pieces(white)[j] } else { 0 }, 0);
        #[trigger] new.moves[old.length + j] == MoveStructure {
            action: a,
            score: if loud { loud_score(b, a) } else { quiet_score(b, a) },
        }
    }
}

fn add_pawn_move(board: &BoardStructure, from: usize, to: usize, cap: usize, list: &mut MoveListStructure, white: bool,
    loud: bool)
    requires
        old(list).length <= 255,
        loud || board.ply < 64,
        from < 120,
        to < 120,
        cap < 13,
        (board.board[from as int] as usize) < 13,
    ensures
        pawn_adds(board, *old(list), *final(list), from, to, cap, white, loud),
{
    let ghost ol = *list;
    let promoting: bool = ranks_from_120(from) == (if white { 6 } else { 1 });
    if promoting {
        let pr: [usize; 4] = if white { [5, 4, 3, 2] } else { [11, 10, 9, 8] };
        assert(pr@ =~= promo_pieces(white));
        let mut j: usize = 0;
        while j < 4
            invariant
                j <= 4,
                from < 120,
                to < 120,
                cap < 13,
                loud || board.ply < 64,
                (board.board[from as int] as usize) < 13,
                list.length == (if ol.length + j <= 255 { ol.length + j } else { 255 }),
                ol.length <= 255,
                pr@ == promo_pieces(white),
                forall|i: int| 0 <= i < ol.length ==> #[trigger] list.moves[i] == ol.moves[i],
                forall|jj: int| 0 <= jj < j && ol.length + jj < 255 ==> {
                    let a = spec_create_move(from, to, cap, promo_pieces(white)[jj], 0);
                    #[trigger] list.moves[ol.length + jj] == MoveStructure {
                        action: a,
                        score: if loud { loud_score(board, a) } else { quiet_score(board, a) },
                    }
                },
            decreases 4 - j,
        {
            let a: usize = create_move(from, to, cap, pr[j], 0);
            if loud {
                add_loud_move(a, board, list);
            } else {
                add_quiet_move(a, board, list);
            }
            j = j + 1;
        }
    } else {
        let a: usize = create_move(from, to, cap, 0, 0);
        if loud {
            add_loud_move(a, board, list);
        } else {
            add_quiet_move(a, board, list);
        }
    }
}

/// Append a white pawn's capture, with all promotions from the seventh rank.
pub fn add_wpawn_cap_move(board: &BoardStructure, from: usize, to: usize, cap: usize, list: &mut MoveListStructure)
    requires
        old(list).length <= 255,
        from < 120,
        to < 120,
        cap < 13,
        (board.board[from as int] as usize) < 13,
    ensures
        pawn_adds(board, *old(list), *final(list), from, to, cap, true, true),
{
    add_pawn_move(board, from, to, cap, list, true, true);
}

/// Append a white pawn's push, with all promotions from the seventh rank.
pub fn add_wpawn_ncap_move(board: &BoardStructure, from: usize, to: usize, list: &mut MoveListStructure)
    requires
        old(list).length <= 255,
        board.ply < 64,
        from < 120,
        to < 120,
        (board.board[from as int] as usize) < 13,
    ensures
        pawn_adds(board, *old(list), *final(list), from, to, 0, true, false),
{
    add_pawn_move(board, from, to, 0, list, true, false);
}

/// Append a black pawn's capture, with all promotions from the second rank.
pub fn add_bpawn_cap_move(board: &BoardStructure, from: usize, to: usize, cap: usize, list: &mut MoveListStructure)
    requires
        old(list).length <= 255,
        from < 120,
        to < 120,
        cap < 13,
        (board.board[from as int] as usize) < 13,
    ensures
        pawn_adds(board, *old(list), *final(list), from, to, cap, false, true),
{
    add_pawn_move(board, from, to, cap, list, false, true);
}

/// Append a black pawn's push, with all promotions from the second rank.
pub fn add_bpawn_ncap_move(board: &BoardStructure, from: usize, to: usize, list: &mut MoveListStructure)
    requires
        old(list).length <= 255,
        board.ply < 64,
        from < 120,
        to < 120,
        (board.board[from as int] as usize) < 13,
    ensures
        pawn_adds(board, *old(list), *final(list), from, to, 0, false, false),
{
    add_pawn_move(board, from, to, 0, list, false, false);
}

/// Appending in two steps appends the moves of both.
pub proof fn lemma_chain(b: &BoardStructure, l0: MoveListStructure, l1: MoveListStructure, l2: MoveListStructure,
    co: bool)
    requires
        extends(l0, l1),
        appended_ok(b, l0, l1, co),
        extends(l1, l2),
        appended_ok(b, l1, l2, co),
    ensures
        extends(l0, l2),
        appended_ok(b, l0, l2, co),
{
    assert forall|i: int| l0.length <= i < l2.length implies {
        &&& gen_move(b.position(), #[trigger] l2.moves[i].action)
        &&& packed(l2.moves[i].action)
        &&& l2.moves[i].score == move_score(b, l2.moves[i].action)
        &&& (co ==> is_capture(l2.moves[i].action))
    } by {
        if i < l1.length {
            assert(l2.moves[i] == l1.moves[i]);
        }
    }
}

/// The pawn moves appended by one of the pawn helpers are pseudo legal,
/// given that the move with each candidate promotion is.
pub proof fn lemma_pawn_adds_ok(b: &BoardStructure, l1: MoveListStructure, l2: MoveListStructure, from: usize, to: usize,
    cap: usize, white: bool, loud: bool, co: bool)
    requires
        pawn_adds(b, l1, l2, from, to, cap, white, loud),
        l1.length <= 255,
        loud == (cap != 0),
        co ==> cap != 0,
        from < 128,
        to < 128,
        cap < 16,
        forall|pr: usize| #[trigger] promo_ok(b.side, from as int, pr) ==> gen_move(b.position(), spec_create_move(from, to, cap, pr, 0)),
        b.side == (if white { Players::White } else { Players::Black }),
    ensures
        extends(l1, l2),
        appended_ok(b, l1, l2, co),
{
    let promoting = spec_rank_of(from as int) == (if white { 6usize } else { 1usize });
    assert forall|i: int| l1.length <= i < l2.length implies {
        &&& gen_move(b.position(), #[trigger] l2.moves[i].action)
        &&& packed(l2.moves[i].action)
        &&& l2.moves[i].score == move_score(b, l2.moves[i].action)
        &&& (co ==> is_capture(l2.moves[i].action))
    } by {
        let j = i - l1.length;
        let pr = if promoting { promo_pieces(white)[j] } else { 0 };
        assert(l2.moves[l1.length + j] == l2.moves[i]);
        assert(promo_ok(b.side, from as int, pr));
        lemma_create_move(from, to, cap, pr, 0);
        lemma_create_packed(from, to, cap, pr, 0);
    }
}

/// One step forward for a pawn of `side`.
pub open spec fn pawn_fwd(side: Players) -> int {
    if side == Players::White {
        10
    } else {
        -10
    }
}

/// The pawn of the side to move.
pub open spec fn own_pawn(side: Players) -> usize {
    if side == Players::White {
        1
    } else {
        7
    }
}

/// Every promotion a pawn may choose was appended by a pawn helper, if the
/// list did not run full.
pub proof fn lemma_pawn_adds_cover(b: &BoardStructure, l1: MoveListStructure, l2: MoveListStructure, from: usize,
    to: usize, cap: usize, white: bool, loud: bool)
    requires
        pawn_adds(b, l1, l2, from, to, cap, white, loud),
        l1.length <= 255,
        l2.length < 255,
        b.side == (if white { Players::White } else { Players::Black }),
    ensures
        forall|pr: usize| #[trigger] promo_ok(b.side, from as int, pr) ==> holds_from(l2, l1.length as int,
            spec_create_move(from, to, cap, pr, 0)),
{
    let promoting = spec_rank_of(from as int) == (if white { 6usize } else { 1usize });
    assert forall|pr: usize| #[trigger] promo_ok(b.side, from as int, pr) implies holds_from(l2, l1.length as int,
        spec_create_move(from, to, cap, pr, 0)) by {
        let n: int = if promoting { 4 } else { 1 };
        assert(l1.length + n <= 255);
        let j: int = if !promoting {
            0
        } else if pr == 5 || pr == 11 {
            0
        } else if pr == 4 || pr == 10 {
            1
        } else if pr == 3 || pr == 9 {
            2
        } else {
            3
        };
        assert(0 <= j < n);
        assert(promoting ==> promo_pieces(white)[j] == pr);
        assert(l2.moves[l1.length + j].action == spec_create_move(from, to, cap, pr, 0));
    }
}

/// The pawn moves a pawn helper appends go from `from` to `to`, take
/// `cap`, carry neither the en passant nor the castling flag, and differ in
/// their promotions.
pub proof fn lemma_pawn_adds_class(b: &BoardStructure, l1: MoveListStructure, l2: MoveListStructure, from: usize,
    to: usize, cap: usize, white: bool, loud: bool)
    requires
        pawn_adds(b, l1, l2, from, to, cap, white, loud),
        l1.length <= 255,
        from < 128,
        to < 128,
        cap < 16,
    ensures
        distinct_from(l2, l1.length as int),
        forall|i: int| l1.length <= i < l2.length ==> spec_from_sq(#[trigger] l2.moves[i].action) == from && spec_to_sq(
            l2.moves[i].action) == to && l2.moves[i].action & EP_FLAG == 0 && l2.moves[i].action & CAST_FLAG == 0,
{
    let promoting = spec_rank_of(from as int) == (if white { 6usize } else { 1usize });
    assert forall|i: int| l1.length <= i < l2.length implies spec_from_sq(#[trigger] l2.moves[i].action) == from
        && spec_to_sq(l2.moves[i].action) == to && l2.moves[i].action & EP_FLAG == 0 && l2.moves[i].action & CAST_FLAG
        == 0 by {
        let j = i - l1.length;
        let pr = if promoting { promo_pieces(white)[j] } else { 0 };
        assert(l2.moves[l1.length + j] == l2.moves[i]);
        lemma_create_move(from, to, cap, pr, 0);
    }
    assert forall|i: int, j: int| #![trigger l2.moves[i], l2.moves[j]] l1.length <= i < j < l2.length implies l2.moves[i].action
        != l2.moves[j].action by {
        let pi = if promoting { promo_pieces(white)[i - l1.length] } else { 0 };
        let pj = if promoting { promo_pieces(white)[j - l1.length] } else { 0 };
        assert(l2.moves[l1.length + (i - l1.length)] == l2.moves[i]);
        assert(l2.moves[l1.length + (j - l1.length)] == l2.moves[j]);
        lemma_create_move(from, to, cap, pi, 0);
        lemma_create_move(from, to, cap, pj, 0);
    }
}

/// What an owed move of a pawn is, by its target square.
pub proof fn lemma_pawn_owed(b: &BoardStructure, a: usize, co: bool)
    requires
        b.gen_ok(),
        owed(b, a, co),
        b.board[spec_from_sq(a) as int] as usize == own_pawn(b.side),
    ensures
        ({
            let f = spec_from_sq(a);
            let t = spec_to_sq(a);
            let s = b.board@;
            let fw = pawn_fwd(b.side);
            let pr = spec_promoted(a);
            &&& (t == f + fw ==> s[t as int] == Pieces::Empty && !co && promo_ok(b.side, f as int, pr) && a
                == spec_create_move(f, t, 0, pr, 0))
            &&& (t == f + 2 * fw ==> !co && spec_rank_of(f as int) == (if b.side == Players::White {
                1usize
            } else {
                6usize
            }) && s[f + fw] == Pieces::Empty && s[t as int] == Pieces::Empty && a == spec_create_move(f, t, 0, 0, X2_FLAG))
            &&& (t == f + fw - 1 || t == f + fw + 1 ==> (s[t as int] != Pieces::OffLimits && s[t as int] != Pieces::Empty
                && spec_color(s[t as int] as usize) == crate::rules::opp(b.side) && promo_ok(b.side, f as int, pr) && a
                == spec_create_move(f, t, s[t as int] as usize, pr, 0)) || (s[t as int] != Pieces::OffLimits && t == b.en_pas
                && b.en_pas != 0 && a == spec_create_move(f, t, 0, 0, EP_FLAG)))
            &&& (t == f + fw || t == f + 2 * fw || t == f + fw - 1 || t == f + fw + 1)
        }),
{
    lemma_owed_parts(b, a, co);
    let p = b.position();
    assert(spec_kind(own_pawn(b.side)) == 0);
    assert(pawn_move(p, a));
    crate::rules::lemma_flag_facts(a);
}

/// The pushes of the pawn on `sq`: one step forward, with every promotion
/// from the last but one rank, and two steps from the start rank.
fn gen_pawn_push(board: &BoardStructure, list: &mut MoveListStructure, sq: usize)
    requires
        board.gen_ok(),
        board.ply < 64,
        on_board(sq as int),
        board.board[sq as int] as usize == own_pawn(board.side),
        old(list).length <= 255,
    ensures
        extends(*old(list), *final(list)),
        appended_ok(board, *old(list), *final(list), false),
        final(list).length < 255 ==> forall|a: usize| #[trigger] owed(board, a, false) && spec_from_sq(a) == sq && (
        spec_to_sq(a) == sq + pawn_fwd(board.side) || spec_to_sq(a) == sq + 2 * pawn_fwd(board.side)) ==> holds_from(
            *final(list), old(list).length as int, a),
        distinct_from(*final(list), old(list).length as int),
        forall|i: int| old(list).length <= i < final(list).length ==> spec_from_sq(#[trigger] final(list).moves[i].action)
            == sq && (spec_to_sq(final(list).moves[i].action) == sq + pawn_fwd(board.side) || spec_to_sq(
            final(list).moves[i].action) == sq + 2 * pawn_fwd(board.side)) && final(list).moves[i].action & CAST_FLAG
            == 0,
{
    let ghost ol = *list;
    let ghost p = board.position();
    let white: bool = board.side == Players::White;
    let fwd: usize = if white { sq + 10 } else { sq - 10 };
    if board.board[fwd] == Pieces::Empty {
        if white {
            add_wpawn_ncap_move(board, sq, fwd, list);
        } else {
            add_bpawn_ncap_move(board, sq, fwd, list);
        }
        proof {
            assert forall|pr: usize| #[trigger] promo_ok(board.side, sq as int, pr) implies gen_move(board.position(),
                spec_create_move(sq, fwd, 0, pr, 0)) by {
                lemma_create_move(sq, fwd, 0, pr, 0);
                let a = spec_create_move(sq, fwd, 0, pr, 0);
                assert(pawn_move(p, a));
            }
            lemma_pawn_adds_ok(board, ol, *list, sq, fwd, 0, white, false, false);
            lemma_pawn_adds_class(board, ol, *list, sq, fwd, 0, white, false);
            if list.length < 255 {
                lemma_pawn_adds_cover(board, ol, *list, sq, fwd, 0, white, false);
            }
        }
        let ghost l2 = *list;
        let start_rank: usize = if white { 1 } else { 6 };
        let dbl: usize = if white { sq + 20 } else { sq - 20 };
        if ranks_from_120(sq) == start_rank && board.board[dbl] == Pieces::Empty {
            let a: usize = create_move(sq, dbl, 0, 0, X2_FLAG);
            add_quiet_move(a, board, list);
            proof {
                assert(pawn_move(p, a));
                if l2.length < 255 {
                    assert(list.moves[l2.length as int].action == a);
                }
                lemma_chain(board, ol, l2, *list, false);
                assert forall|i: int, j: int| #![trigger list.moves[i], list.moves[j]] ol.length <= i < l2.length <= j
                    < list.length implies list.moves[i].action != list.moves[j].action by {
                    assert(list.moves[i] == l2.moves[i]);
                }
                lemma_distinct_join(l2, *list, ol.length as int);
                assert forall|i: int| ol.length <= i < list.length implies spec_from_sq(#[trigger] list.moves[i].action)
                    == sq && (spec_to_sq(list.moves[i].action) == sq + pawn_fwd(board.side) || spec_to_sq(
                    list.moves[i].action) == sq + 2 * pawn_fwd(board.side)) && list.moves[i].action & CAST_FLAG == 0 by {
                    if i < l2.length {
                        assert(list.moves[i] == l2.moves[i]);
                    }
                }
                if list.length < 255 {
                    assert forall|m: usize| #[trigger] owed(board, m, false) && spec_from_sq(m) == sq && (spec_to_sq(m)
                        == sq + pawn_fwd(board.side) || spec_to_sq(m) == sq + 2 * pawn_fwd(board.side)) implies holds_from(
                        *list, ol.length as int, m) by {
                        lemma_pawn_owed(board, m, false);
                        if spec_to_sq(m) == sq + pawn_fwd(board.side) {
                            assert(holds_from(l2, ol.length as int, m));
                            lemma_holds_mono(l2, *list, ol.length as int, ol.length as int, m);
                        } else {
                            assert(list.moves[l2.length as int].action == m);
                        }
                    }
                }
            }
        } else {
            proof {
                if list.length < 255 {
                    assert forall|m: usize| #[trigger] owed(board, m, false) && spec_from_sq(m) == sq && (spec_to_sq(m)
                        == sq + pawn_fwd(board.side) || spec_to_sq(m) == sq + 2 * pawn_fwd(board.side)) implies holds_from(
                        *list, ol.length as int, m) by {
                        lemma_pawn_owed(board, m, false);
                    }
                }
            }
        }
    } else {
        proof {
            assert forall|m: usize| #[trigger] owed(board, m, false) && spec_from_sq(m) == sq && (spec_to_sq(m) == sq
                + pawn_fwd(board.side) || spec_to_sq(m) == sq + 2 * pawn_fwd(board.side)) implies holds_from(*list,
                ol.length as int, m) by {
                lemma_pawn_owed(board, m, false);
            }
        }
    }
}

/// The captures of the pawn on `sq` on the diagonal square `t`: taking a
/// piece of the other side, with every promotion from the last but one
/// rank, or taking en passant.
fn gen_pawn_diag(board: &BoardStructure, list: &mut MoveListStructure, sq: usize, t: usize, captures_only: bool)
    requires
        board.gen_ok(),
        captures_only || board.ply < 64,
        on_board(sq as int),
        board.board[sq as int] as usize == own_pawn(board.side),
        t == sq + pawn_fwd(board.side) - 1 || t == sq + pawn_fwd(board.side) + 1,
        old(list).length <= 255,
    ensures
        extends(*old(list), *final(list)),
        appended_ok(board, *old(list), *final(list), captures_only),
        final(list).length < 255 ==> forall|a: usize| #[trigger] owed(board, a, captures_only) && spec_from_sq(a) == sq
            && spec_to_sq(a) == t ==> holds_from(*final(list), old(list).length as int, a),
        distinct_from(*final(list), old(list).length as int),
        forall|i: int| old(list).length <= i < final(list).length ==> spec_from_sq(#[trigger] final(list).moves[i].action)
            == sq && spec_to_sq(final(list).moves[i].action) == t && final(list).moves[i].action & CAST_FLAG == 0,
{
    let ghost ol = *list;
    let ghost p = board.position();
    let white: bool = board.side == Players::White;
    let piece: Pieces = board.board[t];
    if piece != Pieces::OffLimits {
        let opp_color: Players = if white { Players::Black } else { Players::White };
        if color_mask(piece as usize) == opp_color {
            if white {
                add_wpawn_cap_move(board, sq, t, piece as usize, list);
            } else {
                add_bpawn_cap_move(board, sq, t, piece as usize, list);
            }
            proof {
                assert forall|pr: usize| #[trigger] promo_ok(board.side, sq as int, pr) implies gen_move(board.position(),
                    spec_create_move(sq, t, piece as usize, pr, 0)) by {
                    lemma_create_move(sq, t, piece as usize, pr, 0);
                    let a = spec_create_move(sq, t, piece as usize, pr, 0);
                    assert(pawn_move(p, a));
                }
                lemma_pawn_adds_ok(board, ol, *list, sq, t, piece as usize, white, true, captures_only);
                lemma_pawn_adds_class(board, ol, *list, sq, t, piece as usize, white, true);
                if list.length < 255 {
                    lemma_pawn_adds_cover(board, ol, *list, sq, t, piece as usize, white, true);
                }
            }
        }
        let ghost l2 = *list;
        if t == board.en_pas && t != NO_SQ {
            let a: usize = create_move(sq, t, 0, 0, EP_FLAG);
            add_en_pas_move(a, list);
            proof {
                assert(pawn_move(p, a));
                if l2.length < 255 {
                    assert(list.moves[l2.length as int].action == a);
                }
                lemma_chain(board, ol, l2, *list, captures_only);
                assert forall|i: int, j: int| #![trigger list.moves[i], list.moves[j]] ol.length <= i < l2.length <= j
                    < list.length implies list.moves[i].action != list.moves[j].action by {
                    assert(list.moves[i] == l2.moves[i]);
                }
                lemma_distinct_join(l2, *list, ol.length as int);
                assert forall|i: int| ol.length <= i < list.length implies spec_from_sq(#[trigger] list.moves[i].action)
                    == sq && spec_to_sq(list.moves[i].action) == t && list.moves[i].action & CAST_FLAG == 0 by {
                    if i < l2.length {
                        assert(list.moves[i] == l2.moves[i]);
                    }
                }
            }
        }
        proof {
            if list.length < 255 {
                assert forall|m: usize| #[trigger] owed(board, m, captures_only) && spec_from_sq(m) == sq && spec_to_sq(m)
                    == t implies holds_from(*list, ol.length as int, m) by {
                    lemma_pawn_owed(board, m, captures_only);
                    if m == spec_create_move(sq, t, 0, 0, EP_FLAG) && t == board.en_pas && t != NO_SQ {
                        assert(list.moves[l2.length as int].action == m);
                    } else {
                        assert(spec_color(piece as usize) == (if white { Players::Black } else { Players::White }));
                        assert(holds_from(l2, ol.length as int, m));
                        lemma_holds_mono(l2, *list, ol.length as int, ol.length as int, m);
                    }
                }
            }
        }
    } else {
        proof {
            assert forall|m: usize| #[trigger] owed(board, m, captures_only) && spec_from_sq(m) == sq && spec_to_sq(m) == t
                implies holds_from(*list, ol.length as int, m) by {
                lemma_pawn_owed(board, m, captures_only);
            }
        }
    }
}

/// Pseudo legal moves (or captures) of the pawns of the side to move.
fn gen_pawn_moves(board: &BoardStructure, list: &mut MoveListStructure, captures_only: bool)
    requires
        board.gen_ok(),
        captures_only || board.ply < 64,
        old(list).length <= 255,
    ensures
        extends(*old(list), *final(list)),
        appended_ok(board, *old(list), *final(list), captures_only),
        final(list).length < 255 ==> forall|a: usize| #[trigger] owed(board, a, captures_only) && board.board[spec_from_sq(
            a) as int] as usize == own_pawn(board.side) ==> holds_from(*final(list), old(list).length as int, a),
        distinct_from(*final(list), old(list).length as int),
        forall|i: int| old(list).length <= i < final(list).length ==> board.board[spec_from_sq(
            #[trigger] final(list).moves[i].action) as int] as usize == own_pawn(board.side) && final(list).moves[i].action
            & CAST_FLAG == 0,
{
    let ghost ol = *list;
    let ghost p = board.position();
    let white: bool = board.side == Players::White;
    let pawn: usize = if white { 1 } else { 7 };
    let n: usize = board.num_pieces[pawn];
    proof {
        lemma_list_len(board, pawn as int);
    }
    let mut piece_num: usize = 0;
    while piece_num < n
        invariant
            board.gen_ok(),
            captures_only || board.ply < 64,
            p == board.position(),
            white == (board.side == Players::White),
            pawn == own_pawn(board.side),
            n == board.num_pieces[pawn as int],
            n <= 10,
            piece_num <= n,
            ol.length <= 255,
            extends(ol, *list),
            appended_ok(board, ol, *list, captures_only),
            list.length < 255 ==> forall|a: usize| #[trigger] owed(board, a, captures_only) && (exists|i: int|
                0 <= i < piece_num && board.piece_list[pawn as int][i] == spec_from_sq(a)) ==> holds_from(*list,
                ol.length as int, a),
            distinct_from(*list, ol.length as int),
            forall|i: int| ol.length <= i < list.length ==> (exists|k: int| 0 <= k < piece_num
                && board.piece_list[pawn as int][k] == spec_from_sq(#[trigger] list.moves[i].action))
                && list.moves[i].action & CAST_FLAG == 0,
        decreases n - piece_num,
    {
        let sq: usize = board.piece_list[pawn][piece_num];
        proof {
            lemma_list_entry(board, pawn as int, piece_num as int);
        }
        let ghost l0 = *list;
        proof {
            assert forall|i: int| ol.length <= i < l0.length implies spec_from_sq(#[trigger] l0.moves[i].action) != sq by {
                let k = choose|k: int| 0 <= k < piece_num && board.piece_list[pawn as int][k] == spec_from_sq(
                    l0.moves[i].action);
                crate::model::lemma_list_distinct(board, pawn as int, k, piece_num as int);
            }
        }
        if !captures_only {
            gen_pawn_push(board, list, sq);
            proof {
                lemma_chain(board, ol, l0, *list, captures_only);
                assert forall|i: int, j: int| #![trigger list.moves[i], list.moves[j]] ol.length <= i < l0.length <= j
                    < list.length implies list.moves[i].action != list.moves[j].action by {
                    assert(list.moves[i] == l0.moves[i]);
                    assert(spec_from_sq(l0.moves[i].action) != sq);
                }
                lemma_distinct_join(l0, *list, ol.length as int);
            }
        }
        let ghost l1 = *list;
        let t1: usize = if white { sq + 9 } else { sq - 11 };
        gen_pawn_diag(board, list, sq, t1, captures_only);
        proof {
            lemma_chain(board, ol, l1, *list, captures_only);
            assert forall|i: int, j: int| #![trigger list.moves[i], list.moves[j]] ol.length <= i < l1.length <= j
                < list.length implies list.moves[i].action != list.moves[j].action by {
                assert(list.moves[i] == l1.moves[i]);
                if i < l0.length {
                    assert(l1.moves[i] == l0.moves[i]);
                    assert(spec_from_sq(l0.moves[i].action) != sq);
                }
            }
            lemma_distinct_join(l1, *list, ol.length as int);
        }
        let ghost l2 = *list;
        let t2: usize = if white { sq + 11 } else { sq - 9 };
        gen_pawn_diag(board, list, sq, t2, captures_only);
        proof {
            lemma_chain(board, ol, l2, *list, captures_only);
            assert forall|i: int, j: int| #![trigger list.moves[i], list.moves[j]] ol.length <= i < l2.length <= j
                < list.length implies list.moves[i].action != list.moves[j].action by {
                assert(list.moves[i] == l2.moves[i]);
                if i < l1.length {
                    assert(l2.moves[i] == l1.moves[i]);
                    if i < l0.length {
                        assert(l1.moves[i] == l0.moves[i]);
                        assert(spec_from_sq(l0.moves[i].action) != sq);
                    }
                }
            }
            lemma_distinct_join(l2, *list, ol.length as int);
            assert forall|i: int| ol.length <= i < list.length implies (exists|k: int| 0 <= k < piece_num + 1
                && board.piece_list[pawn as int][k] == spec_from_sq(#[trigger] list.moves[i].action))
                && list.moves[i].action & CAST_FLAG == 0 by {
                if i < l2.length {
                    assert(list.moves[i] == l2.moves[i]);
                    if i < l1.length {
                        assert(l2.moves[i] == l1.moves[i]);
                        if i < l0.length {
                            assert(l1.moves[i] == l0.moves[i]);
                        } else {
                            assert(board.piece_list[pawn as int][piece_num as int] == spec_from_sq(list.moves[i].action));
                        }
                    } else {
                        assert(board.piece_list[pawn as int][piece_num as int] == spec_from_sq(list.moves[i].action));
                    }
                } else {
                    assert(board.piece_list[pawn as int][piece_num as int] == spec_from_sq(list.moves[i].action));
                }
            }
            if list.length < 255 {
                assert forall|a: usize| #[trigger] owed(board, a, captures_only) && (exists|i: int|
                    0 <= i < piece_num + 1 && board.piece_list[pawn as int][i] == spec_from_sq(a)) implies holds_from(
                    *list, ol.length as int, a) by {
                    let i = choose|i: int| 0 <= i < piece_num + 1 && board.piece_list[pawn as int][i] == spec_from_sq(a);
                    if i < piece_num {
                        assert(holds_from(l0, ol.length as int, a));
                        lemma_chain(board, l0, l1, l2, captures_only);
                        lemma_chain(board, l0, l2, *list, captures_only);
                        lemma_holds_mono(l0, *list, ol.length as int, ol.length as int, a);
                    } else {
                        lemma_pawn_owed(board, a, captures_only);
                        let t = spec_to_sq(a);
                        if t == t1 {
                            lemma_holds_mono(l2, *list, l1.length as int, ol.length as int, a);
                        } else if t == t2 {
                            lemma_holds_mono(*list, *list, l2.length as int, ol.length as int, a);
                        } else {
                            assert(!captures_only);
                            lemma_chain(board, l1, l2, *list, captures_only);
                            lemma_holds_mono(l1, *list, l0.length as int, ol.length as int, a);
                        }
                    }
                }
            }
        }
        piece_num = piece_num + 1;
    }
    proof {
        assert forall|i: int| ol.length <= i < list.length implies board.board[spec_from_sq(
            #[trigger] list.moves[i].action) as int] as usize == own_pawn(board.side) && list.moves[i].action & CAST_FLAG
            == 0 by {
            let k = choose|k: int| 0 <= k < n && board.piece_list[pawn as int][k] == spec_from_sq(list.moves[i].action);
            lemma_list_entry(board, pawn as int, k);
        }
        if list.length < 255 {
            assert forall|a: usize| #[trigger] owed(board, a, captures_only) && board.board[spec_from_sq(a) as int] as usize
                == own_pawn(board.side) implies holds_from(*list, ol.length as int, a) by {
                lemma_owed_parts(board, a, captures_only);
                crate::model::lemma_listed(board, pawn as int, spec_from_sq(a) as int);
            }
        }
    }
}

/// What an owed knight or king step is: a step to a playing square that is
/// empty (not for captures only) or holds a piece of the other side.
pub proof fn lemma_step_owed(b: &BoardStructure, a: usize, co: bool, ds: Seq<int>)
    requires
        b.gen_ok(),
        owed(b, a, co),
        a & CAST_FLAG == 0,
        (spec_kind(b.board[spec_from_sq(a) as int] as usize) == 1 && ds == knight_dirs()) || (spec_kind(
            b.board[spec_from_sq(a) as int] as usize) == 5 && ds == king_dirs()),
    ensures
        ({
            let f = spec_from_sq(a);
            let t = spec_to_sq(a);
            let s = b.board@;
            &&& exists|i: int| 0 <= i < ds.len() && t == f + #[trigger] ds[i]
            &&& s[t as int] != Pieces::OffLimits
            &&& (s[t as int] == Pieces::Empty ==> !co && a == spec_create_move(f, t, 0, 0, 0))
            &&& (s[t as int] != Pieces::Empty ==> spec_color(s[t as int] as usize) == crate::rules::opp(b.side) && a
                == spec_create_move(f, t, s[t as int] as usize, 0, 0))
        }),
{
    lemma_owed_parts(b, a, co);
    crate::rules::lemma_flag_facts(a);
    assert(step_move(b.position(), a, ds));
}

/// Pseudo legal moves (or captures) of the knights (or the kings) of the
/// side to move; `piece` is the side's knight or king.
fn gen_step_moves(board: &BoardStructure, list: &mut MoveListStructure, piece: usize, captures_only: bool)
    requires
        board.gen_ok(),
        captures_only || board.ply < 64,
        piece == 2 || piece == 6 || piece == 8 || piece == 12,
        spec_color(piece) == board.side,
        old(list).length <= 255,
    ensures
        extends(*old(list), *final(list)),
        appended_ok(board, *old(list), *final(list), captures_only),
        final(list).length < 255 ==> forall|a: usize| #[trigger] owed(board, a, captures_only) && board.board[spec_from_sq(
            a) as int] as usize == piece && a & CAST_FLAG == 0 ==> holds_from(*final(list), old(list).length as int, a),
        distinct_from(*final(list), old(list).length as int),
        forall|i: int| old(list).length <= i < final(list).length ==> board.board[spec_from_sq(
            #[trigger] final(list).moves[i].action) as int] as usize == piece && final(list).moves[i].action & CAST_FLAG
            == 0,
{
    let ghost ol = *list;
    let ghost p = board.position();
    let side: Players = board.side;
    let king: bool = piece == 6 || piece == 12;
    let dirs: [i8; 8] = if king { [-1, -10, 1, 10, -9, -11, 11, 9] } else { [-8, -19, -21, -12, 8, 19, 21, 12] };
    let ghost ds = if king { king_dirs() } else { knight_dirs() };
    assert(dirs@.map_values(|d: i8| d as int) =~= ds);
    let n: usize = board.num_pieces[piece];
    proof {
        lemma_list_len(board, piece as int);
    }
    let mut piece_num: usize = 0;
    while piece_num < n
        invariant
            board.gen_ok(),
            captures_only || board.ply < 64,
            p == board.position(),
            side == board.side,
            piece == 2 || piece == 6 || piece == 8 || piece == 12,
            spec_color(piece) == side,
            king == (piece == 6 || piece == 12),
            ds == (if king { king_dirs() } else { knight_dirs() }),
            ds == dirs@.map_values(|d: i8| d as int),
            n == board.num_pieces[piece as int],
            n <= 10,
            piece_num <= n,
            ol.length <= 255,
            extends(ol, *list),
            appended_ok(board, ol, *list, captures_only),
            list.length < 255 ==> forall|a: usize| #[trigger] owed(board, a, captures_only) && a & CAST_FLAG == 0 && (
            exists|k: int| 0 <= k < piece_num && board.piece_list[piece as int][k] == spec_from_sq(a)) ==> holds_from(
                *list, ol.length as int, a),
            distinct_from(*list, ol.length as int),
            forall|q: int| ol.length <= q < list.length ==> (exists|k: int| 0 <= k < piece_num
                && board.piece_list[piece as int][k] == spec_from_sq(#[trigger] list.moves[q].action))
                && list.moves[q].action & CAST_FLAG == 0,
        decreases n - piece_num,
    {
        let sq: usize = board.piece_list[piece][piece_num];
        proof {
            lemma_list_entry(board, piece as int, piece_num as int);
        }
        let ghost start = *list;
        let mut i: usize = 0;
        while i < 8
            invariant
                board.gen_ok(),
                captures_only || board.ply < 64,
                p == board.position(),
                side == board.side,
                piece == 2 || piece == 6 || piece == 8 || piece == 12,
                spec_color(piece) == side,
                king == (piece == 6 || piece == 12),
                ds == (if king { king_dirs() } else { knight_dirs() }),
                ds == dirs@.map_values(|d: i8| d as int),
                on_board(sq as int),
                p.squares[sq as int] as usize == piece,
                i <= 8,
                ol.length <= start.length,
                extends(ol, start),
                extends(start, *list),
                appended_ok(board, ol, *list, captures_only),
                list.length < 255 ==> forall|a: usize| #[trigger] owed(board, a, captures_only) && a & CAST_FLAG == 0
                    && spec_from_sq(a) == sq && (exists|j: int| 0 <= j < i && spec_to_sq(a) == sq + ds[j])
                    ==> holds_from(*list, start.length as int, a),
                distinct_from(*list, start.length as int),
                forall|q: int| start.length <= q < list.length ==> spec_from_sq(#[trigger] list.moves[q].action) == sq
                    && (exists|j: int| 0 <= j < i && spec_to_sq(list.moves[q].action) == sq + ds[j])
                    && list.moves[q].action & CAST_FLAG == 0,
            decreases 8 - i,
        {
            assert(ds[i as int] == dirs[i as int] as int);
            let new_sq: usize = direc_add(sq, dirs[i]);
            let target: Pieces = board.board[new_sq];
            let ghost l1 = *list;
            if target != Pieces::OffLimits {
                if target != Pieces::Empty {
                    if color_mask(target as usize) != side {
                        let a: usize = create_move(sq, new_sq, target as usize, 0, 0);
                        add_loud_move(a, board, list);
                        proof {
                            assert(crate::rules::step_move(p, a, ds));
                            assert(spec_from_sq(a) == sq);
                            assert(p.squares[spec_from_sq(a) as int] as usize == piece);
                            assert(king ==> crate::statics::spec_kind(piece) == 5);
                            assert(!king ==> crate::statics::spec_kind(piece) == 1);
                            assert(gen_move(p, a));
                            if l1.length < 255 {
                                assert(list.moves[l1.length as int].action == a);
                            }
                            lemma_chain(board, ol, l1, *list, captures_only);
                        }
                    }
                } else if !captures_only {
                    let a: usize = create_move(sq, new_sq, 0, 0, 0);
                    add_quiet_move(a, board, list);
                    proof {
                        assert(crate::rules::step_move(p, a, ds));
                        assert(spec_from_sq(a) == sq);
                        assert(gen_move(p, a));
                        if l1.length < 255 {
                            assert(list.moves[l1.length as int].action == a);
                        }
                        lemma_chain(board, ol, l1, *list, captures_only);
                    }
                }
            }
            proof {
                assert(extends(l1, *list));
                assert(list.length <= l1.length + 1);
                assert(list.length == l1.length + 1 ==> spec_from_sq(list.moves[l1.length as int].action) == sq
                    && spec_to_sq(list.moves[l1.length as int].action) == new_sq && list.moves[l1.length as int].action
                    & CAST_FLAG == 0);
                assert forall|q: int, r: int| #![trigger list.moves[q], list.moves[r]] start.length <= q < l1.length <= r
                    < list.length implies list.moves[q].action != list.moves[r].action by {
                    assert(list.moves[q] == l1.moves[q]);
                    let j = choose|j: int| 0 <= j < i && spec_to_sq(l1.moves[q].action) == sq + ds[j];
                    if list.moves[q].action == list.moves[r].action {
                        lemma_dirs_distinct(ds, j, i as int);
                    }
                }
                lemma_distinct_join(l1, *list, start.length as int);
                assert forall|q: int| start.length <= q < list.length implies spec_from_sq(#[trigger] list.moves[q].action)
                    == sq && (exists|j: int| 0 <= j < i + 1 && spec_to_sq(list.moves[q].action) == sq + ds[j])
                    && list.moves[q].action & CAST_FLAG == 0 by {
                    if q < l1.length {
                        assert(list.moves[q] == l1.moves[q]);
                    } else {
                        assert(spec_to_sq(list.moves[q].action) == sq + ds[i as int]);
                    }
                }
                if list.length < 255 {
                    assert forall|a: usize| #[trigger] owed(board, a, captures_only) && a & CAST_FLAG == 0 && spec_from_sq(
                        a) == sq && (exists|j: int| 0 <= j < i + 1 && spec_to_sq(a) == sq + ds[j]) implies holds_from(
                        *list, start.length as int, a) by {
                        let j = choose|j: int| 0 <= j < i + 1 && spec_to_sq(a) == sq + ds[j];
                        if j < i {
                            lemma_holds_mono(l1, *list, start.length as int, start.length as int, a);
                        } else {
                            assert(king ==> crate::statics::spec_kind(piece) == 5);
                            assert(!king ==> crate::statics::spec_kind(piece) == 1);
                            lemma_step_owed(board, a, captures_only, ds);
                            assert(spec_to_sq(a) == new_sq);
                            assert(list.moves[l1.length as int].action == a);
                        }
                    }
                }
            }
            i = i + 1;
        }
        proof {
            lemma_chain(board, ol, start, *list, captures_only);
            assert forall|q: int, r: int| #![trigger list.moves[q], list.moves[r]] ol.length <= q < start.length <= r
                < list.length implies list.moves[q].action != list.moves[r].action by {
                assert(list.moves[q] == start.moves[q]);
                let k = choose|k: int| 0 <= k < piece_num && board.piece_list[piece as int][k] == spec_from_sq(
                    start.moves[q].action);
                crate::model::lemma_list_distinct(board, piece as int, k, piece_num as int);
            }
            lemma_distinct_join(start, *list, ol.length as int);
            assert forall|q: int| ol.length <= q < list.length implies (exists|k: int| 0 <= k < piece_num + 1
                && board.piece_list[piece as int][k] == spec_from_sq(#[trigger] list.moves[q].action))
                && list.moves[q].action & CAST_FLAG == 0 by {
                if q < start.length {
                    assert(list.moves[q] == start.moves[q]);
                } else {
                    assert(board.piece_list[piece as int][piece_num as int] == spec_from_sq(list.moves[q].action));
                }
            }
            if list.length < 255 {
                assert forall|a: usize| #[trigger] owed(board, a, captures_only) && a & CAST_FLAG == 0 && (exists|k: int|
                    0 <= k < piece_num + 1 && board.piece_list[piece as int][k] == spec_from_sq(a)) implies holds_from(
                    *list, ol.length as int, a) by {
                    let k = choose|k: int| 0 <= k < piece_num + 1 && board.piece_list[piece as int][k] == spec_from_sq(a);
                    if k < piece_num {
                        lemma_holds_mono(start, *list, ol.length as int, ol.length as int, a);
                    } else {
                        assert(king ==> crate::statics::spec_kind(piece) == 5);
                        assert(!king ==> crate::statics::spec_kind(piece) == 1);
                        lemma_step_owed(board, a, captures_only, ds);
                        lemma_holds_mono(*list, *list, start.length as int, ol.length as int, a);
                    }
                }
            }
        }
        piece_num = piece_num + 1;
    }
    proof {
        assert forall|q: int| ol.length <= q < list.length implies board.board[spec_from_sq(
            #[trigger] list.moves[q].action) as int] as usize == piece && list.moves[q].action & CAST_FLAG == 0 by {
            let k = choose|k: int| 0 <= k < n && board.piece_list[piece as int][k] == spec_from_sq(list.moves[q].action);
            lemma_list_entry(board, piece as int, k);
        }
        if list.length < 255 {
            assert forall|a: usize| #[trigger] owed(board, a, captures_only) && board.board[spec_from_sq(a) as int] as usize
                == piece && a & CAST_FLAG == 0 implies holds_from(*list, ol.length as int, a) by {
                lemma_owed_parts(board, a, captures_only);
                crate::model::lemma_listed(board, piece as int, spec_from_sq(a) as int);
            }
        }
    }
}

/// The directions of the slider that makes move `a` in `b`.
pub open spec fn mover_dirs(b: &BoardStructure, a: usize) -> Seq<int> {
    slider_dirs(spec_kind(b.board@[spec_from_sq(a) as int] as usize))
}

/// What an owed slide of a bishop, rook or queen is: along one of its
/// directions over empty squares, to a square that is empty (not for
/// captures only) or holds a piece of the other side.
#[verifier::spinoff_prover]
pub proof fn lemma_slide_owed(b: &BoardStructure, a: usize, co: bool)
    requires
        b.gen_ok(),
        owed(b, a, co),
        2 <= spec_kind(b.board@[spec_from_sq(a) as int] as usize) <= 4,
    ensures
        exists|i: int| 0 <= i < mover_dirs(b, a).len() && on_ray(b.board@, spec_from_sq(a) as int,
            #[trigger] mover_dirs(b, a)[i], spec_to_sq(a) as int),
        b.board@[spec_to_sq(a) as int] != Pieces::OffLimits,
        b.board@[spec_to_sq(a) as int] == Pieces::Empty ==> !co && a == spec_create_move(spec_from_sq(a), spec_to_sq(a), 0,
            0, 0),
        b.board@[spec_to_sq(a) as int] != Pieces::Empty ==> spec_color(b.board@[spec_to_sq(a) as int] as usize)
            == crate::rules::opp(b.side),
        b.board@[spec_to_sq(a) as int] != Pieces::Empty ==> a == spec_create_move(spec_from_sq(a), spec_to_sq(a),
            b.board@[spec_to_sq(a) as int] as usize, 0, 0),
{
    lemma_owed_parts(b, a, co);
    crate::rules::lemma_flag_facts(a);
    let p = b.position();
    let k = spec_kind(b.board@[spec_from_sq(a) as int] as usize);
    let ds = slider_dirs(k);
    assert(slide_move(p, a, ds));
    assert(crate::rules::target_ok(p, a));
    assert(crate::rules::plain(a));
    assert(a & 0x1C00000 == 0);
    assert(spec_promoted(a) == 0);
    assert(mover_dirs(b, a) == ds);
    let i = choose|i: int| 0 <= i < ds.len() && on_ray(p.squares, spec_from_sq(a) as int, #[trigger] ds[i], spec_to_sq(
        a) as int);
    assert(on_ray(b.board@, spec_from_sq(a) as int, mover_dirs(b, a)[i], spec_to_sq(a) as int));
    assert(b.board@[spec_to_sq(a) as int] != Pieces::OffLimits);
}

/// The moves (or captures) of the slider on `sq` along direction `d`,
/// which is its `j`-th direction: every empty square up to the first piece,
/// and that piece if it is the opponent's.
#[verifier::rlimit(40)]
#[verifier::spinoff_prover]
fn gen_ray(board: &BoardStructure, list: &mut MoveListStructure, sq: usize, d: i8, Ghost(j): Ghost<int>,
    captures_only: bool)
    requires
        board.gen_ok(),
        captures_only || board.ply < 64,
        on_board(sq as int),
        3 <= board.board[sq as int] as usize <= 5 || 9 <= board.board[sq as int] as usize <= 11,
        spec_color(board.board[sq as int] as usize) == board.side,
        0 <= j < slider_dirs(spec_kind(board.board[sq as int] as usize)).len(),
        slider_dirs(spec_kind(board.board[sq as int] as usize))[j] == d as int,
        old(list).length <= 255,
    ensures
        extends(*old(list), *final(list)),
        appended_ok(board, *old(list), *final(list), captures_only),
        final(list).length < 255 ==> forall|a: usize| #[trigger] owed(board, a, captures_only) && spec_from_sq(a) == sq
            && on_ray(board.board@, sq as int, d as int, spec_to_sq(a) as int) ==> holds_from(*final(list),
            old(list).length as int, a),
        distinct_from(*final(list), old(list).length as int),
        forall|q: int| old(list).length <= q < final(list).length ==> spec_from_sq(#[trigger] final(list).moves[q].action)
            == sq && on_ray(board.board@, sq as int, d as int, spec_to_sq(final(list).moves[q].action) as int) && on_board(
            spec_to_sq(final(list).moves[q].action) as int) && final(list).moves[q].action & CAST_FLAG == 0,
{
    let ghost ol = *list;
    let ghost p = board.position();
    let ghost s = p.squares;
    let ghost dd: int = d as int;
    let ghost piece = board.board[sq as int] as usize;
    let ghost kind = spec_kind(piece);
    let side: Players = board.side;
    assert(dd == -1 || dd == 1 || dd == -10 || dd == 10 || dd == -9 || dd == -11 || dd == 9 || dd == 11);
    let mut cur: usize = sq;
    let mut new_sq: usize = direc_add(sq, d);
    let mut target: Pieces = board.board[new_sq];
    proof {
        assert forall|a: usize| #[trigger] owed(board, a, captures_only) && spec_from_sq(a) == sq && on_ray(s, sq as int,
            dd, spec_to_sq(a) as int) && (if dd > 0 {
            spec_to_sq(a) < new_sq
        } else {
            spec_to_sq(a) > new_sq
        }) implies holds_from(*list, ol.length as int, a) by {
            lemma_on_ray_first(s, sq as int, dd, spec_to_sq(a) as int);
        }
    }
    while target == Pieces::Empty
        invariant
            board.gen_ok(),
            crate::rules::border_wf(s),
            captures_only || board.ply < 64,
            p == board.position(),
            s == p.squares,
            side == board.side,
            piece == s[sq as int] as usize,
            3 <= piece <= 5 || 9 <= piece <= 11,
            spec_color(piece) == side,
            kind == spec_kind(piece),
            0 <= j < slider_dirs(kind).len(),
            slider_dirs(kind)[j] == dd,
            dd == d as int,
            dd == -1 || dd == 1 || dd == -10 || dd == 10 || dd == -9 || dd == -11 || dd == 9 || dd == 11,
            on_board(sq as int),
            on_board(cur as int),
            new_sq == cur + dd,
            target == s[new_sq as int],
            on_ray(s, sq as int, dd, new_sq as int),
            ol.length <= 255,
            extends(ol, *list),
            appended_ok(board, ol, *list, captures_only),
            list.length < 255 ==> forall|a: usize| #[trigger] owed(board, a, captures_only) && spec_from_sq(a) == sq
                && on_ray(s, sq as int, dd, spec_to_sq(a) as int) && (if dd > 0 {
                spec_to_sq(a) < new_sq
            } else {
                spec_to_sq(a) > new_sq
            }) ==> holds_from(*list, ol.length as int, a),
            distinct_from(*list, ol.length as int),
            forall|q: int| ol.length <= q < list.length ==> spec_from_sq(#[trigger] list.moves[q].action) == sq && on_ray(
                s, sq as int, dd, spec_to_sq(list.moves[q].action) as int) && on_board(spec_to_sq(list.moves[q].action)
                as int) && (if dd > 0 {
                spec_to_sq(list.moves[q].action) < new_sq
            } else {
                spec_to_sq(list.moves[q].action) > new_sq
            }) && list.moves[q].action & CAST_FLAG == 0,
        decreases (if dd > 0 { 120 - cur } else { cur as int }),
    {
        proof {
            assert(on_board(new_sq as int));
        }
        let ghost l1 = *list;
        if !captures_only {
            let a: usize = create_move(sq, new_sq, 0, 0, 0);
            add_quiet_move(a, board, list);
            proof {
                assert(slider_dirs(kind)[j] == dd);
                assert(slide_move(p, a, slider_dirs(kind)));
                assert(gen_move(p, a));
                if l1.length < 255 {
                    assert(list.moves[l1.length as int].action == a);
                }
                lemma_chain(board, ol, l1, *list, captures_only);
            }
        }
        proof {
            assert(extends(l1, *list));
            assert(list.length <= l1.length + 1);
            assert(list.length == l1.length + 1 ==> spec_from_sq(list.moves[l1.length as int].action) == sq
                && spec_to_sq(list.moves[l1.length as int].action) == new_sq && list.moves[l1.length as int].action
                & CAST_FLAG == 0);
            assert forall|q: int, r: int| #![trigger list.moves[q], list.moves[r]] ol.length <= q < l1.length <= r
                < list.length implies list.moves[q].action != list.moves[r].action by {
                assert(list.moves[q] == l1.moves[q]);
            }
            lemma_distinct_join(l1, *list, ol.length as int);
            assert forall|q: int| ol.length <= q < list.length implies spec_from_sq(#[trigger] list.moves[q].action) == sq
                && on_ray(s, sq as int, dd, spec_to_sq(list.moves[q].action) as int) && on_board(spec_to_sq(
                list.moves[q].action) as int) && (if dd > 0 {
                spec_to_sq(list.moves[q].action) < new_sq + dd
            } else {
                spec_to_sq(list.moves[q].action) > new_sq + dd
            }) && list.moves[q].action & CAST_FLAG == 0 by {
                if q < l1.length {
                    assert(list.moves[q] == l1.moves[q]);
                }
            }
            if list.length < 255 {
                assert forall|a: usize| #[trigger] owed(board, a, captures_only) && spec_from_sq(a) == sq && on_ray(s,
                    sq as int, dd, spec_to_sq(a) as int) && (if dd > 0 {
                    spec_to_sq(a) < new_sq + dd
                } else {
                    spec_to_sq(a) > new_sq + dd
                }) implies holds_from(*list, ol.length as int, a) by {
                    lemma_owed_parts(board, a, captures_only);
                    lemma_on_ray_order(s, sq as int, dd, new_sq as int, spec_to_sq(a) as int);
                    if spec_to_sq(a) == new_sq {
                        lemma_slide_owed(board, a, captures_only);
                        assert(list.moves[l1.length as int].action == a);
                    } else {
                        if on_ray(s, new_sq as int, dd, spec_to_sq(a) as int) {
                            lemma_on_ray_first(s, new_sq as int, dd, spec_to_sq(a) as int);
                        }
                        lemma_holds_mono(l1, *list, ol.length as int, ol.length as int, a);
                    }
                }
            }
            lemma_on_ray_extend(s, sq as int, dd, new_sq as int);
        }
        cur = new_sq;
        new_sq = direc_add(cur, d);
        target = board.board[new_sq];
    }
    let ghost l2 = *list;
    if target != Pieces::OffLimits && color_mask(target as usize) != side {
        proof {
            assert(on_board(new_sq as int));
        }
        let a: usize = create_move(sq, new_sq, target as usize, 0, 0);
        add_loud_move(a, board, list);
        proof {
            assert(slider_dirs(kind)[j] == dd);
            assert(slide_move(p, a, slider_dirs(kind)));
            assert(gen_move(p, a));
            if l2.length < 255 {
                assert(list.moves[l2.length as int].action == a);
            }
            lemma_chain(board, ol, l2, *list, captures_only);
        }
    }
    proof {
        assert(extends(l2, *list));
        assert(list.length <= l2.length + 1);
        assert(list.length == l2.length + 1 ==> spec_from_sq(list.moves[l2.length as int].action) == sq && spec_to_sq(
            list.moves[l2.length as int].action) == new_sq && on_board(new_sq as int) && list.moves[l2.length as int].action
            & CAST_FLAG == 0);
        assert forall|q: int, r: int| #![trigger list.moves[q], list.moves[r]] ol.length <= q < l2.length <= r
            < list.length implies list.moves[q].action != list.moves[r].action by {
            assert(list.moves[q] == l2.moves[q]);
        }
        lemma_distinct_join(l2, *list, ol.length as int);
        assert forall|q: int| ol.length <= q < list.length implies spec_from_sq(#[trigger] list.moves[q].action) == sq
            && on_ray(board.board@, sq as int, d as int, spec_to_sq(list.moves[q].action) as int) && on_board(spec_to_sq(
            list.moves[q].action) as int) && list.moves[q].action & CAST_FLAG == 0 by {
            if q < l2.length {
                assert(list.moves[q] == l2.moves[q]);
            }
        }
        if list.length < 255 {
            assert forall|a: usize| #[trigger] owed(board, a, captures_only) && spec_from_sq(a) == sq && on_ray(
                board.board@, sq as int, d as int, spec_to_sq(a) as int) implies holds_from(*list, ol.length as int, a) by {
                lemma_owed_parts(board, a, captures_only);
                lemma_on_ray_order(s, sq as int, dd, new_sq as int, spec_to_sq(a) as int);
                if spec_to_sq(a) == new_sq {
                    lemma_slide_owed(board, a, captures_only);
                    assert(list.moves[l2.length as int].action == a);
                } else {
                    lemma_holds_mono(l2, *list, ol.length as int, ol.length as int, a);
                }
            }
        }
    }
}

/// Pseudo legal moves (or captures) of the bishops, rooks or queens of the
/// side to move; `piece` is one of these of the side.
fn gen_slide_moves(board: &BoardStructure, list: &mut MoveListStructure, piece: usize, captures_only: bool)
    requires
        board.gen_ok(),
        captures_only || board.ply < 64,
        3 <= piece <= 5 || 9 <= piece <= 11,
        spec_color(piece) == board.side,
        old(list).length <= 255,
    ensures
        extends(*old(list), *final(list)),
        appended_ok(board, *old(list), *final(list), captures_only),
        final(list).length < 255 ==> forall|a: usize| #[trigger] owed(board, a, captures_only) && board.board[spec_from_sq(
            a) as int] as usize == piece ==> holds_from(*final(list), old(list).length as int, a),
        distinct_from(*final(list), old(list).length as int),
        forall|i: int| old(list).length <= i < final(list).length ==> board.board[spec_from_sq(
            #[trigger] final(list).moves[i].action) as int] as usize == piece && final(list).moves[i].action & CAST_FLAG
            == 0,
{
    let ghost ol = *list;
    let ghost p = board.position();
    let ghost s = p.squares;
    let kind: usize = kind_of(piece);
    let dirs: [i8; 8] = if kind == 2 {
        [-9, -11, 11, 9, 0, 0, 0, 0]
    } else if kind == 3 {
        [-1, -10, 1, 10, 0, 0, 0, 0]
    } else {
        [-1, -10, 1, 10, -9, -11, 11, 9]
    };
    let ndirs: usize = if kind == 4 { 8 } else { 4 };
    let ghost ds = slider_dirs(kind);
    assert(ds.len() == ndirs);
    assert(forall|i: int| 0 <= i < ndirs ==> #[trigger] ds[i] == dirs[i] as int);
    let n: usize = board.num_pieces[piece];
    proof {
        lemma_list_len(board, piece as int);
    }
    let mut piece_num: usize = 0;
    while piece_num < n
        invariant
            board.gen_ok(),
            captures_only || board.ply < 64,
            p == board.position(),
            s == p.squares,
            3 <= piece <= 5 || 9 <= piece <= 11,
            spec_color(piece) == board.side,
            kind == spec_kind(piece),
            ds == slider_dirs(kind),
            ds.len() == ndirs,
            forall|i: int| 0 <= i < ndirs ==> #[trigger] ds[i] == dirs[i] as int,
            n == board.num_pieces[piece as int],
            n <= 10,
            piece_num <= n,
            ol.length <= 255,
            extends(ol, *list),
            appended_ok(board, ol, *list, captures_only),
            list.length < 255 ==> forall|a: usize| #[trigger] owed(board, a, captures_only) && (exists|k: int|
                0 <= k < piece_num && board.piece_list[piece as int][k] == spec_from_sq(a)) ==> holds_from(*list,
                ol.length as int, a),
            distinct_from(*list, ol.length as int),
            forall|q: int| ol.length <= q < list.length ==> (exists|k: int| 0 <= k < piece_num
                && board.piece_list[piece as int][k] == spec_from_sq(#[trigger] list.moves[q].action))
                && list.moves[q].action & CAST_FLAG == 0,
        decreases n - piece_num,
    {
        let sq: usize = board.piece_list[piece][piece_num];
        proof {
            lemma_list_entry(board, piece as int, piece_num as int);
        }
        let ghost start = *list;
        let mut i: usize = 0;
        while i < ndirs
            invariant
                board.gen_ok(),
                captures_only || board.ply < 64,
                p == board.position(),
                s == p.squares,
                3 <= piece <= 5 || 9 <= piece <= 11,
                spec_color(piece) == board.side,
                kind == spec_kind(piece),
                ds == slider_dirs(kind),
                ds.len() == ndirs,
                forall|i: int| 0 <= i < ndirs ==> #[trigger] ds[i] == dirs[i] as int,
                on_board(sq as int),
                s[sq as int] as usize == piece,
                i <= ndirs,
                ol.length <= start.length,
                extends(ol, start),
                extends(start, *list),
                appended_ok(board, ol, *list, captures_only),
                list.length < 255 ==> forall|a: usize| #[trigger] owed(board, a, captures_only) && spec_from_sq(a) == sq
                    && (exists|jj: int| 0 <= jj < i && on_ray(s, sq as int, ds[jj], spec_to_sq(a) as int)) ==> holds_from(
                    *list, start.length as int, a),
                distinct_from(*list, start.length as int),
                forall|q: int| start.length <= q < list.length ==> spec_from_sq(#[trigger] list.moves[q].action) == sq
                    && (exists|jj: int| 0 <= jj < i && on_ray(s, sq as int, ds[jj], spec_to_sq(list.moves[q].action) as int))
                    && on_board(spec_to_sq(list.moves[q].action) as int) && list.moves[q].action & CAST_FLAG == 0,
            decreases ndirs - i,
        {
            let ghost l1 = *list;
            proof {
                assert(ds[i as int] == dirs[i as int] as int);
            }
            gen_ray(board, list, sq, dirs[i], Ghost(i as int), captures_only);
            proof {
                lemma_chain(board, ol, l1, *list, captures_only);
                assert forall|q: int, r: int| #![trigger list.moves[q], list.moves[r]] start.length <= q < l1.length <= r
                    < list.length implies list.moves[q].action != list.moves[r].action by {
                    assert(list.moves[q] == l1.moves[q]);
                    let jj = choose|jj: int| 0 <= jj < i && on_ray(s, sq as int, ds[jj], spec_to_sq(l1.moves[q].action)
                        as int);
                    if list.moves[q].action == list.moves[r].action {
                        lemma_slider_dir(kind, jj);
                        lemma_slider_dir(kind, i as int);
                        lemma_rays_apart(s, sq as int, ds[jj], ds[i as int], spec_to_sq(list.moves[r].action) as int);
                        lemma_dirs_distinct(ds, jj, i as int);
                    }
                }
                lemma_distinct_join(l1, *list, start.length as int);
                assert forall|q: int| start.length <= q < list.length implies spec_from_sq(#[trigger] list.moves[q].action)
                    == sq && (exists|jj: int| 0 <= jj < i + 1 && on_ray(s, sq as int, ds[jj], spec_to_sq(
                    list.moves[q].action) as int)) && on_board(spec_to_sq(list.moves[q].action) as int)
                    && list.moves[q].action & CAST_FLAG == 0 by {
                    if q < l1.length {
                        assert(list.moves[q] == l1.moves[q]);
                    } else {
                        assert(on_ray(s, sq as int, ds[i as int], spec_to_sq(list.moves[q].action) as int));
                    }
                }
                if list.length < 255 {
                    assert forall|a: usize| #[trigger] owed(board, a, captures_only) && spec_from_sq(a) == sq && (exists|
                        jj: int| 0 <= jj < i + 1 && on_ray(s, sq as int, ds[jj], spec_to_sq(a) as int)) implies holds_from(
                        *list, start.length as int, a) by {
                        let jj = choose|jj: int| 0 <= jj < i + 1 && on_ray(s, sq as int, ds[jj], spec_to_sq(a) as int);
                        if jj < i {
                            lemma_holds_mono(l1, *list, start.length as int, start.length as int, a);
                        } else {
                            lemma_holds_mono(*list, *list, l1.length as int, start.length as int, a);
                        }
                    }
                }
            }
            i = i + 1;
        }
        proof {
            lemma_chain(board, ol, start, *list, captures_only);
            assert forall|q: int, r: int| #![trigger list.moves[q], list.moves[r]] ol.length <= q < start.length <= r
                < list.length implies list.moves[q].action != list.moves[r].action by {
                assert(list.moves[q] == start.moves[q]);
                let k = choose|k: int| 0 <= k < piece_num && board.piece_list[piece as int][k] == spec_from_sq(
                    start.moves[q].action);
                crate::model::lemma_list_distinct(board, piece as int, k, piece_num as int);
            }
            lemma_distinct_join(start, *list, ol.length as int);
            assert forall|q: int| ol.length <= q < list.length implies (exists|k: int| 0 <= k < piece_num + 1
                && board.piece_list[piece as int][k] == spec_from_sq(#[trigger] list.moves[q].action))
                && list.moves[q].action & CAST_FLAG == 0 by {
                if q < start.length {
                    assert(list.moves[q] == start.moves[q]);
                } else {
                    assert(board.piece_list[piece as int][piece_num as int] == spec_from_sq(list.moves[q].action));
                }
            }
            if list.length < 255 {
                assert forall|a: usize| #[trigger] owed(board, a, captures_only) && (exists|k: int|
                    0 <= k < piece_num + 1 && board.piece_list[piece as int][k] == spec_from_sq(a)) implies holds_from(
                    *list, ol.length as int, a) by {
                    let k = choose|k: int| 0 <= k < piece_num + 1 && board.piece_list[piece as int][k] == spec_from_sq(a);
                    if k < piece_num {
                        lemma_holds_mono(start, *list, ol.length as int, ol.length as int, a);
                    } else {
                        lemma_slide_owed(board, a, captures_only);
                        assert(mover_dirs(board, a) == ds);
                        let i0 = choose|i0: int| 0 <= i0 < mover_dirs(board, a).len() && on_ray(board.board@,
                            spec_from_sq(a) as int, #[trigger] mover_dirs(board, a)[i0], spec_to_sq(a) as int);
                        assert(on_ray(s, sq as int, ds[i0], spec_to_sq(a) as int));
                        lemma_holds_mono(*list, *list, start.length as int, ol.length as int, a);
                    }
                }
            }
        }
        piece_num = piece_num + 1;
    }
    proof {
        assert forall|q: int| ol.length <= q < list.length implies board.board[spec_from_sq(
            #[trigger] list.moves[q].action) as int] as usize == piece && list.moves[q].action & CAST_FLAG == 0 by {
            let k = choose|k: int| 0 <= k < n && board.piece_list[piece as int][k] == spec_from_sq(list.moves[q].action);
            lemma_list_entry(board, piece as int, k);
        }
        if list.length < 255 {
            assert forall|a: usize| #[trigger] owed(board, a, captures_only) && board.board[spec_from_sq(a) as int] as usize
                == piece implies holds_from(*list, ol.length as int, a) by {
                lemma_owed_parts(board, a, captures_only);
                crate::model::lemma_listed(board, piece as int, spec_from_sq(a) as int);
            }
        }
    }
}

/// An owed castling move is a castling by the rules, packed with the
/// castling flag alone.
pub proof fn lemma_castle_owed(b: &BoardStructure, a: usize)
    requires
        b.gen_ok(),
        owed(b, a, false),
        a & CAST_FLAG != 0,
    ensures
        castle_move(b.position(), a),
        a == spec_create_move(spec_from_sq(a), spec_to_sq(a), 0, 0, CAST_FLAG),
{
    lemma_owed_parts(b, a, false);
    crate::rules::lemma_flag_facts(a);
}

/// Castling moves of the side to move: the right is held, the squares
/// between king and rook are empty, and neither the king's square nor the
/// square it passes is attacked.
fn gen_castles(board: &BoardStructure, list: &mut MoveListStructure)
    requires
        board.gen_ok(),
        board.ply < 64,
        old(list).length <= 255,
    ensures
        extends(*old(list), *final(list)),
        appended_ok(board, *old(list), *final(list), false),
        final(list).length < 255 ==> forall|a: usize| #[trigger] owed(board, a, false) && a & CAST_FLAG != 0
            ==> holds_from(*final(list), old(list).length as int, a),
        distinct_from(*final(list), old(list).length as int),
        forall|i: int| old(list).length <= i < final(list).length ==> #[trigger] final(list).moves[i].action & CAST_FLAG
            != 0,
{
    let ghost ol = *list;
    let ghost p = board.position();
    let ghost s = p.squares;
    let white: bool = board.side == Players::White;
    let (king_sq, short_perm, long_perm, by): (usize, u8, u8, Players) = if white {
        (E1, 8, 4, Players::Black)
    } else {
        (E8, 2, 1, Players::White)
    };
    let f_sq: usize = king_sq + 1;
    let g_sq: usize = king_sq + 2;
    let d_sq: usize = king_sq - 1;
    let c_sq: usize = king_sq - 2;
    let b_sq: usize = king_sq - 3;
    let ghost short_a = spec_create_move(king_sq, g_sq, 0, 0, CAST_FLAG);
    let ghost long_a = spec_create_move(king_sq, c_sq, 0, 0, CAST_FLAG);
    let ghost short_ok = board.castle_perm & short_perm != 0 && s[f_sq as int] == Pieces::Empty && s[g_sq as int]
        == Pieces::Empty && !attacked(s, king_sq as int, by) && !attacked(s, f_sq as int, by);
    let ghost long_ok = board.castle_perm & long_perm != 0 && s[d_sq as int] == Pieces::Empty && s[c_sq as int]
        == Pieces::Empty && s[b_sq as int] == Pieces::Empty && !attacked(s, king_sq as int, by) && !attacked(s,
        d_sq as int, by);
    if board.castle_perm & short_perm != 0 {
        if board.board[f_sq] == Pieces::Empty && board.board[g_sq] == Pieces::Empty {
            if !is_attacked(king_sq, by, board) && !is_attacked(f_sq, by, board) {
                let a: usize = create_move(king_sq, g_sq, 0, 0, CAST_FLAG);
                add_quiet_move(a, board, list);
                proof {
                    assert(castle_move(p, a));
                    assert(gen_move(p, a));
                    if ol.length < 255 {
                        assert(list.moves[ol.length as int].action == a);
                    }
                }
            }
        }
    }
    let ghost l2 = *list;
    proof {
        assert(l2.length <= ol.length + 1);
        assert(l2.length == ol.length + 1 ==> l2.moves[ol.length as int].action == short_a);
        assert(distinct_from(l2, ol.length as int));
        assert(extends(ol, l2));
        assert(appended_ok(board, ol, l2, false));
        assert(l2.length < 255 && short_ok ==> holds_from(l2, ol.length as int, short_a));
    }
    if board.castle_perm & long_perm != 0 {
        if board.board[d_sq] == Pieces::Empty && board.board[c_sq] == Pieces::Empty && board.board[b_sq]
            == Pieces::Empty {
            if !is_attacked(king_sq, by, board) && !is_attacked(d_sq, by, board) {
                let a: usize = create_move(king_sq, c_sq, 0, 0, CAST_FLAG);
                add_quiet_move(a, board, list);
                proof {
                    assert(castle_move(p, a));
                    assert(gen_move(p, a));
                    if l2.length < 255 {
                        assert(list.moves[l2.length as int].action == a);
                    }
                    lemma_chain(board, ol, l2, *list, false);
                }
            }
        }
    }
    proof {
        assert(extends(l2, *list));
        assert(list.length <= l2.length + 1);
        assert(list.length == l2.length + 1 ==> list.moves[l2.length as int].action == long_a);
        lemma_create_move(king_sq, g_sq, 0, 0, CAST_FLAG);
        lemma_create_move(king_sq, c_sq, 0, 0, CAST_FLAG);
        assert forall|q: int, r: int| #![trigger list.moves[q], list.moves[r]] ol.length <= q < l2.length <= r
            < list.length implies list.moves[q].action != list.moves[r].action by {
            assert(list.moves[q] == l2.moves[q]);
        }
        lemma_distinct_join(l2, *list, ol.length as int);
        assert forall|i: int| ol.length <= i < list.length implies #[trigger] list.moves[i].action & CAST_FLAG != 0 by {
            if i < l2.length {
                assert(list.moves[i] == l2.moves[i]);
            }
        }
        assert(list.length < 255 && long_ok ==> holds_from(*list, l2.length as int, long_a));
        if list.length < 255 {
            assert forall|a: usize| #[trigger] owed(board, a, false) && a & CAST_FLAG != 0 implies holds_from(*list,
                ol.length as int, a) by {
                lemma_castle_owed(board, a);
                if spec_to_sq(a) == g_sq {
                    assert(a == short_a);
                    assert(short_ok);
                    lemma_holds_mono(l2, *list, ol.length as int, ol.length as int, a);
                } else {
                    assert(a == long_a);
                    assert(long_ok);
                    lemma_holds_mono(*list, *list, l2.length as int, ol.length as int, a);
                }
            }
        }
    }
}

/// Every move owed in `b` (every capture, if only captures are asked for)
/// was appended to `old` to give `new`, unless `new` is full.
pub open spec fn complete(b: &BoardStructure, old: MoveListStructure, new: MoveListStructure, captures_only: bool) -> bool {
    new.length < 255 ==> forall|a: usize| #[trigger] owed(b, a, captures_only) ==> holds_from(new, old.length as int, a)
}

fn gen_all(board: &BoardStructure, list: &mut MoveListStructure, captures_only: bool)
    requires
        board.gen_ok(),
        captures_only || board.ply < 64,
        old(list).length <= 255,
    ensures
        extends(*old(list), *final(list)),
        appended_ok(board, *old(list), *final(list), captures_only),
        complete(board, *old(list), *final(list), captures_only),
        distinct_from(*final(list), old(list).length as int),
{
    let ghost l0 = *list;
    let o: usize = if board.side == Players::White { 0 } else { 6 };
    gen_pawn_moves(board, list, captures_only);
    let ghost l1 = *list;
    proof {
        assert forall|q: int| l0.length <= q < list.length implies {
            let m = board.board[spec_from_sq(#[trigger] list.moves[q].action) as int] as usize;
            &&& m == o + 1
            &&& list.moves[q].action & CAST_FLAG == 0
        } by {}
    }
    gen_step_moves(board, list, o + 2, captures_only);
    proof {
        lemma_chain(board, l0, l1, *list, captures_only);
        assert forall|q: int, r: int| #![trigger list.moves[q], list.moves[r]] l0.length <= q < l1.length <= r
            < list.length implies list.moves[q].action != list.moves[r].action by {
            assert(list.moves[q] == l1.moves[q]);
            assert(board.board[spec_from_sq(list.moves[r].action) as int] as usize == o + 2);
            assert(board.board[spec_from_sq(l1.moves[q].action) as int] as usize != o + 2);
        }
        lemma_distinct_join(l1, *list, l0.length as int);
        assert forall|q: int| l0.length <= q < list.length implies {
            let m = board.board[spec_from_sq(#[trigger] list.moves[q].action) as int] as usize;
            &&& (m == o + 1 || m == o + 2)
            &&& list.moves[q].action & CAST_FLAG == 0
        } by {
            if q < l1.length {
                assert(list.moves[q] == l1.moves[q]);
            }
        }
    }
    let ghost l2 = *list;
    gen_step_moves(board, list, o + 6, captures_only);
    proof {
        lemma_chain(board, l0, l2, *list, captures_only);
        assert forall|q: int, r: int| #![trigger list.moves[q], list.moves[r]] l0.length <= q < l2.length <= r
            < list.length implies list.moves[q].action != list.moves[r].action by {
            assert(list.moves[q] == l2.moves[q]);
            assert(board.board[spec_from_sq(list.moves[r].action) as int] as usize == o + 6);
            assert(board.board[spec_from_sq(l2.moves[q].action) as int] as usize != o + 6);
        }
        lemma_distinct_join(l2, *list, l0.length as int);
        assert forall|q: int| l0.length <= q < list.length implies {
            let m = board.board[spec_from_sq(#[trigger] list.moves[q].action) as int] as usize;
            &&& (m == o + 1 || m == o + 2 || m == o + 6)
            &&& list.moves[q].action & CAST_FLAG == 0
        } by {
            if q < l2.length {
                assert(list.moves[q] == l2.moves[q]);
            }
        }
    }
    let ghost l3 = *list;
    gen_slide_moves(board, list, o + 3, captures_only);
    proof {
        lemma_chain(board, l0, l3, *list, captures_only);
        assert forall|q: int, r: int| #![trigger list.moves[q], list.moves[r]] l0.length <= q < l3.length <= r
            < list.length implies list.moves[q].action != list.moves[r].action by {
            assert(list.moves[q] == l3.moves[q]);
            assert(board.board[spec_from_sq(list.moves[r].action) as int] as usize == o + 3);
            assert(board.board[spec_from_sq(l3.moves[q].action) as int] as usize != o + 3);
        }
        lemma_distinct_join(l3, *list, l0.length as int);
        assert forall|q: int| l0.length <= q < list.length implies {
            let m = board.board[spec_from_sq(#[trigger] list.moves[q].action) as int] as usize;
            &&& (m == o + 1 || m == o + 2 || m == o + 6 || m == o + 3)
            &&& list.moves[q].action & CAST_FLAG == 0
        } by {
            if q < l3.length {
                assert(list.moves[q] == l3.moves[q]);
            }
        }
    }
    let ghost l4 = *list;
    gen_slide_moves(board, list, o + 4, captures_only);
    proof {
        lemma_chain(board, l0, l4, *list, captures_only);
        assert forall|q: int, r: int| #![trigger list.moves[q], list.moves[r]] l0.length <= q < l4.length <= r
            < list.length implies list.moves[q].action != list.moves[r].action by {
            assert(list.moves[q] == l4.moves[q]);
            assert(board.board[spec_from_sq(list.moves[r].action) as int] as usize == o + 4);
            assert(board.board[spec_from_sq(l4.moves[q].action) as int] as usize != o + 4);
        }
        lemma_distinct_join(l4, *list, l0.length as int);
        assert forall|q: int| l0.length <= q < list.length implies {
            let m = board.board[spec_from_sq(#[trigger] list.moves[q].action) as int] as usize;
            &&& (m == o + 1 || m == o + 2 || m == o + 6 || m == o + 3 || m == o + 4)
            &&& list.moves[q].action & CAST_FLAG == 0
        } by {
            if q < l4.length {
                assert(list.moves[q] == l4.moves[q]);
            }
        }
    }
    let ghost l5 = *list;
    gen_slide_moves(board, list, o + 5, captures_only);
    proof {
        lemma_chain(board, l0, l5, *list, captures_only);
        assert forall|q: int, r: int| #![trigger list.moves[q], list.moves[r]] l0.length <= q < l5.length <= r
            < list.length implies list.moves[q].action != list.moves[r].action by {
            assert(list.moves[q] == l5.moves[q]);
            assert(board.board[spec_from_sq(list.moves[r].action) as int] as usize == o + 5);
            assert(board.board[spec_from_sq(l5.moves[q].action) as int] as usize != o + 5);
        }
        lemma_distinct_join(l5, *list, l0.length as int);
        assert forall|q: int| l0.length <= q < list.length implies {
            let m = board.board[spec_from_sq(#[trigger] list.moves[q].action) as int] as usize;
            &&& (m == o + 1 || m == o + 2 || m == o + 6 || m == o + 3 || m == o + 4 || m == o + 5)
            &&& list.moves[q].action & CAST_FLAG == 0
        } by {
            if q < l5.length {
                assert(list.moves[q] == l5.moves[q]);
            }
        }
    }
    let ghost l6 = *list;
    if !captures_only {
        gen_castles(board, list);
        proof {
            lemma_chain(board, l0, l6, *list, captures_only);
            assert forall|q: int, r: int| #![trigger list.moves[q], list.moves[r]] l0.length <= q < l6.length <= r
                < list.length implies list.moves[q].action != list.moves[r].action by {
                assert(list.moves[q] == l6.moves[q]);
                assert(list.moves[r].action & CAST_FLAG != 0);
            }
            lemma_distinct_join(l6, *list, l0.length as int);
        }
    }
    proof {
        assert(extends(l6, *list));
        if list.length < 255 {
            assert forall|a: usize| #[trigger] owed(board, a, captures_only) implies holds_from(*list, l0.length as int, a) by {
                lemma_owed_parts(board, a, captures_only);
                crate::rules::lemma_flag_facts(a);
                let m = board.board@[spec_from_sq(a) as int] as usize;
                if m == o + 1 {
                    lemma_chain(board, l1, l2, l3, captures_only);
                    lemma_chain(board, l1, l3, l4, captures_only);
                    lemma_chain(board, l1, l4, l5, captures_only);
                    lemma_chain(board, l1, l5, l6, captures_only);
                    lemma_holds_mono(l1, *list, l0.length as int, l0.length as int, a);
                } else if m == o + 2 {
                    lemma_chain(board, l2, l3, l4, captures_only);
                    lemma_chain(board, l2, l4, l5, captures_only);
                    lemma_chain(board, l2, l5, l6, captures_only);
                    lemma_holds_mono(l2, *list, l1.length as int, l0.length as int, a);
                } else if m == o + 6 && a & CAST_FLAG == 0 {
                    lemma_chain(board, l3, l4, l5, captures_only);
                    lemma_chain(board, l3, l5, l6, captures_only);
                    lemma_holds_mono(l3, *list, l2.length as int, l0.length as int, a);
                } else if m == o + 3 {
                    lemma_chain(board, l4, l5, l6, captures_only);
                    lemma_holds_mono(l4, *list, l3.length as int, l0.length as int, a);
                } else if m == o + 4 {
                    lemma_holds_mono(l5, *list, l4.length as int, l0.length as int, a);
                } else if m == o + 5 {
                    lemma_holds_mono(l6, *list, l5.length as int, l0.length as int, a);
                } else {
                    assert(m == o + 6 && a & CAST_FLAG != 0);
                    lemma_castle_owed(board, a);
                    assert(!captures_only);
                    lemma_holds_mono(*list, *list, l6.length as int, l0.length as int, a);
                }
            }
        }
    }
}

/// Append the pseudo legal moves of the side to move: pawn moves, knight
/// and king steps, bishop, rook and queen slides, then castling. Each
/// comes with its ordering score; the moves already in the list stay.
/// Every move appended is pseudo legal and packed, no move is appended
/// twice, and every packed pseudo legal move is appended unless the list
/// runs full (255 entries): where the owed moves fit, exactly they are
/// appended.
pub fn pseudo_legal_move_gen(board: &BoardStructure, list: &mut MoveListStructure)
    requires
        board.gen_ok(),
        board.ply < 64,
        old(list).length <= 255,
    ensures
        extends(*old(list), *final(list)),
        appended_ok(board, *old(list), *final(list), false),
        complete(board, *old(list), *final(list), false),
        distinct_from(*final(list), old(list).length as int),
        final(list).length - old(list).length <= owed_count(board, false),
        old(list).length + owed_count(board, false) < 255 ==> final(list).length == old(list).length + owed_count(board,
            false),
{
    let ghost ol = *list;
    gen_all(board, list, false);
    proof {
        lemma_owed_count(board, ol, *list, false);
    }
}

/// Append the pseudo legal captures of the side to move (en passant
/// included, with the promotions of capturing pawns): all of them, and
/// nothing else, but for those that find the list full.
pub fn pseudo_legal_captures(board: &BoardStructure, list: &mut MoveListStructure)
    requires
        board.gen_ok(),
        old(list).length <= 255,
    ensures
        extends(*old(list), *final(list)),
        appended_ok(board, *old(list), *final(list), true),
        complete(board, *old(list), *final(list), true),
        distinct_from(*final(list), old(list).length as int),
        final(list).length - old(list).length <= owed_count(board, true),
        old(list).length + owed_count(board, true) < 255 ==> final(list).length == old(list).length + owed_count(board,
            true),
{
    let ghost ol = *list;
    gen_all(board, list, true);
    proof {
        lemma_owed_count(board, ol, *list, true);
    }
}

} // verus!
