use eden_chess::structs::{BoardStructure, MoveListStructure, MoveStructure, SearchInfo, ConfigInfo, ConfigLine,
    TransFlag, PolyglotBook, TransTable};
use eden_chess::statics::{Pieces, Players};
use eden_chess::fen::{build_fen, parse_fen, reset_board, update_material_lists};
use eden_chess::hash::generate_position_hash;
use eden_chess::perft::small_perft;
use eden_chess::legal_move_gen::{pseudo_legal_move_gen, pseudo_legal_captures, create_move, from_sq, to_sq, taken,
    promoted, is_attacked, direc_add};
use eden_chess::do_undo_moves::{make_move, unmake_move, add_piece, clear_piece, move_piece};
use eden_chess::uci::{parse_num, parse_move, parse_position, parse_go, move_text};
use eden_chess::validation::{check_board, position_valid, sq_on_board, side_valid, piece_valid, piece_valid_or_empty};
use eden_chess::evaluation::eval;
use eden_chess::trans_table::{store_trans_move, probe_trans_table};
use eden_chess::principal_variation::{probe_table, move_exists, get_pv_line};
use eden_chess::search::{is_rep, next_move_to_search, clear_info, search_iteration, alpha_beta, quiescence};
use eden_chess::polyglot::{polykey_from_board, has_pawn_for_en_passant, parse_polymove, get_book_move};
use eden_chess::bitboards::{lsh, rsh, set_bit, clear_bit};

const START: &str = "rnbqkbnr/pppppppp/8/8/8/8/PPPPPPPP/RNBQKBNR w KQkq - 0 1";
const KIWIPETE: &str = "r3k2r/p1ppqpb1/bn2pnp1/3PN3/1p2P3/2N2Q1p/PPPBBPPP/R3K2R w KQkq - 0 1";

fn board_from(fen: &str) -> BoardStructure {
    let mut b: BoardStructure = Default::default();
    build_fen(fen.to_string(), &mut b);
    b
}

fn chars(s: &str) -> Vec<char> {
    s.chars().collect()
}

#[test]
fn start_position_reads() {
    let mut b = board_from(START);
    assert_eq!(b.side, Players::White);
    assert_eq!(b.castle_perm, 15);
    assert_eq!(b.en_pas, 0);
    assert_eq!(b.board[21], Pieces::Wr);
    assert_eq!(b.board[25], Pieces::Wk);
    assert_eq!(b.board[95], Pieces::Bk);
    assert_eq!(b.board[35], Pieces::Wp);
    assert_eq!(b.board[0], Pieces::OffLimits);
    assert_eq!(b.board[55], Pieces::Empty);
    assert_eq!(b.num_pieces[1], 8);
    assert_eq!(b.num_pieces[12], 1);
    assert_eq!(b.king_sqs, [25, 95]);
    assert_eq!(b.pawns[0], 0xFF00);
    assert_eq!(b.pawns[1], 0x00FF_0000_0000_0000);
    assert_eq!(b.pos_key, generate_position_hash(&b));
    assert!(position_valid(&b));
    assert!(check_board(&b));
    b.mat_strength[0] += 1;
    assert!(!check_board(&b));
}

#[test]
fn fen_with_en_passant_square() {
    let b = board_from("rnbqkbnr/pppppppp/8/8/4P3/8/PPPP1PPP/RNBQKBNR b KQkq e3 0 1");
    assert_eq!(b.side, Players::Black);
    assert_eq!(b.en_pas, 45);
    assert!(position_valid(&b));
}

#[test]
fn malformed_fen_is_refused() {
    assert!(parse_fen(&chars("rnbqkbnr/pppppppp")).is_none());
    assert!(parse_fen(&chars("8/8/8/8/8/8/8/8/8 w - - 0 1")).is_none());
    assert!(parse_fen(&chars("8/8/8/8/8/8/8/8 w - z9 0 1")).is_none());
    assert!(parse_fen(&chars("PPPPPPPP/PPPPPPPP/8/8/8/8/8/k6K w - - 0 1")).is_none());
    assert!(parse_fen(&chars(START)).is_some());
}

#[test]
fn reset_board_empties_the_board() {
    let mut b = board_from(START);
    reset_board(&mut b);
    assert_eq!(b.board[21], Pieces::Empty);
    assert_eq!(b.board[20], Pieces::OffLimits);
    assert_eq!(b.num_pieces, [0; 13]);
    assert_eq!(b.side, Players::Both);
    update_material_lists(&mut b);
    assert_eq!(b.num_pieces, [0; 13]);
}

#[test]
fn perft_start_position() {
    let mut b = board_from(START);
    assert_eq!(small_perft(&mut b, 0), 1);
    assert_eq!(small_perft(&mut b, 1), 20);
    assert_eq!(small_perft(&mut b, 2), 400);
    assert_eq!(small_perft(&mut b, 3), 8902);
}

#[test]
fn perft_kiwipete() {
    let mut b = board_from(KIWIPETE);
    assert_eq!(small_perft(&mut b, 1), 48);
    assert_eq!(small_perft(&mut b, 2), 2039);
}

#[test]
fn perft_endgame_with_en_passant_and_promotions() {
    let mut b = board_from("8/2p5/3p4/KP5r/1R3p1k/8/4P1P1/8 w - - 0 1");
    assert_eq!(small_perft(&mut b, 1), 14);
    assert_eq!(small_perft(&mut b, 2), 191);
    assert_eq!(small_perft(&mut b, 3), 2812);
}

#[test]
fn move_encoding_roundtrip() {
    let m = create_move(35, 55, 0, 0, 0x800000);
    assert_eq!(from_sq(m), 35);
    assert_eq!(to_sq(m), 55);
    assert_eq!(taken(m), 0);
    assert_eq!(promoted(m), 0);
    let c = create_move(84, 95, 12, 5, 0);
    assert_eq!((from_sq(c), to_sq(c), taken(c), promoted(c)), (84, 95, 12, 5));
    assert_eq!(direc_add(55, -10), 45);
}

#[test]
fn make_and_unmake_restore_the_position() {
    let mut b = board_from(KIWIPETE);
    let before = b.board;
    let key = b.pos_key;
    let mut list = MoveListStructure::new();
    pseudo_legal_move_gen(&b, &mut list);
    for i in 0..list.length {
        if make_move(list.moves[i].action, &mut b) {
            assert_ne!(b.pos_key, key);
            assert_eq!(b.pos_key, generate_position_hash(&b));
            unmake_move(&mut b);
        }
        assert_eq!(b.board, before);
        assert_eq!(b.pos_key, key);
        assert_eq!(b.castle_perm, 15);
        assert_eq!(b.ply, 0);
    }
}

#[test]
fn illegal_move_is_refused_and_undone() {
    // The white king may not step next to the black king.
    let mut b = board_from("8/8/8/3k4/8/3K4/8/8 w - - 0 1");
    let key = b.pos_key;
    let m = create_move(44, 54, 0, 0, 0);
    assert!(!make_move(m, &mut b));
    assert_eq!(b.pos_key, key);
    assert_eq!(b.board[44], Pieces::Wk);
    assert_eq!(b.board[54], Pieces::Empty);
}

#[test]
fn castling_moves_are_generated() {
    let b = board_from("r3k2r/8/8/8/8/8/8/R3K2R w KQkq - 0 1");
    let mut list = MoveListStructure::new();
    pseudo_legal_move_gen(&b, &mut list);
    let castles = (0..list.length).filter(|i| list.moves[*i].action & 0x1000000 != 0).count();
    assert_eq!(castles, 2);
    let mut caps = MoveListStructure::new();
    pseudo_legal_captures(&b, &mut caps);
    for i in 0..caps.length {
        assert!(taken(caps.moves[i].action) != 0 || caps.moves[i].action & 0x400000 != 0);
    }
}

#[test]
fn attacked_squares() {
    let b = board_from(START);
    assert!(is_attacked(45, Players::White, &b));
    assert!(!is_attacked(55, Players::White, &b));
    assert!(is_attacked(75, Players::Black, &b));
}

#[test]
fn parse_num_reads_leading_digits() {
    assert_eq!(parse_num(chars("123abc")), (Some(123), 3));
    assert_eq!(parse_num(chars("abc")), (None, 0));
    assert_eq!(parse_num(chars("7")), (Some(7), 1));
    assert_eq!(parse_num(chars("")), (None, 0));
}

#[test]
fn parse_move_finds_moves() {
    let b = board_from(START);
    let m = parse_move("e2e4".to_string(), &b);
    assert_eq!((from_sq(m), to_sq(m)), (35, 55));
    assert_eq!(parse_move("e2e5".to_string(), &b), 0);
    let p = board_from("8/4P3/8/8/8/8/k7/6K1 w - - 0 1");
    let q = parse_move("e7e8q".to_string(), &p);
    assert_eq!(promoted(q), 5);
    let n = parse_move("e7e8n".to_string(), &p);
    assert_eq!(promoted(n), 2);
}

#[test]
fn position_command_with_moves() {
    let mut b: BoardStructure = Default::default();
    assert!(parse_position(chars("position startpos moves e2e4 e7e5 g1f3\n"), &mut b));
    assert_eq!(b.side, Players::Black);
    assert_eq!(b.board[46], Pieces::Wn);
    assert_eq!(b.board[65], Pieces::Bp);
    assert_eq!(b.ply, 0);
    assert_eq!(b.ply_depth, 3);
    let mut c: BoardStructure = Default::default();
    assert!(parse_position(chars("position fen 8/8/8/3k4/8/3K4/8/8 w - - 0 1\n"), &mut c));
    assert_eq!(c.board[44], Pieces::Wk);
    assert_eq!(c.board[64], Pieces::Bk);
}

#[test]
fn go_command_limits() {
    let b = board_from(START);
    let mut info: SearchInfo = Default::default();
    let t = parse_go(chars("go wtime 10000 btime 9000 movestogo 10\n"), &mut info, &b);
    assert!(info.timed);
    assert_eq!(t, 950);
    assert_eq!(info.stop_time, info.start_time + 950);
    let mut info2: SearchInfo = Default::default();
    let t2 = parse_go(chars("go depth 6\n"), &mut info2, &b);
    assert!(!info2.timed);
    assert_eq!(t2, 0);
    assert_eq!(info2.depth_lim, 6);
    let mut info3: SearchInfo = Default::default();
    parse_go(chars("go infinite\n"), &mut info3, &b);
    assert_eq!(info3.depth_lim, usize::MAX - 1);
}

#[test]
fn evaluation_of_symmetric_position_is_zero() {
    let b = board_from(START);
    assert_eq!(eval(&b), 0);
    let w = board_from("4k3/8/8/8/8/8/8/3QK3 w - - 0 1");
    let bl = board_from("4k3/8/8/8/8/8/8/3QK3 b - - 0 1");
    assert!(eval(&w) > 900);
    assert_eq!(eval(&w), -eval(&bl));
}

#[test]
fn transposition_table_gives_back_what_was_stored() {
    let mut b = board_from(START);
    let m = create_move(35, 55, 0, 0, 0x800000);
    store_trans_move(&mut b, m, 42, 3, TransFlag::Exact);
    assert_eq!(probe_table(&b), m);
    let mut action = 0usize;
    let mut score = 0i32;
    assert!(probe_trans_table(&b, &mut action, &mut score, -100, 100, 2));
    assert_eq!((action, score), (m, 42));
    let mut a2 = 0usize;
    let mut s2 = 7i32;
    assert!(!probe_trans_table(&b, &mut a2, &mut s2, -100, 100, 4));
    assert_eq!((a2, s2), (m, 7));
    store_trans_move(&mut b, m, 28990, 3, TransFlag::Beta);
    let mut a3 = 0usize;
    let mut s3 = 0i32;
    assert!(probe_trans_table(&b, &mut a3, &mut s3, -100, 100, 1));
    assert_eq!(s3, 100);
}

#[test]
fn mate_scores_are_stored_relative_to_the_position() {
    let mut b = board_from(START);
    b.ply = 5;
    store_trans_move(&mut b, 0, 28990, 1, TransFlag::Exact);
    assert_eq!(b.trans_table.entries[(b.pos_key as usize) % b.trans_table.num_entries].score, 28995);
    let mut action = 0usize;
    let mut score = 0i32;
    assert!(probe_trans_table(&b, &mut action, &mut score, -30000, 30000, 1));
    assert_eq!(score, 28990);
}

#[test]
fn legal_moves_are_found_by_move_exists() {
    let mut b = board_from(START);
    let m = parse_move("g1f3".to_string(), &b);
    assert!(move_exists(m, &mut b));
    assert!(!move_exists(create_move(35, 65, 0, 0, 0), &mut b));
    assert_eq!(b.pos_key, generate_position_hash(&b));
}

#[test]
fn search_finds_back_rank_mate() {
    let mut b = board_from("6k1/5ppp/8/8/8/8/8/R5K1 w - - 0 1");
    let mut info: SearchInfo = Default::default();
    let config = ConfigInfo::new();
    clear_info(&mut b, &mut info);
    let r = search_iteration(&mut b, &mut info, &config, 3);
    let (score, n) = r.unwrap();
    assert!(n >= 1);
    let best = b.pv_line[0];
    assert_eq!((from_sq(best), to_sq(best)), (21, 91));
    assert!(score > 28000);
    assert_eq!(b.board[21], Pieces::Wr);
}

#[test]
fn search_leaves_the_position() {
    let mut b = board_from(KIWIPETE);
    let before = b.board;
    let key = b.pos_key;
    let mut info: SearchInfo = Default::default();
    let config = ConfigInfo::new();
    clear_info(&mut b, &mut info);
    let s = alpha_beta(&mut b, &mut info, -30000, 30000, 2, &config);
    assert!(s > -30000 && s < 30000);
    assert_eq!(b.board, before);
    assert_eq!(b.pos_key, key);
    let q = quiescence(&mut b, -30000, 30000, &mut info, &config);
    assert!(q >= eval(&b));
    assert_eq!(b.board, before);
}

#[test]
fn principal_variation_follows_the_table() {
    let mut b = board_from(START);
    let m = parse_move("e2e4".to_string(), &b);
    store_trans_move(&mut b, m, 10, 1, TransFlag::Exact);
    let n = get_pv_line(&mut b, 4);
    assert_eq!(n, 1);
    assert_eq!(b.pv_line[0], m);
    assert_eq!(b.ply, 0);
    assert_eq!(b.board[35], Pieces::Wp);
}

#[test]
fn repetition_is_detected() {
    let mut b: BoardStructure = Default::default();
    assert!(parse_position(chars("position startpos moves g1f3 g8f6 f3g1 f6g8 g1f3 g8f6 f3g1 f6g8 g1f3 g8f6 f3g1 f6g8\n"), &mut b));
    assert!(is_rep(&b));
    let c = board_from(START);
    assert!(!is_rep(&c));
    // the start position for the third time: a threefold repetition
    let mut d: BoardStructure = Default::default();
    assert!(parse_position(chars("position startpos moves g1f3 g8f6 f3g1 f6g8 g1f3 g8f6 f3g1 f6g8\n"), &mut d));
    assert!(is_rep(&d));
    // only the second time: not yet
    let mut e: BoardStructure = Default::default();
    assert!(parse_position(chars("position startpos moves g1f3 g8f6 f3g1 f6g8\n"), &mut e));
    assert!(!is_rep(&e));
}

#[test]
fn next_move_brings_the_best_forward() {
    let mut l = MoveListStructure::new();
    l.length = 4;
    l.moves[0] = MoveStructure { action: 1, score: 5 };
    l.moves[1] = MoveStructure { action: 2, score: 9 };
    l.moves[2] = MoveStructure { action: 3, score: 9 };
    l.moves[3] = MoveStructure { action: 4, score: 1 };
    next_move_to_search(0, &mut l);
    assert_eq!(l.moves[0].action, 2);
    assert_eq!(l.moves[1].action, 1);
    let mut z = MoveListStructure::new();
    z.length = 2;
    z.moves[0] = MoveStructure { action: 7, score: 0 };
    z.moves[1] = MoveStructure { action: 8, score: 0 };
    next_move_to_search(0, &mut z);
    assert_eq!(z.moves[0].action, 7);
}

#[test]
fn validation_helpers() {
    assert!(sq_on_board(21));
    assert!(!sq_on_board(20));
    assert!(!sq_on_board(99));
    assert!(side_valid(0) && side_valid(1) && !side_valid(2));
    assert!(piece_valid(1) && !piece_valid(0) && !piece_valid(13));
    assert!(piece_valid_or_empty(0) && !piece_valid_or_empty(13));
}

#[test]
fn bitboard_helpers() {
    let mut bb: u64 = 0;
    set_bit(&mut bb, 3);
    assert_eq!(bb, 8);
    clear_bit(&mut bb, 3);
    assert_eq!(bb, 0);
    assert_eq!(lsh(1, 70), 0);
    assert_eq!(lsh(1, 2), 4);
    assert_eq!(rsh(8, 3), 1);
}

#[test]
fn config_lines() {
    let mut c = ConfigInfo::new();
    assert_eq!(c.apply_line(&chars("USE OPENING BOOK: false")), ConfigLine::UseOpeningBook);
    assert!(!c.use_opening_book);
    assert_eq!(c.apply_line(&chars("OPENING BOOK PATH: book.bin")), ConfigLine::OpeningBookPath);
    assert_eq!(c.opening_book_path, "book.bin");
    assert_eq!(c.apply_line(&chars("SIZE: 1048576")), ConfigLine::Size);
    assert_eq!(c.trans_table_size, 1048576);
    assert_eq!(c.apply_line(&chars("ADD THREEFOLD REPETITION NULL: true")), ConfigLine::ThreefoldNull);
    assert!(c.threefold_null);
    assert_eq!(c.apply_line(&chars("anything")), ConfigLine::Other);
}

#[test]
fn trans_table_sizes() {
    let t = TransTable::with_size(320);
    assert_eq!(t.num_entries, 8);
    assert_eq!(t.entries.len(), 10);
}

fn test_keys() -> Vec<u64> {
    (0..781u64).map(|i| (i + 1).wrapping_mul(0x9E37_79B9_7F4A_7C15)).collect()
}

#[test]
fn polyglot_key_of_kings_only() {
    let b = board_from("4k3/8/8/8/8/8/8/4K3 b - - 0 1");
    let keys = test_keys();
    // white king on e1: kind 11, rank 0, file 4; black king on e8: kind 10, rank 7, file 4
    let expected = keys[64 * 11 + 4] ^ keys[64 * 10 + 8 * 7 + 4];
    assert_eq!(polykey_from_board(&b, &keys), expected);
    let w = board_from("4k3/8/8/8/8/8/8/4K3 w - - 0 1");
    assert_eq!(polykey_from_board(&w, &keys), expected ^ keys[780]);
}

#[test]
fn en_passant_pawn_detection() {
    let b = board_from("4k3/8/8/3pP3/8/8/8/4K3 w - d6 0 1");
    assert!(has_pawn_for_en_passant(&b));
    let c = board_from("4k3/8/8/3p4/8/8/4P3/4K3 w - d6 0 1");
    assert!(!has_pawn_for_en_passant(&c));
}

#[test]
fn book_entries_read_and_chosen() {
    let b = board_from(START);
    let keys = test_keys();
    let key = polykey_from_board(&b, &keys);
    // e2e4 = from e2 (file 4, rank 1) to e4 (file 4, rank 3)
    let e2e4: u16 = (4 << 6) | (1 << 9) | 4 | (3 << 3);
    let d2d4: u16 = (3 << 6) | (1 << 9) | 3 | (3 << 3);
    let mut bytes: Vec<u8> = Vec::new();
    for (mv, w) in [(e2e4, 5u16), (d2d4, 2u16)] {
        bytes.extend_from_slice(&key.to_be_bytes());
        bytes.extend_from_slice(&mv.to_be_bytes());
        bytes.extend_from_slice(&w.to_be_bytes());
        bytes.extend_from_slice(&0u32.to_be_bytes());
    }
    bytes.push(1);
    let book = PolyglotBook::from_bytes(&bytes);
    assert_eq!(book.entries.len(), 2);
    assert_eq!(book.entries[0].key, key);
    assert_eq!(book.entries[1].action, d2d4);
    assert_eq!(book.entries[1].weigth, 2);
    // the best move is the one of highest weight
    let m = get_book_move(&b, &book, &keys);
    assert_eq!((from_sq(m), to_sq(m)), (35, 55));
    let pm = parse_polymove(e2e4, &b);
    assert_eq!((from_sq(pm), to_sq(pm)), (35, 55));
    let empty = PolyglotBook::from_bytes(&Vec::new());
    assert_eq!(get_book_move(&b, &empty, &keys), 0);
}

#[test]
fn every_pseudo_legal_move_is_listed() {
    let b = board_from(START);
    let mut list = MoveListStructure::new();
    pseudo_legal_move_gen(&b, &mut list);
    assert_eq!(list.length, 20);
    let has = |a: usize| (0..list.length).any(|i| list.moves[i].action == a);
    assert!(has(create_move(35, 55, 0, 0, 0x800000)));
    assert!(has(create_move(35, 45, 0, 0, 0)));
    assert!(has(create_move(27, 46, 0, 0, 0)));
    assert!(has(create_move(22, 41, 0, 0, 0)));

    let p = board_from("4k3/1P6/8/8/8/8/8/4K3 w - - 0 1");
    let mut pl = MoveListStructure::new();
    pseudo_legal_move_gen(&p, &mut pl);
    let phas = |a: usize| (0..pl.length).any(|i| pl.moves[i].action == a);
    for prom in [5usize, 4, 3, 2] {
        assert!(phas(create_move(82, 92, 0, prom, 0)));
    }
    assert_eq!(pl.length, 4 + 5);
}

#[test]
fn every_capture_is_listed() {
    let b = board_from(KIWIPETE);
    let mut caps = MoveListStructure::new();
    pseudo_legal_captures(&b, &mut caps);
    assert_eq!(caps.length, 8);
    let has = |a: usize| (0..caps.length).any(|i| caps.moves[i].action == a);
    // e5xf7, e5xd7, e5xg6, d5xe6, f3xf6, f3xh3, g2xh3, e2xa6
    assert!(has(create_move(65, 86, Pieces::Bp as usize, 0, 0)));
    assert!(has(create_move(65, 84, Pieces::Bp as usize, 0, 0)));
    assert!(has(create_move(64, 75, Pieces::Bp as usize, 0, 0)));
    assert!(has(create_move(46, 76, Pieces::Bn as usize, 0, 0)));
    assert!(has(create_move(37, 48, Pieces::Bp as usize, 0, 0)));
}

#[test]
fn move_text_reads_back() {
    let b = board_from(START);
    let a = create_move(35, 55, 0, 0, 0x800000);
    let text: String = move_text(a).into_iter().collect();
    assert_eq!(text, "e2e4");
    assert_eq!(parse_move(text, &b), a);
    let p = board_from("4k3/1P6/8/8/8/8/8/4K3 w - - 0 1");
    let n = create_move(82, 92, 0, Pieces::Wn as usize, 0);
    let ntext: String = move_text(n).into_iter().collect();
    assert_eq!(ntext, "b7b8n");
    assert_eq!(parse_move(ntext, &p), n);
}

#[test]
fn key_stays_the_hash_through_moves() {
    let mut b = board_from(KIWIPETE);
    let mut list = MoveListStructure::new();
    pseudo_legal_move_gen(&b, &mut list);
    for i in 0..list.length {
        if make_move(list.moves[i].action, &mut b) {
            assert_eq!(b.pos_key, generate_position_hash(&b));
            unmake_move(&mut b);
        }
        assert_eq!(b.pos_key, generate_position_hash(&b));
    }
}

#[test]
fn quiescence_stands_pat_in_a_quiet_position() {
    let mut b = board_from(START);
    let mut info: SearchInfo = Default::default();
    let config = ConfigInfo::new();
    let e = eval(&b);
    let q = quiescence(&mut b, -30000, 30000, &mut info, &config);
    assert_eq!(q, e);
    let w = quiescence(&mut b, 5, 7, &mut info, &config);
    assert!(5 <= w && w <= 7);
}

#[test]
fn perft_counts_legal_lines_only() {
    // the white king in check has two legal replies (Kxd2, Kf1) among many pseudo legal moves
    let mut b = board_from("4k3/8/8/8/8/8/3q4/R3K3 w - - 0 1");
    assert_eq!(small_perft(&mut b, 1), 2);
}

#[test]
fn mate_and_stalemate_scores() {
    let config = ConfigInfo::new();
    let mut info: SearchInfo = Default::default();
    let mut mated = board_from("rnb1kbnr/pppp1ppp/8/4p3/6Pq/5P2/PPPPP2P/RNBQKBNR w KQkq - 1 3");
    clear_info(&mut mated, &mut info);
    assert_eq!(alpha_beta(&mut mated, &mut info, -30000, 30000, 1, &config), -29000);
    let mut stalemated = board_from("7k/5Q2/6K1/8/8/8/8/8 b - - 0 1");
    clear_info(&mut stalemated, &mut info);
    assert_eq!(alpha_beta(&mut stalemated, &mut info, -30000, 30000, 1, &config), 0);
}

#[test]
fn quiescence_takes_a_free_rook() {
    // the queen takes the undefended rook; black has no capture left
    let mut b = board_from("4k3/8/8/3r4/8/8/8/3QK3 w - - 0 1");
    let mut info: SearchInfo = Default::default();
    let config = ConfigInfo::new();
    let stand = eval(&b);
    let a = parse_move("d1d5".to_string(), &b);
    assert!(a != 0);
    let mut after = board_from("4k3/8/8/3r4/8/8/8/3QK3 w - - 0 1");
    assert!(make_move(a, &mut after));
    let taken_rook = -eval(&after);
    assert!(taken_rook > stand);
    let q = quiescence(&mut b, -30000, 30000, &mut info, &config);
    assert_eq!(q, taken_rook);
}

#[test]
fn search_takes_a_settling_table_entry() {
    let config = ConfigInfo::new();
    let mut info: SearchInfo = Default::default();
    let mut b = board_from(START);
    clear_info(&mut b, &mut info);
    let m = create_move(35, 55, 0, 0, 0x800000);
    store_trans_move(&mut b, m, 123, 5, TransFlag::Exact);
    assert_eq!(alpha_beta(&mut b, &mut info, -30000, 30000, 3, &config), 123);
    store_trans_move(&mut b, m, -400, 5, TransFlag::Alpha);
    assert_eq!(alpha_beta(&mut b, &mut info, -50, 50, 3, &config), -50);
    let w = alpha_beta(&mut b, &mut info, -500, 500, 2, &config);
    assert!(-500 <= w && w <= 500);
}

#[test]
fn position_command_refuses_what_it_cannot_play() {
    let mut b: BoardStructure = Default::default();
    // a move that names no pseudo legal move
    assert!(!parse_position(chars("position startpos moves e2e4 e7e4\n"), &mut b));
    // a move text that does not read
    let mut c: BoardStructure = Default::default();
    assert!(!parse_position(chars("position startpos moves e2e4 #7e5\n"), &mut c));
    // an illegal but pseudo legal move is passed over
    let mut d: BoardStructure = Default::default();
    assert!(parse_position(chars("position fen 4k3/8/8/8/8/8/3q4/R3K3 w - - 0 1 moves a1a2 e1d2\n"), &mut d));
    assert_eq!(d.ply_depth, 1);
    assert_eq!(d.board[34], Pieces::Wk);
    // a FEN that does not read
    let mut e: BoardStructure = Default::default();
    assert!(!parse_position(chars("position fen 9/8/8/8/8/8/8/8 w - - 0 1\n"), &mut e));
}

#[test]
fn a_search_is_remembered_by_the_table() {
    let config = ConfigInfo::new();
    let mut info: SearchInfo = Default::default();
    let mut b = board_from(KIWIPETE);
    clear_info(&mut b, &mut info);
    let first = alpha_beta(&mut b, &mut info, -300, 300, 1, &config);
    assert!(-300 <= first && first <= 300);
    let nodes = info.nodes;
    let again = alpha_beta(&mut b, &mut info, -300, 300, 1, &config);
    assert_eq!(again, first);
    // the second search is settled by the table at once
    assert_eq!(info.nodes, nodes + 1);
}

#[test]
fn polyglot_castling_is_read_as_castling() {
    let b = board_from("r3k2r/8/8/8/8/8/8/R3K2R w KQkq - 0 1");
    // e1h1: the king takes its own rook
    let m = parse_polymove(263, &b);
    assert_eq!(m, create_move(25, 27, 0, 0, 0x1000000));
    // e1a1: queen side
    let q = parse_polymove(256, &b);
    assert_eq!((from_sq(q), to_sq(q)), (25, 23));
    assert!(q & 0x1000000 != 0);
    let c = board_from("r3k2r/8/8/8/8/8/8/R3K2R b KQkq - 0 1");
    // e8h8 = from file 4 rank 7 to file 7 rank 7
    let bm = parse_polymove((4 << 6) | (7 << 9) | 7 | (7 << 3), &c);
    assert_eq!((from_sq(bm), to_sq(bm)), (95, 97));
}

#[test]
fn position_command_plays_the_named_moves() {
    let mut b: BoardStructure = Default::default();
    assert!(parse_position(chars("position startpos moves e2e4 e7e5\n"), &mut b));
    assert_eq!(b.board[55], Pieces::Wp);
    assert_eq!(b.board[65], Pieces::Bp);
    assert_eq!(b.board[35], Pieces::Empty);
    assert_eq!(b.board[85], Pieces::Empty);
    assert_eq!(b.side, Players::White);
    assert_eq!(b.en_pas, 75);
    assert_eq!(b.ply_depth, 2);
    assert_eq!(b.ply, 0);
    assert_eq!(b.pos_key, generate_position_hash(&b));
}

#[test]
fn piece_lists_keep_their_order() {
    let mut b = board_from(KIWIPETE);
    let lists = b.piece_list;
    let nums = b.num_pieces;
    let key = b.pos_key;
    add_piece(Pieces::Wn, 53, &mut b);
    assert_eq!(b.piece_list[2][nums[2]], 53);
    clear_piece(53, &mut b);
    assert_eq!(b.num_pieces, nums);
    for p in 0..13 {
        assert_eq!(b.piece_list[p][..nums[p]], lists[p][..nums[p]]);
    }
    assert_eq!(b.pos_key, key);
    // a white pawn (d5 = 64) forward and back keeps its slot
    move_piece(64, 74, &mut b);
    move_piece(74, 64, &mut b);
    for p in 0..13 {
        assert_eq!(b.piece_list[p][..nums[p]], lists[p][..nums[p]]);
    }
    assert_eq!(b.pos_key, key);
}

#[test]
fn depth_one_search_is_the_best_quiescence_reply() {
    let config = ConfigInfo::new();
    let mut info: SearchInfo = Default::default();
    let mut b = board_from(KIWIPETE);
    clear_info(&mut b, &mut info);
    let mut list = MoveListStructure::new();
    pseudo_legal_move_gen(&b, &mut list);
    let mut best = i32::MIN;
    for i in 0..list.length {
        if make_move(list.moves[i].action, &mut b) {
            let q = quiescence(&mut b, -30000, 30000, &mut info, &config);
            unmake_move(&mut b);
            best = best.max(-q);
        }
    }
    let expected = best.clamp(-30000, 30000);
    clear_info(&mut b, &mut info);
    let r = alpha_beta(&mut b, &mut info, -30000, 30000, 1, &config);
    assert!(!info.table_cut);
    assert_eq!(r, expected);
    // a narrow window clamps the same value
    let mut c = board_from(KIWIPETE);
    clear_info(&mut c, &mut info);
    let r2 = alpha_beta(&mut c, &mut info, expected - 10, expected + 10, 1, &config);
    assert_eq!(r2, expected);
}

#[test]
fn the_reported_best_move_has_the_reported_score() {
    let config = ConfigInfo::new();
    let mut info: SearchInfo = Default::default();
    let mut b = board_from(KIWIPETE);
    clear_info(&mut b, &mut info);
    let (score, n) = search_iteration(&mut b, &mut info, &config, 1).unwrap();
    assert!(!info.table_cut);
    assert!(n >= 1);
    let best = b.pv_line[0];
    assert!(make_move(best, &mut b));
    let q = quiescence(&mut b, -30000, 30000, &mut info, &config);
    unmake_move(&mut b);
    assert_eq!(-q, score);
}

#[test]
fn moves_are_generated_where_the_other_king_stands_in_check() {
    // black's king is attacked with white to move: not a position the
    // engine plays from, but the generator still lists white's moves
    let b = board_from("4k3/4R3/8/8/8/8/8/4K3 w - - 0 1");
    assert!(!position_valid(&b));
    let mut list = MoveListStructure::new();
    pseudo_legal_move_gen(&b, &mut list);
    // king: d1, d2, e2, f2, f1; rook: 7 along the rank, 5 down the file, e8
    assert_eq!(list.length, 5 + 7 + 5 + 1);
}
