//! A chess engine library: mailbox board with piece lists and pawn
//! bitboards, incremental Zobrist hashing, move generation, making and
//! unmaking moves, alpha-beta search with a transposition table, FEN and
//! UCI move parsing, and Polyglot opening books.

pub mod statics;
pub mod bitboards;
pub mod structs;
pub mod model;
pub mod do_undo_moves;
pub mod rules;
pub mod legal_move_gen;
pub mod hash;
pub mod fen;
pub mod validation;
pub mod evaluation;
pub mod trans_table;
pub mod clock;
pub mod principal_variation;
pub mod search_value;
pub mod search;
pub mod uci;
pub mod polyglot;
pub mod perft;
pub mod laws;
