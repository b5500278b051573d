# eden_chess

Eden is a UCI chess engine. This crate holds its engine library, written
in Verus with every function proved against its contract, and a small
program around it.

## Layout

- `src/` – the verified library.
  - `statics`, `structs`, `bitboards`: pieces, squares, constants, the board
    and search structures, bit helpers.
  - `model`, `rules`: the mathematical model the contracts speak of (piece
    counts, the Zobrist hash of a position, attacked squares, pseudo legal
    and legal moves, making and taking back a move, lines of moves).
  - `do_undo_moves`, `legal_move_gen`, `hash`: making and taking back
    moves, move generation (sound and complete: exactly the packed pseudo
    legal moves, each once), the position key.
  - `fen`, `validation`, `uci`, `polyglot`: reading FEN, board checks, UCI
    commands and move texts, Polyglot opening books.
  - `evaluation`, `trans_table`, `principal_variation`, `search`, `clock`:
    evaluation, transposition table, principal variation, alpha-beta and
    quiescence search, the wall clock.
  - `search_value`: the values the searches compute, defined over
    positions (quiescence value, negamax value to a depth); the searches
    are proved to return them, clamped to their window.
  - `perft`: counting the lines of legal moves, proved equal to the count
    defined over the rules.
  - `laws`: laws that tie several operations together.
- `tests/`: tests on concrete positions (perft counts, move lists, UCI
  commands, the transposition table, opening books).
- `app/`: the program: the UCI loop, a console game, perft runs and
  printing; it reads `config.txt`, the opening book, and the Polyglot hash
  keys from `polyglot_keys.bin` (781 big endian 64 bit keys).
