//! The engine's data structures: board, move lists, transposition table,
//! search information, opening book and configuration.

use vstd::prelude::*;
use crate::statics::{Pieces, Players, NO_SQ, DEFAULT_TRANS_TABLE_SIZE, TRANS_ENTRY_BYTES};

verus! {

/// What is needed to take back a move.
#[derive(PartialEq, Eq, Copy, Clone, Debug, Structural)]
pub struct Undo {
    pub action: usize,
    pub castle_perm: u8,
    pub en_pas: usize,
    pub fifty_cnt: usize,
    pub pos_key: u64,
}

impl Undo {
    pub open spec fn spec_empty() -> Undo {
        Undo { action: 0, castle_perm: 0, en_pas: 0, fifty_cnt: 0, pos_key: 0 }
    }

    /// The all-zero entry.
    pub fn empty() -> (r: Undo)
        ensures
            r == Self::spec_empty(),
    {
        Undo { action: 0, castle_perm: 0, en_pas: 0, fifty_cnt: 0, pos_key: 0 }
    }
}

/// A move packed into one number, with its ordering score.
///
/// | castle | pawn start | en passant | promoted | captured | to     | from   |
/// | bit 24 | bit 23     | bit 22     | 18..22   | 14..18   | 7..14  | 0..7   |
#[derive(PartialEq, Eq, Copy, Clone, Debug, Structural)]
pub struct MoveStructure {
    pub action: usize,
    pub score: usize,
}

/// A list of at most 255 moves.
#[derive(Copy, Clone)]
pub struct MoveListStructure {
    pub moves: [MoveStructure; 255],
    pub length: usize,
}

impl MoveListStructure {
    /// An empty list.
    pub fn new() -> (r: MoveListStructure)
        ensures
            r.length == 0,
            forall|i: int| 0 <= i < 255 ==> r.moves[i] == (MoveStructure { action: 0, score: 0 }),
    {
        MoveListStructure { moves: [MoveStructure { action: 0, score: 0 }; 255], length: 0 }
    }
}

impl Default for MoveListStructure {
    fn default() -> (r: MoveListStructure)
        ensures
            r.length == 0,
            forall|i: int| 0 <= i < 255 ==> r.moves[i] == (MoveStructure { action: 0, score: 0 }),
    {
        MoveListStructure::new()
    }
}

/// How the score of a transposition table entry bounds the true score.
#[derive(PartialEq, Eq, Copy, Clone, Debug, Structural)]
pub enum TransFlag {
    NoFlag,
    Alpha,
    Beta,
    Exact,
}

impl Default for TransFlag {
    fn default() -> (r: TransFlag)
        ensures
            r == TransFlag::NoFlag,
    {
        TransFlag::NoFlag
    }
}

/// A position that was already searched.
#[derive(PartialEq, Eq, Copy, Clone, Debug, Structural)]
pub struct TransTableEntry {
    pub pos_key: u64,
    pub action: usize,
    pub score: i32,
    pub depth: usize,
    pub flag: TransFlag,
}

impl TransTableEntry {
    pub open spec fn spec_empty() -> TransTableEntry {
        TransTableEntry { pos_key: 0, action: 0, score: 0, depth: 0, flag: TransFlag::NoFlag }
    }

    pub fn empty() -> (r: TransTableEntry)
        ensures
            r == Self::spec_empty(),
    {
        TransTableEntry { pos_key: 0, action: 0, score: 0, depth: 0, flag: TransFlag::NoFlag }
    }
}

/// Transposition table: a position with key `k` lives in slot
/// `k % num_entries`; two spare slots follow the addressed ones.
pub struct TransTable {
    pub entries: Vec<TransTableEntry>,
    pub num_entries: usize,
}

impl TransTable {
    pub open spec fn wf(&self) -> bool {
        &&& self.num_entries > 0
        &&& self.entries@.len() == self.num_entries + 2
    }

    /// A table of `size` bytes, each entry taking `TRANS_ENTRY_BYTES` bytes,
    /// all entries empty.
    pub fn with_size(size: usize) -> (r: TransTable)
        requires
            size / TRANS_ENTRY_BYTES >= 3,
        ensures
            r.wf(),
            r.num_entries == size / TRANS_ENTRY_BYTES - 2,
            forall|i: int| 0 <= i < r.entries@.len() ==> r.entries@[i] == TransTableEntry::spec_empty(),
    {
        let n: usize = size / TRANS_ENTRY_BYTES;
        let mut entries: Vec<TransTableEntry> = Vec::new();
        let mut i: usize = 0;
        while i < n
            invariant
                i <= n,
                entries@.len() == i,
                forall|j: int| 0 <= j < i ==> entries@[j] == TransTableEntry::spec_empty(),
            decreases n - i,
        {
            entries.push(TransTableEntry::empty());
            i = i + 1;
        }
        TransTable { entries, num_entries: n - 2 }
    }
}

impl Default for TransTable {
    fn default() -> (r: TransTable)
        ensures
            r.wf(),
            r.num_entries == DEFAULT_TRANS_TABLE_SIZE / TRANS_ENTRY_BYTES - 2,
            forall|i: int| 0 <= i < r.entries@.len() ==> r.entries@[i] == TransTableEntry::spec_empty(),
    {
        TransTable::with_size(DEFAULT_TRANS_TABLE_SIZE)
    }
}

/// Random keys of the Zobrist position hash.
pub struct ZobristKeys {
    /// Key of a piece (index 1..13) on a mailbox square; index 0 is the key
    /// of the en passant square.
    pub piece_keys: [[u64; 13]; 120],
    /// Key of white to move.
    pub side_key: u64,
    /// Key of each castling permission byte.
    pub castling_keys: [u64; 16],
}

/// A random `u64` (`rand::random`).  Nothing is stated of the value.
#[verifier::external_body]
fn random_u64() -> u64 {
    rand::random::<u64>()
}

impl ZobristKeys {
    /// Fresh random keys.
    pub fn random() -> (r: ZobristKeys) {
        let mut keys = ZobristKeys { piece_keys: [[0u64; 13]; 120], side_key: 0, castling_keys: [0u64; 16] };
        let mut sq: usize = 0;
        while sq < 120
            invariant
                sq <= 120,
            decreases 120 - sq,
        {
            let mut p: usize = 0;
            while p < 13
                invariant
                    sq < 120,
                    p <= 13,
                decreases 13 - p,
            {
                keys.piece_keys[sq][p] = random_u64();
                p = p + 1;
            }
            sq = sq + 1;
        }
        keys.side_key = random_u64();
        let mut c: usize = 0;
        while c < 16
            invariant
                c <= 16,
            decreases 16 - c,
        {
            keys.castling_keys[c] = random_u64();
            c = c + 1;
        }
        keys
    }
}

/// A chess position with everything the search keeps about it.
pub struct BoardStructure {
    /// Contents of the 120 mailbox squares.
    pub board: [Pieces; 120],
    /// Pawn bitboards of white, black and both.
    pub pawns: [u64; 3],
    /// For each piece, the squares it stands on (first `num_pieces` slots).
    pub piece_list: [[usize; 10]; 13],
    /// Square of each king.
    pub king_sqs: [usize; 2],
    /// Side to move.
    pub side: Players,
    /// Castling permissions, one bit per `CastlingRights`.
    pub castle_perm: u8,
    /// En passant square, `NO_SQ` (0) if there is none.
    pub en_pas: usize,
    /// Half moves since the last capture or pawn move.
    pub fifty_cnt: usize,
    /// Half moves made on this board (index into `history`).
    pub ply_depth: usize,
    /// Half moves made in the current search.
    pub ply: usize,
    /// Zobrist key of the position.
    pub pos_key: u64,
    /// Number of each piece on the board.
    pub num_pieces: [usize; 13],
    /// Non pawn pieces of each color.
    pub big_pieces: [u8; 2],
    /// Knights and bishops of each color.
    pub min_pieces: [u8; 2],
    /// Rooks, queens and kings of each color.
    pub maj_pieces: [u8; 2],
    /// Material of each color.
    pub mat_strength: [usize; 2],
    /// History heuristic: score of quiet moves by target square and piece.
    pub search_history: [[usize; 13]; 120],
    /// Killer moves by ply.
    pub search_killers: [[usize; 2]; 64],
    /// Principal variation of the last search.
    pub pv_line: [usize; 64],
    /// What is needed to take back each made move.
    pub history: [Undo; 1024],
    /// Transposition table.
    pub trans_table: TransTable,
    /// Keys of the position hash.
    pub keys: ZobristKeys,
}

impl Default for BoardStructure {
    /// An empty board: every square `Empty`, no pieces, side `Both`,
    /// fresh random hash keys and an empty transposition table.
    fn default() -> (r: BoardStructure)
        ensures
            forall|i: int| 0 <= i < 120 ==> r.board[i] == Pieces::Empty,
            r.pawns@ == seq![0u64, 0u64, 0u64],
            forall|i: int| 0 <= i < 13 ==> r.num_pieces[i] == 0,
            r.king_sqs@ == seq![NO_SQ, NO_SQ],
            r.side == Players::Both,
            r.castle_perm == 0,
            r.en_pas == 0,
            r.fifty_cnt == 0,
            r.ply_depth == 0,
            r.ply == 0,
            r.pos_key == 0,
            r.mat_strength@ == seq![0usize, 0usize],
            r.big_pieces@ == seq![0u8, 0u8],
            r.min_pieces@ == seq![0u8, 0u8],
            r.maj_pieces@ == seq![0u8, 0u8],
            forall|p: int, i: int| 0 <= p < 13 && 0 <= i < 10 ==> r.piece_list[p][i] == NO_SQ,
            forall|i: int| 0 <= i < 64 ==> r.pv_line[i] == 0,
            forall|t: int, p: int| 0 <= t < 120 && 0 <= p < 13 ==> r.search_history[t][p] == 0,
            forall|i: int, j: int| 0 <= i < 64 && 0 <= j < 2 ==> r.search_killers[i][j] == 0,
            r.trans_table.wf(),
            r.trans_table.num_entries == DEFAULT_TRANS_TABLE_SIZE / TRANS_ENTRY_BYTES - 2,
            forall|i: int| 0 <= i < r.trans_table.entries@.len() ==> r.trans_table.entries@[i]
                == TransTableEntry::spec_empty(),
            forall|i: int| 0 <= i < 1024 ==> r.history[i] == Undo::spec_empty(),
    {
        let r = BoardStructure {
            board: [Pieces::Empty; 120],
            pawns: [0u64; 3],
            piece_list: [[NO_SQ; 10]; 13],
            king_sqs: [NO_SQ; 2],
            side: Players::Both,
            castle_perm: 0u8,
            en_pas: 0usize,
            fifty_cnt: 0usize,
            ply_depth: 0usize,
            ply: 0usize,
            pos_key: 0u64,
            num_pieces: [0usize; 13],
            big_pieces: [0u8; 2],
            min_pieces: [0u8; 2],
            maj_pieces: [0u8; 2],
            mat_strength: [0usize; 2],
            search_history: [[0usize; 13]; 120],
            search_killers: [[0usize; 2]; 64],
            pv_line: [0usize; 64],
            history: [Undo::empty(); 1024],
            trans_table: TransTable::default(),
            keys: ZobristKeys::random(),
        };
        assert(r.pawns@ == seq![0u64, 0u64, 0u64]);
        assert(r.king_sqs@ == seq![NO_SQ, NO_SQ]);
        assert(r.mat_strength@ == seq![0usize, 0usize]);
        assert(r.big_pieces@ == seq![0u8, 0u8]);
        assert(r.min_pieces@ == seq![0u8, 0u8]);
        assert(r.maj_pieces@ == seq![0u8, 0u8]);
        r
    }
}

/// State of a search: its limits, the time it may use, and what it has
/// counted.
#[derive(Copy, Clone)]
pub struct SearchInfo {
    /// The search is timed.
    pub timed: bool,
    /// When the search started (milliseconds since the Unix epoch).
    pub start_time: u128,
    /// When the search must stop.
    pub stop_time: u128,
    /// Depth limit of the iterative deepening.
    pub depth_lim: usize,
    pub ply_depth: usize,
    pub moves_to_go: usize,
    pub inf: usize,
    /// Nodes searched.
    pub nodes: usize,
    pub quit: bool,
    /// The search was stopped (time up).
    pub stopped: bool,
    /// Beta cutoffs.
    pub fail_high: usize,
    /// Beta cutoffs at the first legal move searched.
    pub fail_high_fst: usize,
    /// A transposition table entry settled a search.
    pub table_cut: bool,
}

impl Default for SearchInfo {
    fn default() -> (r: SearchInfo)
        ensures
            r == (SearchInfo {
                timed: false,
                start_time: 0,
                stop_time: 0,
                depth_lim: 0,
                ply_depth: 0,
                moves_to_go: 0,
                inf: 0,
                nodes: 0,
                quit: false,
                stopped: false,
                fail_high: 0,
                fail_high_fst: 0,
                table_cut: false,
            }),
    {
        SearchInfo {
            timed: false,
            start_time: 0,
            stop_time: 0,
            depth_lim: 0,
            ply_depth: 0,
            moves_to_go: 0,
            inf: 0,
            nodes: 0,
            quit: false,
            stopped: false,
            fail_high: 0,
            fail_high_fst: 0,
            table_cut: false,
        }
    }
}

/// An entry of a Polyglot opening book.
#[derive(Copy, Clone)]
pub struct PolyglotBookEntry {
    pub key: u64,
    pub action: u16,
    pub weigth: u16,
    pub learn: u32,
}

/// A Polyglot opening book: its entries in file order.
pub struct PolyglotBook {
    pub entries: Vec<PolyglotBookEntry>,
}

/// Settings of the engine.
pub struct ConfigInfo {
    pub use_opening_book: bool,
    pub opening_book_path: String,
    pub trans_table_size: usize,
    pub use_endgame_database: bool,
    pub endgame_database_path: String,
    /// A position with fifty or more moves without capture or pawn move
    /// scores 0.
    pub fifty_null: bool,
    /// A repeated position scores 0.
    pub threefold_null: bool,
    /// Count beta cutoffs to report the move ordering quality.
    pub fhfquot: bool,
}

/// The setting a line of the configuration file sets.
#[derive(PartialEq, Eq, Copy, Clone, Debug, Structural)]
pub enum ConfigLine {
    UseOpeningBook,
    OpeningBookPath,
    ThreefoldNull,
    FiftyNull,
    Fhfquot,
    Size,
    Other,
}

/// The string of the given characters (`String::from_iter`).
#[verifier::external_body]
fn string_from_chars(v: &Vec<char>) -> (r: String)
    ensures
        r@ == v@,
{
    String::from_iter(v.iter())
}

/// `line` starts with `w`.
pub open spec fn starts_with(line: Seq<char>, w: Seq<char>) -> bool {
    line.len() >= w.len() && line.subrange(0, w.len() as int) == w
}

fn starts_with_exec(line: &Vec<char>, w: &Vec<char>) -> (r: bool)
    ensures
        r == starts_with(line@, w@),
{
    if line.len() < w.len() {
        return false;
    }
    let mut i: usize = 0;
    while i < w.len()
        invariant
            w@.len() <= line@.len(),
            i <= w@.len(),
            forall|q: int| 0 <= q < i ==> line@[q] == w@[q],
        decreases w@.len() - i,
    {
        if line[i] != w[i] {
            assert(line@.subrange(0, w@.len() as int)[i as int] != w@[i as int]);
            return false;
        }
        i = i + 1;
    }
    assert(line@.subrange(0, w@.len() as int) =~= w@);
    true
}

/// The characters of `line` after its first `n`.
fn rest_of(line: &Vec<char>, n: usize) -> (r: Vec<char>)
    requires
        n <= line@.len(),
    ensures
        r@ == line@.subrange(n as int, line@.len() as int),
{
    let mut r: Vec<char> = Vec::new();
    let mut i: usize = n;
    while i < line.len()
        invariant
            n <= i <= line@.len(),
            r@ == line@.subrange(n as int, i as int),
        decreases line@.len() - i,
    {
        r.push(line[i]);
        i = i + 1;
    }
    r
}

fn is_true_exec(v: &Vec<char>) -> (r: bool)
    ensures
        r == (v@ == seq!['t', 'r', 'u', 'e']),
{
    let t: Vec<char> = vec!['t', 'r', 'u', 'e'];
    assert(t@ == seq!['t', 'r', 'u', 'e']);
    if v.len() != 4 {
        return false;
    }
    let r: bool = v[0] == 't' && v[1] == 'r' && v[2] == 'u' && v[3] == 'e';
    proof {
        if r {
            assert(v@ =~= seq!['t', 'r', 'u', 'e']);
        }
    }
    r
}

impl ConfigInfo {
    /// The settings before the configuration is read: opening book on,
    /// everything else off or empty.
    pub fn new() -> (r: ConfigInfo)
        ensures
            r.use_opening_book,
            r.opening_book_path@ == Seq::<char>::empty(),
            r.trans_table_size == 0,
            !r.use_endgame_database,
            r.endgame_database_path@ == Seq::<char>::empty(),
            !r.fifty_null,
            !r.threefold_null,
            !r.fhfquot,
    {
        ConfigInfo {
            use_opening_book: true,
            opening_book_path: String::new(),
            trans_table_size: 0,
            use_endgame_database: false,
            endgame_database_path: String::new(),
            fifty_null: false,
            threefold_null: false,
            fhfquot: false,
        }
    }

    /// Apply one line of the configuration file (`NAME: value`); the
    /// setting it set. Switches are on exactly for the value `true`; the
    /// size is the number that starts the value.
    pub fn apply_line(&mut self, line: &Vec<char>) -> (r: ConfigLine)
        requires
            starts_with(line@, "SIZE: "@) && !starts_with(line@, "USE OPENING BOOK: "@) ==> ({
                let v = line@.subrange(6, line@.len() as int);
                crate::uci::digits_len(v) > 0 && crate::uci::digits_value(v, crate::uci::digits_len(v) as int)
                    <= usize::MAX
            }),
        ensures
            r == (if starts_with(line@, "USE OPENING BOOK: "@) {
                ConfigLine::UseOpeningBook
            } else if starts_with(line@, "OPENING BOOK PATH: "@) {
                ConfigLine::OpeningBookPath
            } else if starts_with(line@, "ADD THREEFOLD REPETITION NULL: "@) {
                ConfigLine::ThreefoldNull
            } else if starts_with(line@, "ADD 50 COUNT NULL: "@) {
                ConfigLine::FiftyNull
            } else if starts_with(line@, "PRINT FAIL HIGH FIRST QUOTIENT: "@) {
                ConfigLine::Fhfquot
            } else if starts_with(line@, "SIZE: "@) {
                ConfigLine::Size
            } else {
                ConfigLine::Other
            }),
            r == ConfigLine::UseOpeningBook ==> final(self).use_opening_book == (line@.subrange(18, line@.len() as int)
                == seq!['t', 'r', 'u', 'e']),
            r == ConfigLine::ThreefoldNull ==> final(self).threefold_null == (line@.subrange(31, line@.len() as int)
                == seq!['t', 'r', 'u', 'e']),
            r == ConfigLine::FiftyNull ==> final(self).fifty_null == (line@.subrange(19, line@.len() as int) == seq![
                't',
                'r',
                'u',
                'e',
            ]),
            r == ConfigLine::Fhfquot ==> final(self).fhfquot == (line@.subrange(32, line@.len() as int) == seq![
                't',
                'r',
                'u',
                'e',
            ]),
            r != ConfigLine::UseOpeningBook ==> final(self).use_opening_book == old(self).use_opening_book,
            r != ConfigLine::OpeningBookPath ==> final(self).opening_book_path == old(self).opening_book_path,
            r != ConfigLine::ThreefoldNull ==> final(self).threefold_null == old(self).threefold_null,
            r != ConfigLine::FiftyNull ==> final(self).fifty_null == old(self).fifty_null,
            r != ConfigLine::Fhfquot ==> final(self).fhfquot == old(self).fhfquot,
            r != ConfigLine::Size ==> final(self).trans_table_size == old(self).trans_table_size,
            final(self).use_endgame_database == old(self).use_endgame_database,
            final(self).endgame_database_path == old(self).endgame_database_path,
            r == ConfigLine::OpeningBookPath ==> final(self).opening_book_path@ == line@.subrange(19, line@.len() as int),
            r == ConfigLine::Size ==> final(self).trans_table_size == crate::uci::digits_value(
                line@.subrange(6, line@.len() as int),
                crate::uci::digits_len(line@.subrange(6, line@.len() as int)) as int,
            ),
    {
        let use_book: Vec<char> = chars_lit(0);
        let book_path: Vec<char> = chars_lit(1);
        let threefold: Vec<char> = chars_lit(2);
        let fifty: Vec<char> = chars_lit(3);
        let fhf: Vec<char> = chars_lit(4);
        let size: Vec<char> = chars_lit(5);
        if starts_with_exec(line, &use_book) {
            self.use_opening_book = is_true_exec(&rest_of(line, 18));
            ConfigLine::UseOpeningBook
        } else if starts_with_exec(line, &book_path) {
            self.opening_book_path = string_from_chars(&rest_of(line, 19));
            ConfigLine::OpeningBookPath
        } else if starts_with_exec(line, &threefold) {
            self.threefold_null = is_true_exec(&rest_of(line, 31));
            ConfigLine::ThreefoldNull
        } else if starts_with_exec(line, &fifty) {
            self.fifty_null = is_true_exec(&rest_of(line, 19));
            ConfigLine::FiftyNull
        } else if starts_with_exec(line, &fhf) {
            self.fhfquot = is_true_exec(&rest_of(line, 32));
            ConfigLine::Fhfquot
        } else if starts_with_exec(line, &size) {
            let v: Vec<char> = rest_of(line, 6);
            let (n, _len) = crate::uci::parse_num(v);
            self.trans_table_size = match n {
                Some(x) => x,
                None => 0,
            };
            ConfigLine::Size
        } else {
            ConfigLine::Other
        }
    }
}

/// The names of the settings, with their colon and space.
fn chars_lit(which: usize) -> (r: Vec<char>)
    ensures
        which == 0 ==> r@ == "USE OPENING BOOK: "@,
        which == 1 ==> r@ == "OPENING BOOK PATH: "@,
        which == 2 ==> r@ == "ADD THREEFOLD REPETITION NULL: "@,
        which == 3 ==> r@ == "ADD 50 COUNT NULL: "@,
        which == 4 ==> r@ == "PRINT FAIL HIGH FIRST QUOTIENT: "@,
        which == 5 ==> r@ == "SIZE: "@,
        which == 0 ==> r@.len() == 18,
        which == 1 ==> r@.len() == 19,
        which == 2 ==> r@.len() == 31,
        which == 3 ==> r@.len() == 19,
        which == 4 ==> r@.len() == 32,
        which == 5 ==> r@.len() == 6,
{
    proof {
        reveal_strlit("USE OPENING BOOK: ");
        reveal_strlit("OPENING BOOK PATH: ");
        reveal_strlit("ADD THREEFOLD REPETITION NULL: ");
        reveal_strlit("ADD 50 COUNT NULL: ");
        reveal_strlit("PRINT FAIL HIGH FIRST QUOTIENT: ");
        reveal_strlit("SIZE: ");
    }
    let s: &str = if which == 0 {
        "USE OPENING BOOK: "
    } else if which == 1 {
        "OPENING BOOK PATH: "
    } else if which == 2 {
        "ADD THREEFOLD REPETITION NULL: "
    } else if which == 3 {
        "ADD 50 COUNT NULL: "
    } else if which == 4 {
        "PRINT FAIL HIGH FIRST QUOTIENT: "
    } else {
        "SIZE: "
    };
    crate::fen::chars_of(s)
}

} // verus!
