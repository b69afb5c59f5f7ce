//! Derivation of a canonical position string from a board snapshot.

use vstd::prelude::*;
use vstd::string::*;
use vstd::set_lib::lemma_subset_equality;
use crate::pieces::PieceMap;
use crate::text::{decimal, join, join_strings, push_decimal, str_eq, views_of};

verus! {

/// What a client reports about the position beyond the placement.
#[derive(Clone, Copy, Debug, PartialEq, Eq)]
pub struct BoardFlags {
    pub possible_castling: bool,
    pub possible_en_passant: bool,
    pub board_flipped: bool,
}

/// One square of a detailed layout.
#[derive(Clone, Debug, PartialEq, Eq)]
pub struct SquareInfo {
    pub square: String,
    pub piece: Option<String>,
}

/// A detailed layout of the board, rank by rank.
#[derive(Clone, Debug, PartialEq, Eq)]
pub struct BoardLayout {
    pub files: usize,
    pub ranks: usize,
    pub squares: Vec<Vec<SquareInfo>>,
}

/// A snapshot of a game as a client sees it.
pub struct BoardData {
    pub game_id: String,
    pub pieces: PieceMap,
    pub move_list: Vec<String>,
    pub raw_move_text: Option<String>,
    pub variant: String,
    pub flags: BoardFlags,
    pub board_orientation: String,
    pub board_layout: Option<BoardLayout>,
    pub timestamp: u64,
}

/// A derived position with the game it belongs to.
#[derive(Clone, Debug, PartialEq, Eq)]
pub struct FenResult {
    pub fen: String,
    pub variant: String,
    pub game_id: String,
}

/// Why no position could be derived.
#[derive(Clone, Copy, Debug, PartialEq, Eq)]
pub enum FenError {
    /// An entry of the piece map cannot be read: its name is not the name of
    /// one of the 64 squares, or its piece code has fewer than two characters.
    MalformedSquare,
}

/// The uppercase mapping of a character as `char::to_uppercase` yields it.
pub uninterp spec fn uppercase_of(c: char) -> Seq<char>;

/// The lowercase mapping of a character as `char::to_lowercase` yields it.
pub uninterp spec fn lowercase_of(c: char) -> Seq<char>;

/// Calls `char::to_uppercase` and collects what it yields. The contract
/// names the result, since the mapping follows the Unicode tables of the
/// standard library, and says what the documentation promises of every
/// character: the mapping has at least one character.
#[verifier::external_body]
fn char_uppercase(c: char) -> (s: String)
    ensures
        s@ == uppercase_of(c),
        s@.len() >= 1,
{
    c.to_uppercase().collect()
}

/// Calls `char::to_lowercase` and collects what it yields. The contract
/// names the result, since the mapping follows the Unicode tables of the
/// standard library, and says what the documentation promises of every
/// character: the mapping has at least one character.
#[verifier::external_body]
fn char_lowercase(c: char) -> (s: String)
    ensures
        s@ == lowercase_of(c),
        s@.len() >= 1,
{
    c.to_lowercase().collect()
}

/// The name of the square in row `row` (0 is the eighth rank) and file `file`
/// (0 is the a-file).
pub open spec fn square_name(row: int, file: int) -> Seq<char> {
    seq![(97 + file) as char, (56 - row) as char]
}

/// Whether `name` is the name of one of the 64 squares.
pub open spec fn names_square(name: Seq<char>) -> bool {
    &&& name.len() == 2
    &&& 'a' <= name[0] <= 'h'
    &&& '1' <= name[1] <= '8'
}

/// The notation of a piece code: its second character, in upper case when the
/// first is `w` and in lower case otherwise.
pub open spec fn symbol_of(code: Seq<char>) -> Seq<char>
    recommends
        code.len() >= 2,
{
    if code[0] == 'w' {
        uppercase_of(code[1])
    } else {
        lowercase_of(code[1])
    }
}

/// What stands on a square: the notation of its piece, or nothing.
pub open spec fn cell_of(pieces: Map<Seq<char>, Seq<char>>, row: int, file: int) -> Seq<char> {
    if pieces.contains_key(square_name(row, file)) {
        symbol_of(pieces[square_name(row, file)])
    } else {
        Seq::empty()
    }
}

/// The 64 cells of a piece map, row by row from the eighth rank, each row from
/// the a-file.
pub open spec fn board_of(pieces: Map<Seq<char>, Seq<char>>) -> Seq<Seq<char>> {
    Seq::new(64, |i: int| cell_of(pieces, i / 8, i % 8))
}

/// Whether an entry cannot be read: its name is no square name, or its code
/// is too short to hold a colour and a piece.
pub open spec fn malformed_entry(name: Seq<char>, code: Seq<char>) -> bool {
    ||| !names_square(name)
    ||| code.len() < 2
}

/// Whether a piece map holds an entry that cannot be read.
pub open spec fn has_malformed_square(pieces: Map<Seq<char>, Seq<char>>) -> bool {
    exists|k: Seq<char>| pieces.contains_key(k) && malformed_entry(k, #[trigger] pieces[k])
}

/// Whether the cells of a piece map show which squares are occupied: the
/// cell of a square is empty exactly when the square has no piece.
pub open spec fn cells_show_occupancy(pieces: Map<Seq<char>, Seq<char>>) -> bool {
    forall|row: int, file: int|
        0 <= row < 8 && 0 <= file < 8 ==> (#[trigger] cell_of(pieces, row, file).len() > 0
            <==> pieces.contains_key(square_name(row, file)))
}

/// Every name that `square_name` gives for a row and a file of the board
/// names a square, and it names no other row or file.
pub proof fn lemma_square_names(row: int, file: int)
    requires
        0 <= row < 8,
        0 <= file < 8,
    ensures
        names_square(square_name(row, file)),
        forall|r: int, f: int|
            0 <= r < 8 && 0 <= f < 8 && #[trigger] square_name(r, f) == square_name(row, file)
                ==> r == row && f == file,
{
    assert forall|r: int, f: int|
        0 <= r < 8 && 0 <= f < 8 && #[trigger] square_name(r, f) == square_name(
            row,
            file,
        ) implies r == row && f == file by {
        assert(square_name(r, f)[0] == square_name(row, file)[0]);
        assert(square_name(r, f)[1] == square_name(row, file)[1]);
    }
}

/// The 64 cells of a board, row by row from the eighth rank.
#[derive(Debug, PartialEq, Eq)]
pub struct Board {
    cells: Vec<String>,
}

impl View for Board {
    type V = Seq<Seq<char>>;

    closed spec fn view(&self) -> Seq<Seq<char>> {
        views_of(self.cells@)
    }
}

impl Board {
    /// The invariant of the type: there are 64 cells.
    #[verifier::type_invariant]
    pub closed spec fn wf(&self) -> bool {
        self.cells@.len() == 64
    }

    /// A board on which every cell is empty.
    pub fn empty() -> (b: Board)
        ensures
            b@ == Seq::new(64, |i: int| Seq::<char>::empty()),
    {
        let mut cells: Vec<String> = Vec::new();
        let mut i: usize = 0;
        while i < 64
            invariant
                i <= 64,
                cells@.len() == i,
                forall|j: int| 0 <= j < i ==> (#[trigger] cells@[j])@ == Seq::<char>::empty(),
            decreases 64 - i,
        {
            cells.push(String::new());
            i += 1;
        }
        let b = Board { cells };
        assert(b@ =~= Seq::new(64, |i: int| Seq::<char>::empty()));
        b
    }

    /// The board with `symbol` in the cell of row `row` and file `file`;
    /// outside the board, the board unchanged.
    pub fn place(self, row: usize, file: usize, symbol: String) -> (b: Board)
        ensures
            self@.len() == 64,
            row < 8 && file < 8 ==> b@ == self@.update(row * 8 + file, symbol@),
            !(row < 8 && file < 8) ==> b@ == self@,
    {
        proof {
            use_type_invariant(&self);
        }
        if row < 8 && file < 8 {
            let ghost before = self@;
            let mut cells = self.cells;
            cells.set(row * 8 + file, symbol);
            let b = Board { cells };
            assert(b@ =~= before.update(row * 8 + file, symbol@));
            b
        } else {
            self
        }
    }

    /// The cell of row `row` and file `file`; outside the board, `None`.
    pub fn cell(&self, row: usize, file: usize) -> (c: Option<&String>)
        ensures
            self@.len() == 64,
            match c {
                Some(s) => row < 8 && file < 8 && s@ == self@[row * 8 + file],
                None => !(row < 8 && file < 8),
            },
    {
        proof {
            use_type_invariant(self);
        }
        if row < 8 && file < 8 {
            Some(&self.cells[row * 8 + file])
        } else {
            None
        }
    }
}

/// The notation of a piece code of at least two characters. It is never
/// empty.
pub fn piece_symbol(code: &str) -> (symbol: Option<String>)
    ensures
        match symbol {
            Some(s) => code@.len() >= 2 && s@ == symbol_of(code@) && s@.len() >= 1,
            None => code@.len() < 2,
        },
{
    if code.unicode_len() < 2 {
        return None;
    }
    let color = code.get_char(0);
    let piece = code.get_char(1);
    if color == 'w' {
        Some(char_uppercase(piece))
    } else {
        Some(char_lowercase(piece))
    }
}

/// The row and file of the square that `name` names. A name that names none
/// of the 64 squares is an error.
pub fn locate_square(name: &str) -> (at: Result<(usize, usize), FenError>)
    ensures
        match at {
            Ok((row, file)) => row < 8 && file < 8 && name@ == square_name(
                row as int,
                file as int,
            ),
            Err(e) => e == FenError::MalformedSquare && !names_square(name@),
        },
{
    if name.unicode_len() != 2 {
        return Err(FenError::MalformedSquare);
    }
    let c0 = name.get_char(0);
    let c1 = name.get_char(1);
    if 'a' <= c0 && c0 <= 'h' && '1' <= c1 && c1 <= '8' {
        let file: usize = (c0 as u32 - 97) as usize;
        let row: usize = (56 - c1 as u32) as usize;
        proof {
            assert(name@ =~= square_name(row as int, file as int));
        }
        Ok((row, file))
    } else {
        Err(FenError::MalformedSquare)
    }
}

/// The squares among the first `n` of the board, counted row by row from
/// the eighth rank, that a piece map has a piece for, by their names.
pub open spec fn occupied_among(pieces: Map<Seq<char>, Seq<char>>, n: int) -> Set<Seq<char>> {
    Set::new(
        |k: Seq<char>|
            exists|j: int|
                0 <= j < n && k == #[trigger] square_name(j / 8, j % 8) && pieces.contains_key(k),
    )
}

/// A square name is the name of a row and a file of the board.
pub proof fn lemma_square_name_is_located(name: Seq<char>)
    requires
        names_square(name),
    ensures
        exists|j: int| 0 <= j < 64 && name == #[trigger] square_name(j / 8, j % 8),
{
    let file = name[0] as int - 97;
    let row = 56 - name[1] as int;
    let j = row * 8 + file;
    assert(j / 8 == row && j % 8 == file);
    assert(name =~= square_name(j / 8, j % 8));
}

/// The name of the square in row `row` and file `file`.
fn name_of_square(row: usize, file: usize) -> (name: String)
    requires
        row < 8,
        file < 8,
    ensures
        name@ == square_name(row as int, file as int),
{
    let mut name = String::new();
    name.push((97u8 + file as u8) as char);
    name.push((56u8 - row as u8) as char);
    proof {
        assert(name@ =~= square_name(row as int, file as int));
    }
    name
}

/// Builds the board of a piece map: each entry puts the notation of its
/// piece on the square that it names. Fails exactly when an entry cannot be
/// read. On the board that is built, a cell is empty exactly when its square
/// has no piece.
pub fn place_pieces(pieces: &PieceMap) -> (placed: Result<Board, FenError>)
    ensures
        match placed {
            Ok(board) => {
                &&& !has_malformed_square(pieces@)
                &&& board@ == board_of(pieces@)
                &&& cells_show_occupancy(pieces@)
            },
            Err(e) => e == FenError::MalformedSquare && has_malformed_square(pieces@),
        },
{
    let mut board = Board::empty();
    let mut found: usize = 0;
    let mut i: usize = 0;
    proof {
        assert(occupied_among(pieces@, 0) =~= Set::<Seq<char>>::empty());
    }
    while i < 64
        invariant
            i <= 64,
            found <= i,
            board@.len() == 64,
            occupied_among(pieces@, i as int).finite(),
            occupied_among(pieces@, i as int).len() == found,
            forall|k: int| 0 <= k < i ==> #[trigger] board@[k] == cell_of(pieces@, k / 8, k % 8),
            forall|k: int| i <= k < 64 ==> (#[trigger] board@[k]).len() == 0,
            forall|k: int|
                0 <= k < i ==> ((#[trigger] board@[k]).len() > 0 <==> pieces@.contains_key(
                    square_name(k / 8, k % 8),
                )),
            forall|k: int|
                0 <= k < i && pieces@.contains_key(#[trigger] square_name(k / 8, k % 8))
                    ==> pieces@[square_name(k / 8, k % 8)].len() >= 2,
        decreases 64 - i,
    {
        let row = i / 8;
        let file = i % 8;
        let name = name_of_square(row, file);
        let ghost seen = occupied_among(pieces@, i as int);
        proof {
            assert(!seen.contains(name@)) by {
                if seen.contains(name@) {
                    let j = choose|j: int|
                        0 <= j < i && name@ == #[trigger] square_name(j / 8, j % 8)
                            && pieces@.contains_key(name@);
                    lemma_square_names(row as int, file as int);
                    assert(j / 8 == row && j % 8 == file);
                }
            }
        }
        match pieces.get(name.as_str()) {
            Some(code) => {
                match piece_symbol(code.as_str()) {
                    None => {
                        proof {
                            assert(malformed_entry(name@, pieces@[name@]));
                        }
                        return Err(FenError::MalformedSquare);
                    },
                    Some(symbol) => {
                        board = board.place(row, file, symbol);
                        found += 1;
                        proof {
                            assert(occupied_among(pieces@, i + 1) =~= seen.insert(name@)) by {
                                assert forall|k: Seq<char>|
                                    occupied_among(pieces@, i + 1).contains(k) implies seen.insert(
                                    name@,
                                ).contains(k) by {
                                    let j = choose|j: int|
                                        0 <= j < i + 1 && k == #[trigger] square_name(j / 8, j % 8)
                                            && pieces@.contains_key(k);
                                    if j < i {
                                        assert(seen.contains(k));
                                    }
                                }
                                assert forall|k: Seq<char>|
                                    seen.insert(name@).contains(k) implies occupied_among(
                                    pieces@,
                                    i + 1,
                                ).contains(k) by {
                                    if k == name@ {
                                        assert(k == square_name(i as int / 8, i as int % 8));
                                    } else {
                                        let j = choose|j: int|
                                            0 <= j < i && k == #[trigger] square_name(j / 8, j % 8)
                                                && pieces@.contains_key(k);
                                        assert(0 <= j < i + 1);
                                    }
                                }
                            }
                        }
                    },
                }
            },
            None => {
                proof {
                    assert(occupied_among(pieces@, i + 1) =~= seen) by {
                        assert forall|k: Seq<char>|
                            occupied_among(pieces@, i + 1).contains(k) implies seen.contains(
                            k,
                        ) by {
                            let j = choose|j: int|
                                0 <= j < i + 1 && k == #[trigger] square_name(j / 8, j % 8)
                                    && pieces@.contains_key(k);
                            assert(j < i);
                        }
                        assert forall|k: Seq<char>| seen.contains(k) implies occupied_among(
                            pieces@,
                            i + 1,
                        ).contains(k) by {
                            let j = choose|j: int|
                                0 <= j < i && k == #[trigger] square_name(j / 8, j % 8)
                                    && pieces@.contains_key(k);
                            assert(0 <= j < i + 1);
                        }
                    }
                }
            },
        }
        i += 1;
    }
    let total = pieces.len();
    let ghost squares = occupied_among(pieces@, 64);
    proof {
        assert(squares.subset_of(pieces@.dom()));
    }
    if found != total {
        proof {
            if !has_malformed_square(pieces@) {
                assert forall|k: Seq<char>| pieces@.dom().contains(k) implies squares.contains(
                    k,
                ) by {
                    assert(pieces@.contains_key(k));
                    assert(!malformed_entry(k, pieces@[k]));
                    lemma_square_name_is_located(k);
                }
                assert(squares =~= pieces@.dom());
            }
        }
        return Err(FenError::MalformedSquare);
    }
    proof {
        lemma_subset_equality(squares, pieces@.dom());
        if has_malformed_square(pieces@) {
            let k = choose|k: Seq<char>|
                pieces@.contains_key(k) && malformed_entry(k, #[trigger] pieces@[k]);
            assert(squares.contains(k));
            let j = choose|j: int|
                0 <= j < 64 && k == #[trigger] square_name(j / 8, j % 8) && pieces@.contains_key(k);
            lemma_square_names(j / 8, j % 8);
        }
        assert(board@ =~= board_of(pieces@));
        assert forall|row: int, file: int| 0 <= row < 8 && 0 <= file < 8 implies (#[trigger] cell_of(
            pieces@,
            row,
            file,
        ).len() > 0 <==> pieces@.contains_key(square_name(row, file))) by {
            let k = row * 8 + file;
            assert(k / 8 == row && k % 8 == file);
            assert(board@[k] == cell_of(pieces@, row, file));
        }
    }
    Ok(board)
}

/// What a run of `run` empty cells writes: its length, or nothing when it is
/// empty itself.
pub open spec fn run_text(run: nat) -> Seq<char> {
    if run == 0 {
        Seq::empty()
    } else {
        decimal(run)
    }
}

/// The notation of the cells of one rank, after a run of `run` empty cells
/// that has not been written yet: each piece as it stands, each maximal run of
/// empty cells as its length.
pub open spec fn rank_text(cells: Seq<Seq<char>>, run: nat) -> Seq<char>
    decreases cells.len(),
{
    if cells.len() == 0 {
        run_text(run)
    } else if cells[0].len() == 0 {
        rank_text(cells.drop_first(), run + 1)
    } else {
        run_text(run) + cells[0] + rank_text(cells.drop_first(), 0)
    }
}

/// The cells of row `row` of a board.
pub open spec fn row_cells(board: Seq<Seq<char>>, row: int) -> Seq<Seq<char>> {
    board.subrange(8 * row, 8 * row + 8)
}

/// The notations of the eight ranks of a board, from the eighth rank down.
pub open spec fn rank_texts(board: Seq<Seq<char>>) -> Seq<Seq<char>> {
    Seq::new(8, |row: int| rank_text(row_cells(board, row), 0))
}

/// The piece placement of a board: its ranks from the eighth down, separated
/// by `/`.
pub open spec fn placement_text(board: Seq<Seq<char>>) -> Seq<char> {
    join(rank_texts(board), seq!['/'])
}

/// Whether `square` holds exactly the piece code `code`.
pub open spec fn holds(pieces: Map<Seq<char>, Seq<char>>, square: Seq<char>, code: Seq<char>) -> bool {
    pieces.contains_key(square) && pieces[square] == code
}

/// The letter `letter` if `right` holds, else nothing.
pub open spec fn right_text(right: bool, letter: char) -> Seq<char> {
    if right {
        seq![letter]
    } else {
        Seq::empty()
    }
}

/// The castling rights that the placement allows, in the order `KQkq`: a
/// side may castle to a wing when its king and that wing's rook stand on
/// their home squares.
pub open spec fn castling_rights(pieces: Map<Seq<char>, Seq<char>>) -> Seq<char> {
    let white_king = holds(pieces, "e1"@, "wK"@);
    let black_king = holds(pieces, "e8"@, "bK"@);
    right_text(white_king && holds(pieces, "h1"@, "wR"@), 'K') + right_text(
        white_king && holds(pieces, "a1"@, "wR"@),
        'Q',
    ) + right_text(black_king && holds(pieces, "h8"@, "bR"@), 'k') + right_text(
        black_king && holds(pieces, "a8"@, "bR"@),
        'q',
    )
}

/// The castling field: the rights, or `-` when there are none.
pub open spec fn castling_text(pieces: Map<Seq<char>, Seq<char>>) -> Seq<char> {
    if castling_rights(pieces).len() == 0 {
        seq!['-']
    } else {
        castling_rights(pieces)
    }
}

/// The side to move after `moves` half-moves: white on an even count.
pub open spec fn active_color(moves: nat) -> char {
    if moves % 2 == 0 {
        'w'
    } else {
        'b'
    }
}

/// The number of the full move after `moves` half-moves.
pub open spec fn fullmove_number(moves: nat) -> nat {
    moves / 2 + 1
}

/// The position string of a board: placement, side to move, castling field,
/// en-passant field, half-move clock and full-move number, separated by single
/// spaces. The en-passant field is given; the half-move clock is always `0`.
pub open spec fn fen_text(
    board: Seq<Seq<char>>,
    castling: Seq<char>,
    en_passant: Seq<char>,
    moves: nat,
) -> Seq<char> {
    placement_text(board) + seq![' ', active_color(moves), ' '] + castling + seq![' ']
        + en_passant + seq![' ', '0', ' '] + decimal(fullmove_number(moves))
}

/// The position string of a snapshot whose piece map can be read. No
/// en-passant target is ever reported.
pub open spec fn position_text(data: &BoardData) -> Seq<char> {
    fen_text(
        board_of(data.pieces@),
        castling_text(data.pieces@),
        seq!['-'],
        data.move_list@.len(),
    )
}

/// The notation of one rank of a board.
fn rank_string(board: &Board, row: usize) -> (s: String)
    requires
        row < 8,
    ensures
        s@ == rank_text(row_cells(board@, row as int), 0),
{
    let mut s = String::new();
    let mut run: u64 = 0;
    let mut file: usize = 0;
    let ghost cells = row_cells(board@, row as int);
    proof {
        use_type_invariant(board);
        assert(cells.skip(0) =~= cells);
    }
    while file < 8
        invariant
            row < 8,
            board@.len() == 64,
            file <= 8,
            run <= file,
            cells == row_cells(board@, row as int),
            s@ + rank_text(cells.skip(file as int), run as nat) == rank_text(cells, 0),
        decreases 8 - file,
    {
        let cell = board.cell(row, file);
        proof {
            let rest = cells.skip(file as int);
            assert(rest.len() > 0);
            assert(rest[0] == board@[row * 8 + file]);
            assert(rest.drop_first() =~= cells.skip(file + 1));
        }
        match cell {
            Some(symbol) => {
                if symbol.as_str().is_empty() {
                    run += 1;
                } else {
                    let ghost before = s@;
                    let ghost pending = run as nat;
                    if run > 0 {
                        push_decimal(&mut s, run);
                        run = 0;
                    }
                    s.append(symbol.as_str());
                    proof {
                        let rest = cells.skip(file as int);
                        assert(s@ =~= before + run_text(pending) + symbol@);
                        assert(s@ + rank_text(rest.drop_first(), 0) =~= before + rank_text(
                            rest,
                            pending,
                        ));
                    }
                }
            },
            None => {},
        }
        file += 1;
    }
    let ghost before = s@;
    if run > 0 {
        push_decimal(&mut s, run);
    }
    proof {
        assert(cells.skip(8).len() == 0);
        assert(s@ =~= before + rank_text(cells.skip(8), run as nat));
    }
    s
}

/// The piece placement of a board.
pub fn placement(board: &Board) -> (s: String)
    ensures
        s@ == placement_text(board@),
{
    let mut rows: Vec<String> = Vec::new();
    let mut row: usize = 0;
    while row < 8
        invariant
            row <= 8,
            rows@.len() == row,
            forall|r: int|
                0 <= r < row ==> (#[trigger] rows@[r])@ == rank_text(row_cells(board@, r), 0),
        decreases 8 - row,
    {
        rows.push(rank_string(board, row));
        row += 1;
    }
    proof {
        assert(views_of(rows@) =~= rank_texts(board@));
        reveal_strlit("/");
        assert("/"@ =~= seq!['/']);
    }
    join_strings(&rows, "/")
}

/// The castling field of a piece map.
pub fn castling_field(pieces: &PieceMap) -> (s: String)
    ensures
        s@ == castling_text(pieces@),
{
    let white_king = holds_piece(pieces, "e1", "wK");
    let black_king = holds_piece(pieces, "e8", "bK");
    let mut rights = String::new();
    if white_king && holds_piece(pieces, "h1", "wR") {
        rights.push('K');
    }
    if white_king && holds_piece(pieces, "a1", "wR") {
        rights.push('Q');
    }
    if black_king && holds_piece(pieces, "h8", "bR") {
        rights.push('k');
    }
    if black_king && holds_piece(pieces, "a8", "bR") {
        rights.push('q');
    }
    proof {
        assert(rights@ =~= castling_rights(pieces@));
    }
    if rights.as_str().is_empty() {
        rights.push('-');
        proof {
            assert(rights@ =~= seq!['-']);
        }
    }
    rights
}

/// Whether `square` holds exactly the piece code `code`.
fn holds_piece(pieces: &PieceMap, square: &str, code: &str) -> (yes: bool)
    ensures
        yes == holds(pieces@, square@, code@),
{
    match pieces.get(square) {
        Some(found) => str_eq(found.as_str(), code),
        None => false,
    }
}

/// The en-passant field of a snapshot. No target square is ever reported,
/// whatever the flags and the move list say.
pub fn determine_en_passant(_data: &BoardData) -> (field: &str)
    ensures
        field@ == seq!['-'],
{
    proof {
        reveal_strlit("-");
        assert("-"@ =~= seq!['-']);
    }
    "-"
}

/// The position string of a board with the given castling and en-passant
/// fields after `moves` half-moves.
pub fn render_fen(board: &Board, castling: &str, en_passant: &str, moves: usize) -> (s: String)
    ensures
        s@ == fen_text(board@, castling@, en_passant@, moves as nat),
{
    let mut s = placement(board);
    let ghost placed = s@;
    s.push(' ');
    s.push(if moves % 2 == 0 {
        'w'
    } else {
        'b'
    });
    s.push(' ');
    s.append(castling);
    s.push(' ');
    s.append(en_passant);
    s.push(' ');
    s.push('0');
    s.push(' ');
    let ghost head = s@;
    let number: u64 = (moves / 2 + 1) as u64;
    push_decimal(&mut s, number);
    proof {
        assert(head =~= placed + seq![' ', active_color(moves as nat), ' '] + castling@ + seq![' ']
            + en_passant@ + seq![' ', '0', ' ']);
    }
    s
}

/// Derives the position string of a snapshot, with the snapshot's variant and
/// game id. Fails exactly when the piece map holds an entry that cannot be
/// read: a key that is no square name, or a piece code of fewer than two
/// characters. In the string that is derived, a square shows a piece exactly
/// when the snapshot has one there.
pub fn generate_fen_from_board_data(data: &BoardData) -> (derived: Result<FenResult, FenError>)
    ensures
        match derived {
            Ok(result) => {
                &&& !has_malformed_square(data.pieces@)
                &&& forall|k: Seq<char>| #[trigger] data.pieces@.contains_key(k) ==> names_square(k)
                &&& cells_show_occupancy(data.pieces@)
                &&& result.fen@ == position_text(data)
                &&& result.variant@ == data.variant@
                &&& result.game_id@ == data.game_id@
            },
            Err(e) => e == FenError::MalformedSquare && has_malformed_square(data.pieces@),
        },
{
    match place_pieces(&data.pieces) {
        Err(e) => Err(e),
        Ok(board) => {
            proof {
                assert forall|k: Seq<char>| #[trigger]
                    data.pieces@.contains_key(k) implies names_square(k) by {
                    if !names_square(k) {
                        assert(malformed_entry(k, data.pieces@[k]));
                    }
                }
            }
            let castling = castling_field(&data.pieces);
            let en_passant = determine_en_passant(data);
            let fen = render_fen(&board, castling.as_str(), en_passant, data.move_list.len());
            Ok(FenResult { fen, variant: data.variant.clone(), game_id: data.game_id.clone() })
        },
    }
}

} // verus!
