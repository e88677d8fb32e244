//! Positions in Forsyth-Edwards notation: six fields separated by single
//! spaces that give the pieces rank by rank, the side to move, the castling
//! rights, the en-passant square, the half-move clock and the full-move
//! count.

use vstd::prelude::*;
use crate::bits::{bit, lemma_bit_zero};
use crate::gamestate::Gamestate;
use crate::gamestate::board::{
    Board, PieceType, Side, Square, file_of, lemma_with_piece, occupied, parse_algebraic, rank_of,
    spec_piece_index, square_at, with_piece,
};
use crate::gamestate::castling_rights::{CastlingRights, CastlingSide};
use crate::gamestate::zobrist::{Zobrist, ZobristKeys, spec_hash};

verus! {

/// The starting position.
pub const DEFAULT_FEN: &'static str = "rnbqkbnr/pppppppp/8/8/8/8/PPPPPPPP/RNBQKBNR w KQkq - 0 1";

const FEN_NR_OF_PARTS: usize = 6;

const SPLITTER: char = '/';

const DASH: char = '-';

const SPACE: char = ' ';

/// What is wrong with the piece placement.
#[derive(Debug, Clone, Copy, PartialEq, Eq)]
pub enum LayoutError {
    /// The placement does not have eight ranks, but this many.
    RankCount(usize),
    /// A digit is not a number of empty squares from 1 to 8: the digit, the
    /// number of the rank in the text (from 1) and the number of the file
    /// (from 1).
    EmptySquares { count: u8, rank: u8, file: u8 },
    /// A piece comes after the eighth file of its rank.
    FileIndex(u8),
    /// A character is neither a digit nor a piece.
    InvalidSymbol(char),
    /// A rank does not have eight squares, but this many.
    RankLength(u8),
}

/// Why a text is not a position.
#[derive(Debug, Clone, Copy, PartialEq, Eq)]
pub enum FenError {
    /// The text does not have six fields, but this many.
    InvalidNumOfElements(usize),
    PieceLayout(LayoutError),
    StartingSide,
    CastlingRights,
    EnPassant,
    HalfMoveClock,
    FullMoveCounte,
}

/// A position, or why the text is none.
pub type FenResult = Result<Gamestate, FenError>;

/// A text that is to be read as a position.
pub struct Fen(pub String);

/// The fields of the first `n` characters of `text`, where `sep` separates
/// fields: the text between two separators is a field, and so is the text
/// before the first and after the last. There is always at least one field.
pub open spec fn split_prefix(text: Seq<char>, sep: char, n: int) -> Seq<Seq<char>>
    decreases n,
{
    if n <= 0 {
        seq![Seq::<char>::empty()]
    } else {
        let before = split_prefix(text, sep, n - 1);
        if text[n - 1] == sep {
            before.push(Seq::<char>::empty())
        } else {
            before.drop_last().push(before.last().push(text[n - 1]))
        }
    }
}

/// The fields of `text`.
pub open spec fn split(text: Seq<char>, sep: char) -> Seq<Seq<char>> {
    split_prefix(text, sep, text.len() as int)
}

/// The texts that a list of character vectors holds.
pub open spec fn texts(fields: Seq<Vec<char>>) -> Seq<Seq<char>> {
    fields.map_values(|field: Vec<char>| field@)
}

/// Whether `c` is one of the digits `0` to `9`.
pub open spec fn is_digit(c: char) -> bool {
    '0' as int <= c as int <= '9' as int
}

/// The number that the digit `c` stands for.
pub open spec fn digit_value(c: char) -> int {
    c as int - '0' as int
}

/// The piece that `c` stands for: upper case for white, lower case for
/// black.
pub open spec fn piece_of_char(c: char) -> Option<(PieceType, Side)> {
    if c == 'K' {
        Some((PieceType::King, Side::White))
    } else if c == 'Q' {
        Some((PieceType::Queen, Side::White))
    } else if c == 'R' {
        Some((PieceType::Rook, Side::White))
    } else if c == 'B' {
        Some((PieceType::Bishop, Side::White))
    } else if c == 'N' {
        Some((PieceType::Knight, Side::White))
    } else if c == 'P' {
        Some((PieceType::Pawn, Side::White))
    } else if c == 'k' {
        Some((PieceType::King, Side::Black))
    } else if c == 'q' {
        Some((PieceType::Queen, Side::Black))
    } else if c == 'r' {
        Some((PieceType::Rook, Side::Black))
    } else if c == 'b' {
        Some((PieceType::Bishop, Side::Black))
    } else if c == 'n' {
        Some((PieceType::Knight, Side::Black))
    } else if c == 'p' {
        Some((PieceType::Pawn, Side::Black))
    } else {
        None
    }
}

/// Reading one character of the rank with number `rank_index` in the text
/// (0 for the eighth rank of the board) when `file` squares of the rank have
/// been read: a digit from 1 to 8 skips so many squares, which must not lead
/// past the eighth file; a piece letter puts the piece on the next square,
/// which must exist.
pub open spec fn placement_step(p: Seq<u64>, rank_index: int, file: int, c: char) -> Result<
    (Seq<u64>, int),
    LayoutError,
> {
    if is_digit(c) {
        let count = digit_value(c);
        if !(1 <= count <= 8) {
            Err(
                LayoutError::EmptySquares {
                    count: count as u8,
                    rank: (rank_index + 1) as u8,
                    file: (file + 1) as u8,
                },
            )
        } else if file + count > 8 {
            Err(LayoutError::RankLength((file + count) as u8))
        } else {
            Ok((p, file + count))
        }
    } else if file >= 8 {
        Err(LayoutError::FileIndex(file as u8))
    } else {
        match piece_of_char(c) {
            Some((pt, side)) => Ok(
                (with_piece(p, spec_piece_index(pt, side), square_at(file, 7 - rank_index)), file + 1),
            ),
            None => Err(LayoutError::InvalidSymbol(c)),
        }
    }
}

/// Reading the first `n` characters of a rank: the pieces so far and the
/// number of squares read, or the first error.
pub open spec fn placement_prefix(p: Seq<u64>, rank_index: int, rank: Seq<char>, n: int) -> Result<
    (Seq<u64>, int),
    LayoutError,
>
    decreases n,
{
    if n <= 0 {
        Ok((p, 0))
    } else {
        match placement_prefix(p, rank_index, rank, n - 1) {
            Ok((q, file)) => placement_step(q, rank_index, file, rank[n - 1]),
            Err(error) => Err(error),
        }
    }
}

/// Reading a whole rank, which must have eight squares.
pub open spec fn placement_rank(p: Seq<u64>, rank_index: int, rank: Seq<char>) -> Result<
    Seq<u64>,
    LayoutError,
> {
    match placement_prefix(p, rank_index, rank, rank.len() as int) {
        Ok((q, file)) => if file != 8 {
            Err(LayoutError::RankLength(file as u8))
        } else {
            Ok(q)
        },
        Err(error) => Err(error),
    }
}

/// Reading the first `n` ranks onto the empty board.
pub open spec fn placement_ranks(ranks: Seq<Seq<char>>, n: int) -> Result<Seq<u64>, LayoutError>
    decreases n,
{
    if n <= 0 {
        Ok(Seq::new(12, |k: int| 0u64))
    } else {
        match placement_ranks(ranks, n - 1) {
            Ok(p) => placement_rank(p, n - 1, ranks[n - 1]),
            Err(error) => Err(error),
        }
    }
}

/// The piece bitboards that a piece placement describes: eight ranks
/// separated by `/`, the eighth rank first, each rank from the a-file on.
pub open spec fn parse_placement(text: Seq<char>) -> Result<Seq<u64>, LayoutError> {
    let ranks = split(text, '/');
    if ranks.len() != 8 {
        Err(LayoutError::RankCount(ranks.len() as usize))
    } else {
        placement_ranks(ranks, 8)
    }
}

/// The side that a text names: `w` or `b`.
pub open spec fn parse_side(text: Seq<char>) -> Option<Side> {
    if text.len() != 1 {
        None
    } else if text[0] == 'w' {
        Some(Side::White)
    } else if text[0] == 'b' {
        Some(Side::Black)
    } else {
        None
    }
}

/// The right that a character names: `K` and `Q` for white, `k` and `q` for
/// black.
pub open spec fn right_of_char(c: char) -> Option<(Side, CastlingSide)> {
    if c == 'K' {
        Some((Side::White, CastlingSide::Kingside))
    } else if c == 'Q' {
        Some((Side::White, CastlingSide::Queenside))
    } else if c == 'k' {
        Some((Side::Black, CastlingSide::Kingside))
    } else if c == 'q' {
        Some((Side::Black, CastlingSide::Queenside))
    } else {
        None
    }
}

/// Whether `text` is a castling field: four characters that each name a
/// right.
pub open spec fn is_castling_field(text: Seq<char>) -> bool {
    text.len() == 4 && forall|i: int| 0 <= i < 4 ==> right_of_char(#[trigger] text[i]) is Some
}

/// The rights of `side` that the first `n` characters of a castling field
/// name.
pub open spec fn rights_named(text: Seq<char>, side: Side, n: int) -> CastlingSide
    decreases n,
{
    if n <= 0 {
        CastlingSide::Neither
    } else {
        let before = rights_named(text, side, n - 1);
        match right_of_char(text[n - 1]) {
            Some((named_side, right)) => if named_side == side {
                before.union(right)
            } else {
                before
            },
            None => before,
        }
    }
}

/// The en-passant value that a text names: zero for `-`, the bit of the
/// file for a square; nothing for other texts.
pub open spec fn parse_en_passant(text: Seq<char>) -> Option<u8> {
    if text.len() == 1 && text[0] == '-' {
        Some(0u8)
    } else if text.len() != 2 {
        None
    } else {
        match parse_algebraic(text) {
            Some(s) => Some(1u8 << (file_of(s) as u8)),
            None => None,
        }
    }
}

/// The number that the first `n` characters of `text` stand for, if they
/// are digits.
pub open spec fn decimal_prefix(text: Seq<char>, n: int) -> Option<int>
    decreases n,
{
    if n <= 0 {
        Some(0int)
    } else {
        match decimal_prefix(text, n - 1) {
            Some(value) => if is_digit(text[n - 1]) {
                Some(value * 10 + digit_value(text[n - 1]))
            } else {
                None
            },
            None => None,
        }
    }
}

/// The number up to 255 that a text stands for: one or more digits, with
/// or without a `+` in front.
pub open spec fn parse_clock(text: Seq<char>) -> Option<u8> {
    let digits = if text.len() > 0 && text[0] == '+' {
        text.subrange(1, text.len() as int)
    } else {
        text
    };
    if digits.len() == 0 {
        None
    } else {
        match decimal_prefix(digits, digits.len() as int) {
            Some(value) => if value <= 255 {
                Some(value as u8)
            } else {
                None
            },
            None => None,
        }
    }
}

/// The characters of a text.
pub fn chars_of(text: &str) -> (chars: Vec<char>)
    ensures
        chars@ == text@,
{
    let n: usize = text.unicode_len();
    let mut chars: Vec<char> = Vec::new();
    let mut i: usize = 0;
    while i < n
        invariant
            0 <= i <= n,
            n == text@.len(),
            chars@ == text@.subrange(0, i as int),
        decreases n - i,
    {
        chars.push(text.get_char(i));
        assert(chars@ =~= text@.subrange(0, i + 1));
        i += 1;
    }
    assert(chars@ =~= text@);
    chars
}

/// Splits `text` into its fields.
pub fn split_chars(text: &Vec<char>, sep: char) -> (fields: Vec<Vec<char>>)
    ensures
        texts(fields@) == split(text@, sep),
        fields@.len() >= 1,
{
    let mut fields: Vec<Vec<char>> = Vec::new();
    let mut current: Vec<char> = Vec::new();
    let mut i: usize = 0;
    assert(split_prefix(text@, sep, 0) =~= texts(fields@).push(current@));
    while i < text.len()
        invariant
            0 <= i <= text@.len(),
            split_prefix(text@, sep, i as int) == texts(fields@).push(current@),
        decreases text@.len() - i,
    {
        let c: char = text[i];
        let ghost before = texts(fields@);
        let ghost field = current@;
        if c == sep {
            fields.push(current);
            current = Vec::new();
            assert(texts(fields@) =~= before.push(field));
        } else {
            current.push(c);
            assert(before.push(field).drop_last() =~= before);
        }
        i += 1;
    }
    let ghost before = texts(fields@);
    let ghost field = current@;
    fields.push(current);
    assert(texts(fields@) =~= before.push(field));
    fields
}


/// Once a character of a rank is refused, the rank is refused with the same
/// error however it goes on.
pub proof fn lemma_placement_error_stays(
    p: Seq<u64>,
    rank_index: int,
    rank: Seq<char>,
    i: int,
    n: int,
)
    requires
        0 <= i <= n,
        placement_prefix(p, rank_index, rank, i) is Err,
    ensures
        placement_prefix(p, rank_index, rank, n) == placement_prefix(p, rank_index, rank, i),
    decreases n - i,
{
    if i < n {
        lemma_placement_error_stays(p, rank_index, rank, i, n - 1);
    }
}

/// Once a rank is refused, the placement is refused with the same error.
pub proof fn lemma_ranks_error_stays(ranks: Seq<Seq<char>>, i: int, n: int)
    requires
        0 <= i <= n,
        placement_ranks(ranks, i) is Err,
    ensures
        placement_ranks(ranks, n) == placement_ranks(ranks, i),
    decreases n - i,
{
    if i < n {
        lemma_ranks_error_stays(ranks, i, n - 1);
    }
}

/// The piece that `c` stands for.
fn get_piece(c: char) -> (r: Option<(PieceType, Side)>)
    ensures
        r == piece_of_char(c),
{
    match c {
        'K' => Some((PieceType::King, Side::White)),
        'Q' => Some((PieceType::Queen, Side::White)),
        'R' => Some((PieceType::Rook, Side::White)),
        'B' => Some((PieceType::Bishop, Side::White)),
        'N' => Some((PieceType::Knight, Side::White)),
        'P' => Some((PieceType::Pawn, Side::White)),
        'k' => Some((PieceType::King, Side::Black)),
        'q' => Some((PieceType::Queen, Side::Black)),
        'r' => Some((PieceType::Rook, Side::Black)),
        'b' => Some((PieceType::Bishop, Side::Black)),
        'n' => Some((PieceType::Knight, Side::Black)),
        'p' => Some((PieceType::Pawn, Side::Black)),
        _ => None,
    }
}

/// The number that `c` stands for, if `c` is a digit.
fn get_digit(c: char) -> (r: Option<u8>)
    ensures
        r is Some <==> is_digit(c),
        r is Some ==> r->0 == digit_value(c) && r->0 <= 9,
{
    let code: u32 = c as u32;
    if 48 <= code && code <= 57 {
        Some((code - 48) as u8)
    } else {
        None
    }
}

impl Fen {
    /// Reads the piece placement.
    pub fn get_board(s: &str) -> (r: Result<Board, FenError>)
        ensures
            match parse_placement(s@) {
                Ok(p) => r is Ok && r->Ok_0@ == p,
                Err(error) => r == Err::<Board, FenError>(FenError::PieceLayout(error)),
            },
    {
        let chars: Vec<char> = chars_of(s);
        board_from_chars(&chars)
    }

    /// Reads the side to move.
    pub fn get_side_to_move(s: &str) -> (r: Result<Side, FenError>)
        ensures
            match parse_side(s@) {
                Some(side) => r == Ok::<Side, FenError>(side),
                None => r == Err::<Side, FenError>(FenError::StartingSide),
            },
    {
        let chars: Vec<char> = chars_of(s);
        side_from_chars(&chars)
    }

    /// Reads the castling rights.
    pub fn get_castling_rights(s: &str) -> (r: Result<CastlingRights, FenError>)
        ensures
            is_castling_field(s@) ==> r is Ok && r->Ok_0.spec_rights(Side::White) == rights_named(
                s@,
                Side::White,
                4,
            ) && r->Ok_0.spec_rights(Side::Black) == rights_named(s@, Side::Black, 4),
            !is_castling_field(s@) ==> r == Err::<CastlingRights, FenError>(
                FenError::CastlingRights,
            ),
    {
        let chars: Vec<char> = chars_of(s);
        rights_from_chars(&chars)
    }

    /// Reads the en-passant field.
    pub fn get_en_passant(s: &str) -> (r: Result<u8, FenError>)
        ensures
            match parse_en_passant(s@) {
                Some(en_passant) => r == Ok::<u8, FenError>(en_passant),
                None => r == Err::<u8, FenError>(FenError::EnPassant),
            },
    {
        let chars: Vec<char> = chars_of(s);
        en_passant_from_chars(&chars)
    }

    /// Reads the half-move clock.
    pub fn get_half_move_clock(s: &str) -> (r: Result<u8, FenError>)
        ensures
            match parse_clock(s@) {
                Some(clock) => r == Ok::<u8, FenError>(clock),
                None => r == Err::<u8, FenError>(FenError::HalfMoveClock),
            },
    {
        let chars: Vec<char> = chars_of(s);
        match clock_from_chars(&chars) {
            Some(x) => Ok(x),
            None => Err(FenError::HalfMoveClock),
        }
    }

    /// Reads the full-move count.
    pub fn get_full_move_count(s: &str) -> (r: Result<u8, FenError>)
        ensures
            match parse_clock(s@) {
                Some(count) => r == Ok::<u8, FenError>(count),
                None => r == Err::<u8, FenError>(FenError::FullMoveCounte),
            },
    {
        let chars: Vec<char> = chars_of(s);
        match clock_from_chars(&chars) {
            Some(x) => Ok(x),
            None => Err(FenError::FullMoveCounte),
        }
    }

    /// Reads the position. Its hash is computed with `keys`.
    pub fn process(&self, keys: &ZobristKeys) -> (r: FenResult)
        ensures
            match fen_error(self.0@) {
                Some(error) => r == Err::<Gamestate, FenError>(error),
                None => r is Ok && describes(self.0@, r->Ok_0) && r->Ok_0.zobrist_key == spec_hash(
                    *keys,
                    r->Ok_0,
                ),
            },
    {
        let chars: Vec<char> = chars_of(self.0.as_str());
        let separated_fen: Vec<Vec<char>> = split_chars(&chars, SPACE);
        if separated_fen.len() != FEN_NR_OF_PARTS {
            return Err(FenError::InvalidNumOfElements(separated_fen.len()));
        }
        let ghost fields = texts(separated_fen@);
        assert(fields[0] == separated_fen[0]@);
        assert(fields[1] == separated_fen[1]@);
        assert(fields[2] == separated_fen[2]@);
        assert(fields[3] == separated_fen[3]@);
        assert(fields[4] == separated_fen[4]@);
        assert(fields[5] == separated_fen[5]@);
        let board: Board = match board_from_chars(&separated_fen[0]) {
            Ok(board) => board,
            Err(error) => {
                return Err(error);
            },
        };
        let side_to_move: Side = match side_from_chars(&separated_fen[1]) {
            Ok(side) => side,
            Err(error) => {
                return Err(error);
            },
        };
        let castling_rights: CastlingRights = match rights_from_chars(&separated_fen[2]) {
            Ok(rights) => rights,
            Err(error) => {
                return Err(error);
            },
        };
        let en_passant: u8 = match en_passant_from_chars(&separated_fen[3]) {
            Ok(en_passant) => en_passant,
            Err(error) => {
                return Err(error);
            },
        };
        let half_move_clock: u8 = match clock_from_chars(&separated_fen[4]) {
            Some(clock) => clock,
            None => {
                return Err(FenError::HalfMoveClock);
            },
        };
        let full_move_count: u8 = match clock_from_chars(&separated_fen[5]) {
            Some(count) => count,
            None => {
                return Err(FenError::FullMoveCounte);
            },
        };
        let mut game: Gamestate = Gamestate::new(
            board,
            side_to_move,
            castling_rights,
            en_passant,
            half_move_clock,
            full_move_count,
            0,
        );
        game.zobrist_key = Zobrist::hash(keys, &game);
        Ok(game)
    }
}

/// What is wrong with a text that is to be a position: the first of its
/// faults, going through the fields from the first to the last. Nothing
/// when the text is a position.
pub open spec fn fen_error(text: Seq<char>) -> Option<FenError> {
    let fields = split(text, ' ');
    if fields.len() != 6 {
        Some(FenError::InvalidNumOfElements(fields.len() as usize))
    } else {
        match parse_placement(fields[0]) {
            Err(error) => Some(FenError::PieceLayout(error)),
            Ok(_) => if parse_side(fields[1]) is None {
                Some(FenError::StartingSide)
            } else if !is_castling_field(fields[2]) {
                Some(FenError::CastlingRights)
            } else if parse_en_passant(fields[3]) is None {
                Some(FenError::EnPassant)
            } else if parse_clock(fields[4]) is None {
                Some(FenError::HalfMoveClock)
            } else if parse_clock(fields[5]) is None {
                Some(FenError::FullMoveCounte)
            } else {
                None
            },
        }
    }
}

/// Whether `game` is the position that `text` describes, the hash aside.
pub open spec fn describes(text: Seq<char>, game: Gamestate) -> bool {
    let fields = split(text, ' ');
    &&& parse_placement(fields[0]) == Ok::<Seq<u64>, LayoutError>(game.board@)
    &&& parse_side(fields[1]) == Some(game.side_to_move)
    &&& game.castling_rights.spec_rights(Side::White) == rights_named(fields[2], Side::White, 4)
    &&& game.castling_rights.spec_rights(Side::Black) == rights_named(fields[2], Side::Black, 4)
    &&& parse_en_passant(fields[3]) == Some(game.en_passant)
    &&& parse_clock(fields[4]) == Some(game.half_move_clock)
    &&& parse_clock(fields[5]) == Some(game.full_move_count)
}

/// Reads the piece placement.
fn board_from_chars(text: &Vec<char>) -> (r: Result<Board, FenError>)
    ensures
        match parse_placement(text@) {
            Ok(p) => r is Ok && r->Ok_0@ == p,
            Err(error) => r == Err::<Board, FenError>(FenError::PieceLayout(error)),
        },
{
    let fen_ranks: Vec<Vec<char>> = split_chars(text, SPLITTER);
    if fen_ranks.len() != 8 {
        return Err(FenError::PieceLayout(LayoutError::RankCount(fen_ranks.len())));
    }
    let ghost ranks = texts(fen_ranks@);
    let mut board: Board = Board::default();
    let mut rank_index: usize = 0;
    proof {
        lemma_bit_zero();
        assert forall|t: int| !occupied(board@, t) by {
            if occupied(board@, t) {
                let k = choose|k: int| 0 <= k < 12 && #[trigger] bit(board@[k], t);
                assert(board@[k] == 0u64);
            }
        }
    }
    while rank_index < 8
        invariant
            0 <= rank_index <= 8,
            fen_ranks@.len() == 8,
            ranks == texts(fen_ranks@),
            ranks == split(text@, '/'),
            placement_ranks(ranks, rank_index as int) == Ok::<Seq<u64>, LayoutError>(board@),
            forall|t: int| occupied(board@, t) ==> rank_of(t) > 7 - rank_index,
        decreases 8 - rank_index,
    {
        let rank: &Vec<char> = &fen_ranks[rank_index];
        let ghost start = board@;
        let ghost row = 7 - rank_index;
        assert(rank@ == ranks[rank_index as int]);
        let mut file_index: u8 = 0;
        let mut i: usize = 0;
        while i < rank.len()
            invariant
                0 <= i <= rank@.len(),
                0 <= rank_index < 8,
                row == 7 - rank_index,
                file_index <= 8,
                ranks.len() == 8,
                ranks == split(text@, '/'),
                rank@ == ranks[rank_index as int],
                placement_ranks(ranks, rank_index as int) == Ok::<Seq<u64>, LayoutError>(start),
                placement_prefix(start, rank_index as int, rank@, i as int) == Ok::<
                    (Seq<u64>, int),
                    LayoutError,
                >((board@, file_index as int)),
                forall|t: int|
                    occupied(board@, t) ==> rank_of(t) > row || (rank_of(t) == row && file_of(t)
                        < file_index),
            decreases rank@.len() - i,
        {
            let piece: char = rank[i];
            let ghost before = board@;
            proof {
                board.lemma_view_len();
            }
            match get_digit(piece) {
                Some(empty_squares) => {
                    if empty_squares < 1 || empty_squares > 8 {
                        proof {
                            lemma_placement_error_stays(
                                start,
                                rank_index as int,
                                rank@,
                                i + 1,
                                rank@.len() as int,
                            );
                            lemma_ranks_error_stays(ranks, rank_index + 1, 8);
                        }
                        return Err(
                            FenError::PieceLayout(
                                LayoutError::EmptySquares {
                                    count: empty_squares,
                                    rank: rank_index as u8 + 1,
                                    file: file_index + 1,
                                },
                            ),
                        );
                    }
                    if file_index + empty_squares > 8 {
                        proof {
                            lemma_placement_error_stays(
                                start,
                                rank_index as int,
                                rank@,
                                i + 1,
                                rank@.len() as int,
                            );
                            lemma_ranks_error_stays(ranks, rank_index + 1, 8);
                        }
                        return Err(
                            FenError::PieceLayout(
                                LayoutError::RankLength(file_index + empty_squares),
                            ),
                        );
                    }
                    file_index += empty_squares;
                },
                None => {
                    if file_index >= 8 {
                        proof {
                            lemma_placement_error_stays(
                                start,
                                rank_index as int,
                                rank@,
                                i + 1,
                                rank@.len() as int,
                            );
                            lemma_ranks_error_stays(ranks, rank_index + 1, 8);
                        }
                        return Err(FenError::PieceLayout(LayoutError::FileIndex(file_index)));
                    }
                    let square: Square = Square::new((7 - rank_index as u8) * 8 + file_index);
                    match get_piece(piece) {
                        Some((pt, side)) => {
                            proof {
                                lemma_with_piece(
                                    before,
                                    spec_piece_index(pt, side),
                                    square.index(),
                                );
                                assert(square.index() == square_at(file_index as int, row));
                                assert(rank_of(square.index()) == row);
                                assert(file_of(square.index()) == file_index);
                            }
                            board.place_piece_at_square(square, pt, side);
                            proof {
                                assert forall|t: int| occupied(board@, t) implies rank_of(t)
                                    > row || (rank_of(t) == row && file_of(t) < file_index
                                    + 1) by {
                                    let k = choose|k: int|
                                        0 <= k < 12 && #[trigger] bit(board@[k], t);
                                    if t != square.index() {
                                        assert(bit(before[k], t));
                                        assert(occupied(before, t));
                                    }
                                }
                            }
                        },
                        None => {
                            proof {
                                lemma_placement_error_stays(
                                    start,
                                    rank_index as int,
                                    rank@,
                                    i + 1,
                                    rank@.len() as int,
                                );
                                lemma_ranks_error_stays(ranks, rank_index + 1, 8);
                            }
                            return Err(
                                FenError::PieceLayout(LayoutError::InvalidSymbol(piece)),
                            );
                        },
                    }
                    file_index += 1;
                },
            }
            i += 1;
        }
        if file_index != 8 {
            proof {
                lemma_ranks_error_stays(ranks, rank_index + 1, 8);
            }
            return Err(FenError::PieceLayout(LayoutError::RankLength(file_index)));
        }
        rank_index += 1;
    }
    Ok(board)
}

/// Reads the side to move.
fn side_from_chars(text: &Vec<char>) -> (r: Result<Side, FenError>)
    ensures
        match parse_side(text@) {
            Some(side) => r == Ok::<Side, FenError>(side),
            None => r == Err::<Side, FenError>(FenError::StartingSide),
        },
{
    if text.len() != 1 {
        return Err(FenError::StartingSide);
    }
    match text[0] {
        'w' => Ok(Side::White),
        'b' => Ok(Side::Black),
        _ => Err(FenError::StartingSide),
    }
}

/// Reads the castling rights.
fn rights_from_chars(text: &Vec<char>) -> (r: Result<CastlingRights, FenError>)
    ensures
        is_castling_field(text@) ==> r is Ok && r->Ok_0.spec_rights(Side::White) == rights_named(
            text@,
            Side::White,
            4,
        ) && r->Ok_0.spec_rights(Side::Black) == rights_named(text@, Side::Black, 4),
        !is_castling_field(text@) ==> r == Err::<CastlingRights, FenError>(FenError::CastlingRights),
{
    if text.len() != 4 {
        return Err(FenError::CastlingRights);
    }
    let mut cr: CastlingRights = CastlingRights::new();
    let mut i: usize = 0;
    while i < 4
        invariant
            0 <= i <= 4,
            text@.len() == 4,
            forall|j: int| 0 <= j < i ==> right_of_char(#[trigger] text@[j]) is Some,
            cr.spec_rights(Side::White) == rights_named(text@, Side::White, i as int),
            cr.spec_rights(Side::Black) == rights_named(text@, Side::Black, i as int),
        decreases 4 - i,
    {
        match text[i] {
            'K' => cr.set_rights(Side::White, CastlingSide::Kingside),
            'Q' => cr.set_rights(Side::White, CastlingSide::Queenside),
            'k' => cr.set_rights(Side::Black, CastlingSide::Kingside),
            'q' => cr.set_rights(Side::Black, CastlingSide::Queenside),
            _ => {
                assert(right_of_char(text@[i as int]) is None);
                return Err(FenError::CastlingRights);
            },
        }
        i += 1;
    }
    Ok(cr)
}

/// Reads the en-passant field.
fn en_passant_from_chars(text: &Vec<char>) -> (r: Result<u8, FenError>)
    ensures
        match parse_en_passant(text@) {
            Some(en_passant) => r == Ok::<u8, FenError>(en_passant),
            None => r == Err::<u8, FenError>(FenError::EnPassant),
        },
{
    let n: usize = text.len();
    if n == 1 && text[0] == DASH {
        return Ok(0);
    }
    if n != 2 {
        return Err(FenError::EnPassant);
    }
    assert(text@ =~= seq![text@[0], text@[1]]);
    match Square::new_from_file_rank_chars(text[0], text[1]) {
        Some(sq) => {
            let file: u8 = sq.get_file();
            Ok(1u8 << file)
        },
        None => Err(FenError::EnPassant),
    }
}

/// Reads a number up to 255.
fn clock_from_chars(chars: &Vec<char>) -> (r: Option<u8>)
    ensures
        r == parse_clock(chars@),
{
    let n: usize = chars.len();
    let start: usize = if n > 0 && chars[0] == '+' {
        1
    } else {
        0
    };
    if start == n {
        return None;
    }
    let ghost digits = chars@.subrange(start as int, n as int);
    assert(start == 0 ==> digits =~= chars@);
    let mut value: u16 = 0;
    let mut i: usize = start;
    while i < n
        invariant
            start <= i <= n,
            start < n,
            n == chars@.len(),
            start == (if chars@.len() > 0 && chars@[0] == '+' {
                1int
            } else {
                0int
            }),
            digits == chars@.subrange(start as int, n as int),
            start == 0 ==> digits == chars@,
            value <= 255,
            decimal_prefix(digits, i - start) == Some(value as int),
        decreases n - i,
    {
        assert(digits[i - start] == chars@[i as int]);
        match get_digit(chars[i]) {
            Some(digit) => {
                let next: u16 = value * 10 + digit as u16;
                if next > 255 {
                    proof {
                        lemma_decimal_grows(digits, i - start + 1, digits.len() as int);
                    }
                    return None;
                }
                value = next;
            },
            None => {
                proof {
                    lemma_decimal_none_stays(digits, i - start + 1, digits.len() as int);
                }
                return None;
            },
        }
        i += 1;
    }
    Some(value as u8)
}

/// Once a character is no digit, the text is no number.
pub proof fn lemma_decimal_none_stays(text: Seq<char>, i: int, n: int)
    requires
        0 <= i <= n,
        decimal_prefix(text, i) is None,
    ensures
        decimal_prefix(text, n) is None,
    decreases n - i,
{
    if i < n {
        lemma_decimal_none_stays(text, i, n - 1);
    }
}

/// The number of a text is at least the number of each of its beginnings.
pub proof fn lemma_decimal_grows(text: Seq<char>, i: int, n: int)
    requires
        0 <= i <= n,
        decimal_prefix(text, i) is Some,
    ensures
        decimal_prefix(text, n) matches Some(value) ==> value >= decimal_prefix(text, i)->0 >= 0,
    decreases n - i,
{
    if i < n {
        lemma_decimal_grows(text, i, n - 1);
        if decimal_prefix(text, n - 1) is None {
        }
    } else {
        lemma_decimal_nonnegative(text, i);
    }
}

/// The number of a text is not negative.
pub proof fn lemma_decimal_nonnegative(text: Seq<char>, n: int)
    ensures
        decimal_prefix(text, n) matches Some(value) ==> value >= 0,
    decreases n,
{
    if n > 0 {
        lemma_decimal_nonnegative(text, n - 1);
    }
}

} // verus!
