//! Sides, piece kinds, squares and the board.

use vstd::prelude::*;
use crate::bits::{
    bit, lemma_bit_and, lemma_bit_not, lemma_bit_or, lemma_bit_single, lemma_bit_test,
    lemma_bit_zero, lemma_bits_equal, lemma_members_skip, lemma_zero_iff_empty, members,
    members_below, pop_lowest,
};
use crate::gamestate::constants::PIECE_TYPES_NUM;

verus! {

/// A set of squares: bit `i` is set when square `i` belongs to it.
pub type Bitboard = u64;

/// File (column) of square `s`, `0` for the a-file.
pub open spec fn file_of(s: int) -> int {
    s % 8
}

/// Rank (row) of square `s`, `0` for the first rank.
pub open spec fn rank_of(s: int) -> int {
    s / 8
}

/// The square on file `f` and rank `r` (rank-major, a1 = 0, h8 = 63).
pub open spec fn square_at(f: int, r: int) -> int {
    r * 8 + f
}

/// Whether `(f, r)` names a square of the board.
pub open spec fn on_board(f: int, r: int) -> bool {
    0 <= f < 8 && 0 <= r < 8
}

/// A square is given back by its number, and by its file and rank.
pub proof fn lemma_square_round_trip(s: int, f: int, r: int)
    requires
        0 <= s < 64,
        on_board(f, r),
    ensures
        square_at(file_of(s), rank_of(s)) == s,
        on_board(file_of(s), rank_of(s)),
        0 <= square_at(f, r) < 64,
        file_of(square_at(f, r)) == f,
        rank_of(square_at(f, r)) == r,
{
}

/// The six kinds of pieces.
#[derive(Debug, Clone, Copy, PartialEq, Eq, Structural)]
pub enum PieceType {
    Pawn,
    Knight,
    Bishop,
    Rook,
    Queen,
    King,
}

impl PieceType {
    /// Position of the kind in the fixed order pawn, knight, bishop, rook,
    /// queen, king.
    pub open spec fn index(self) -> int {
        match self {
            PieceType::Pawn => 0,
            PieceType::Knight => 1,
            PieceType::Bishop => 2,
            PieceType::Rook => 3,
            PieceType::Queen => 4,
            PieceType::King => 5,
        }
    }

    /// The kind at position `i` of the fixed order.
    pub open spec fn of_index(i: int) -> PieceType {
        if i == 0 {
            PieceType::Pawn
        } else if i == 1 {
            PieceType::Knight
        } else if i == 2 {
            PieceType::Bishop
        } else if i == 3 {
            PieceType::Rook
        } else if i == 4 {
            PieceType::Queen
        } else {
            PieceType::King
        }
    }

    /// The kind at position `i` of the fixed order, which must be below 6.
    pub fn from_u8(i: u8) -> (pt: PieceType)
        requires
            i < 6,
        ensures
            pt == PieceType::of_index(i as int),
            pt.index() == i,
    {
        match i {
            0 => PieceType::Pawn,
            1 => PieceType::Knight,
            2 => PieceType::Bishop,
            3 => PieceType::Rook,
            4 => PieceType::Queen,
            _ => PieceType::King,
        }
    }

    /// Position of the kind in the fixed order.
    pub fn to_index(&self) -> (i: usize)
        ensures
            i == self.index(),
            i < 6,
    {
        match self {
            PieceType::Pawn => 0,
            PieceType::Knight => 1,
            PieceType::Bishop => 2,
            PieceType::Rook => 3,
            PieceType::Queen => 4,
            PieceType::King => 5,
        }
    }
}

/// The two sides.
#[derive(Debug, Clone, Copy, PartialEq, Eq, Structural)]
pub enum Side {
    White,
    Black,
}

impl Side {
    /// `0` for white, `1` for black.
    pub open spec fn index(self) -> int {
        match self {
            Side::White => 0,
            Side::Black => 1,
        }
    }

    /// The side with number `i`.
    pub open spec fn of_index(i: int) -> Side {
        if i == 0 {
            Side::White
        } else {
            Side::Black
        }
    }

    /// The other side.
    pub open spec fn other(self) -> Side {
        match self {
            Side::White => Side::Black,
            Side::Black => Side::White,
        }
    }

    /// `0` for white, `1` for black.
    pub fn to_index(&self) -> (i: usize)
        ensures
            i == self.index(),
            i < 2,
    {
        match self {
            Side::White => 0,
            Side::Black => 1,
        }
    }

    /// The other side.
    pub fn opponent(&self) -> (s: Side)
        ensures
            s == self.other(),
    {
        match self {
            Side::White => Side::Black,
            Side::Black => Side::White,
        }
    }
}

/// The letter of file `f`.
pub open spec fn file_char(f: int) -> char {
    if f == 0 {
        'a'
    } else if f == 1 {
        'b'
    } else if f == 2 {
        'c'
    } else if f == 3 {
        'd'
    } else if f == 4 {
        'e'
    } else if f == 5 {
        'f'
    } else if f == 6 {
        'g'
    } else {
        'h'
    }
}

/// The digit of rank `r`.
pub open spec fn rank_char(r: int) -> char {
    if r == 0 {
        '1'
    } else if r == 1 {
        '2'
    } else if r == 2 {
        '3'
    } else if r == 3 {
        '4'
    } else if r == 4 {
        '5'
    } else if r == 5 {
        '6'
    } else if r == 6 {
        '7'
    } else {
        '8'
    }
}

/// The file that letter `c` names, if it names one.
pub open spec fn file_from_char(c: char) -> Option<int> {
    if c == 'a' {
        Some(0)
    } else if c == 'b' {
        Some(1)
    } else if c == 'c' {
        Some(2)
    } else if c == 'd' {
        Some(3)
    } else if c == 'e' {
        Some(4)
    } else if c == 'f' {
        Some(5)
    } else if c == 'g' {
        Some(6)
    } else if c == 'h' {
        Some(7)
    } else {
        None
    }
}

/// The rank that digit `c` names, if it names one.
pub open spec fn rank_from_char(c: char) -> Option<int> {
    if c == '1' {
        Some(0)
    } else if c == '2' {
        Some(1)
    } else if c == '3' {
        Some(2)
    } else if c == '4' {
        Some(3)
    } else if c == '5' {
        Some(4)
    } else if c == '6' {
        Some(5)
    } else if c == '7' {
        Some(6)
    } else if c == '8' {
        Some(7)
    } else {
        None
    }
}

/// The square that a text names: its first character must be a file letter
/// `a` to `h`, its second a rank digit `1` to `8`. What follows is not read.
pub open spec fn parse_algebraic(text: Seq<char>) -> Option<int> {
    if text.len() >= 2 && file_from_char(text[0]) is Some && rank_from_char(text[1]) is Some {
        Some(square_at(file_from_char(text[0])->0, rank_from_char(text[1])->0))
    } else {
        None
    }
}

/// The two-character name of square `s`.
pub open spec fn algebraic(s: int) -> Seq<char> {
    seq![file_char(file_of(s)), rank_char(rank_of(s))]
}

/// Reading the name of a square gives the square back.
pub proof fn lemma_algebraic_round_trip(s: int)
    requires
        0 <= s < 64,
    ensures
        parse_algebraic(algebraic(s)) == Some(s),
{
}

/// One of the 64 squares, numbered rank by rank from a1 (0) to h8 (63).
#[derive(Debug, Clone, Copy, PartialEq, Eq)]
pub struct Square(u8);

impl Square {
    /// The number of a square is at most 63.
    #[verifier::type_invariant]
    pub closed spec fn in_range(self) -> bool {
        self.0 <= 63
    }

    /// The number of the square.
    pub closed spec fn index(self) -> int {
        self.0 as int
    }

    /// The square with number `i`.
    pub closed spec fn of_index(i: int) -> Square {
        Square(i as u8)
    }

    /// A number from 0 to 63 is the number of the square that it gives, and
    /// a square is given by its number.
    pub proof fn lemma_of_index(self, i: int)
        ensures
            0 <= i <= 63 ==> Square::of_index(i).in_range() && Square::of_index(i).index() == i,
            self.in_range() ==> Square::of_index(self.index()) == self,
    {
    }

    /// What `in_range` means for the number of the square.
    pub proof fn lemma_in_range(self)
        ensures
            self.in_range() <==> 0 <= self.index() <= 63,
    {
    }

    /// Two squares with the same number are the same square.
    pub proof fn lemma_index_injective(self, other: Square)
        requires
            self.index() == other.index(),
        ensures
            self == other,
    {
    }

    /// The square with number `index`, which must be at most 63.
    pub fn new(index: u8) -> (sq: Square)
        requires
            index <= 63,
        ensures
            sq == Square::of_index(index as int),
            sq.index() == index,
    {
        Square(index)
    }

    /// The square numbered `index`, if there is one.
    pub fn from_index(index: u8) -> (r: Option<Square>)
        ensures
            index <= 63 ==> r == Some(Square::of_index(index as int)) && r->0.index() == index,
            index > 63 ==> r is None,
    {
        if index <= 63 {
            Some(Square(index))
        } else {
            None
        }
    }

    /// The square on file `file` and rank `rank`, if both are at most 7.
    pub fn new_from_file_rank(file: u8, rank: u8) -> (r: Option<Square>)
        ensures
            on_board(file as int, rank as int) ==> r == Some(
                Square::of_index(square_at(file as int, rank as int)),
            ) && r->0.index() == square_at(file as int, rank as int),
            !on_board(file as int, rank as int) ==> r is None,
    {
        if rank > 7 || file > 7 {
            return None;
        }
        Some(Square(rank * 8 + file))
    }

    /// The number of the square.
    pub fn get_index(&self) -> (i: usize)
        ensures
            i == self.index(),
            i <= 63,
    {
        proof {
            use_type_invariant(self);
        }
        self.0 as usize
    }

    /// The file and the rank of the square.
    pub fn get_file_rank(&self) -> (fr: (u8, u8))
        ensures
            fr.0 == file_of(self.index()),
            fr.1 == rank_of(self.index()),
            on_board(fr.0 as int, fr.1 as int),
    {
        proof {
            use_type_invariant(self);
        }
        let rank: u8 = self.0 / 8;
        let file: u8 = self.0 % 8;
        (file, rank)
    }

    /// The file of the square.
    pub fn get_file(&self) -> (f: u8)
        ensures
            f == file_of(self.index()),
            f < 8,
    {
        self.0 % 8
    }

    /// The rank of the square.
    pub fn get_rank(&self) -> (r: u8)
        ensures
            r == rank_of(self.index()),
            r < 8,
    {
        proof {
            use_type_invariant(self);
        }
        self.0 / 8
    }

    /// The set that holds this square and no other.
    pub fn get_mask(&self) -> (m: Bitboard)
        ensures
            m == 1u64 << (self.index() as u64),
            m != 0,
            forall|i: int| #[trigger] bit(m, i) == (i == self.index()),
    {
        proof {
            use_type_invariant(self);
            lemma_bit_single(self.index());
        }
        1u64 << (self.0 as u64)
    }

    /// Lists the squares of `bitboard` from the lowest to the highest.
    pub fn get_squares_from_bitboard(bitboard: Bitboard) -> (squares: Vec<Square>)
        ensures
            indices(squares@) == members(bitboard),
    {
        let mut squares: Vec<Square> = Vec::new();
        let mut rest: u64 = bitboard;
        let ghost mut lo: int = 0;
        while rest != 0
            invariant
                0 <= lo <= 64,
                forall|i: int| #[trigger] bit(rest, i) == (bit(bitboard, i) && i >= lo),
                indices(squares@) == members_below(bitboard, lo),
            decreases 64 - lo,
        {
            let ghost before = indices(squares@);
            let t: u8 = pop_lowest(&mut rest);
            proof {
                assert(bit(bitboard, t as int) && t >= lo);
                assert forall|j: int| lo <= j < t implies !bit(bitboard, j) by {
                    assert(!bit(rest, j) || j == t);
                }
                lemma_members_skip(bitboard, lo, t as int);
                lo = t + 1;
            }
            squares.push(Square::new(t));
            assert(indices(squares@) =~= before.push(t as int));
        }
        proof {
            lemma_zero_iff_empty(rest);
            assert forall|j: int| lo <= j < 64 implies !bit(bitboard, j) by {
                assert(!bit(rest, j));
            }
            lemma_members_skip(bitboard, lo, 64);
        }
        squares
    }

    /// The square that `coords` names by a file letter and a rank digit,
    /// as in `e4`. Characters after the second are not read.
    pub fn new_from_algebraic_notation(coords: &str) -> (r: Option<Square>)
        ensures
            match parse_algebraic(coords@) {
                Some(s) => r is Some && r->0.index() == s,
                None => r is None,
            },
    {
        if coords.unicode_len() < 2 {
            return None;
        }
        Self::new_from_file_rank_chars(coords.get_char(0), coords.get_char(1))
    }

    /// The square that a file letter and a rank digit name.
    pub fn new_from_file_rank_chars(file_char: char, rank_char: char) -> (r: Option<Square>)
        ensures
            match parse_algebraic(seq![file_char, rank_char]) {
                Some(s) => r is Some && r->0.index() == s,
                None => r is None,
            },
    {
        let file: u8 = match file_char {
            'a' => 0,
            'b' => 1,
            'c' => 2,
            'd' => 3,
            'e' => 4,
            'f' => 5,
            'g' => 6,
            'h' => 7,
            _ => {
                return None;
            },
        };
        let rank: u8 = match rank_char {
            '1' => 0,
            '2' => 1,
            '3' => 2,
            '4' => 3,
            '5' => 4,
            '6' => 5,
            '7' => 6,
            '8' => 7,
            _ => {
                return None;
            },
        };
        Self::new_from_file_rank(file, rank)
    }

    /// The name of the square: its file letter and its rank digit.
    pub fn to_algebraic_notation(&self) -> (text: String)
        ensures
            text@ == algebraic(self.index()),
    {
        let (file, rank) = self.get_file_rank();
        proof {
            reveal_strlit("a");
            reveal_strlit("b");
            reveal_strlit("c");
            reveal_strlit("d");
            reveal_strlit("e");
            reveal_strlit("f");
            reveal_strlit("g");
            reveal_strlit("h");
            reveal_strlit("1");
            reveal_strlit("2");
            reveal_strlit("3");
            reveal_strlit("4");
            reveal_strlit("5");
            reveal_strlit("6");
            reveal_strlit("7");
            reveal_strlit("8");
        }
        let file_text: &str = match file {
            0 => "a",
            1 => "b",
            2 => "c",
            3 => "d",
            4 => "e",
            5 => "f",
            6 => "g",
            _ => "h",
        };
        let rank_text: &str = match rank {
            0 => "1",
            1 => "2",
            2 => "3",
            3 => "4",
            4 => "5",
            5 => "6",
            6 => "7",
            _ => "8",
        };
        let mut text = String::from_str(file_text);
        text.append(rank_text);
        assert(text@ =~= algebraic(self.index()));
        text
    }
}

/// The numbers of the squares of `v`, in the same order.
pub open spec fn indices(v: Seq<Square>) -> Seq<int> {
    v.map_values(|s: Square| s.index())
}

/// Position of the bitboard of kind `pt` and side `side` among the twelve
/// piece bitboards: white's six kinds come first, then black's.
pub open spec fn spec_piece_index(pt: PieceType, side: Side) -> int {
    pt.index() + side.index() * 6
}

/// Union of the six piece bitboards of the side numbered `side`.
pub open spec fn side_union(p: Seq<u64>, side: int) -> u64 {
    p[side * 6] | p[side * 6 + 1] | p[side * 6 + 2] | p[side * 6 + 3] | p[side * 6 + 4] | p[side
        * 6 + 5]
}

/// No square belongs to two of the twelve piece bitboards.
pub open spec fn disjoint(p: Seq<u64>) -> bool {
    forall|i: int, j: int, s: int|
        0 <= i < j < 12 && #[trigger] bit(p[i], s) ==> !#[trigger] bit(p[j], s)
}

/// Twelve piece bitboards of which no two share a square.
pub open spec fn valid_pieces(p: Seq<u64>) -> bool {
    p.len() == 12 && disjoint(p)
}

/// Whether some piece stands on square `s`.
pub open spec fn occupied(p: Seq<u64>, s: int) -> bool {
    exists|k: int| 0 <= k < 12 && #[trigger] bit(p[k], s)
}

/// Whether a piece of the side numbered `side` stands on square `s`.
pub open spec fn side_occupied(p: Seq<u64>, side: int, s: int) -> bool {
    exists|k: int| side * 6 <= k < side * 6 + 6 && #[trigger] bit(p[k], s)
}

/// The position, among the twelve bitboards, of the piece on square `s`.
pub open spec fn occupant_index(p: Seq<u64>, s: int) -> int {
    choose|k: int| 0 <= k < 12 && #[trigger] bit(p[k], s)
}

/// The piece on square `s`, if there is one.
pub open spec fn occupant(p: Seq<u64>, s: int) -> Option<(PieceType, Side)> {
    if occupied(p, s) {
        let k = occupant_index(p, s);
        Some((PieceType::of_index(k % 6), Side::of_index(k / 6)))
    } else {
        None
    }
}

/// The members of a side's union are the squares that hold one of its pieces.
pub proof fn lemma_side_union(p: Seq<u64>, side: int)
    requires
        p.len() == 12,
        0 <= side < 2,
    ensures
        forall|s: int| #[trigger] bit(side_union(p, side), s) == side_occupied(p, side, s),
{
    let b = side * 6;
    lemma_bit_or(p[b], p[b + 1]);
    lemma_bit_or(p[b] | p[b + 1], p[b + 2]);
    lemma_bit_or(p[b] | p[b + 1] | p[b + 2], p[b + 3]);
    lemma_bit_or(p[b] | p[b + 1] | p[b + 2] | p[b + 3], p[b + 4]);
    lemma_bit_or(p[b] | p[b + 1] | p[b + 2] | p[b + 3] | p[b + 4], p[b + 5]);
    assert forall|s: int| #[trigger] bit(side_union(p, side), s) == side_occupied(p, side, s) by {
        if side_occupied(p, side, s) {
            let k = choose|k: int| side * 6 <= k < side * 6 + 6 && #[trigger] bit(p[k], s);
            assert(bit(p[k], s));
        }
        if bit(side_union(p, side), s) {
            assert(bit(p[b], s) || bit(p[b + 1], s) || bit(p[b + 2], s) || bit(p[b + 3], s) || bit(
                p[b + 4],
                s,
            ) || bit(p[b + 5], s));
        }
    }
}

/// With disjoint bitboards, the piece on a square is the one whose bitboard
/// holds the square.
pub proof fn lemma_occupant(p: Seq<u64>, k: int, s: int)
    requires
        valid_pieces(p),
        0 <= k < 12,
        bit(p[k], s),
    ensures
        occupied(p, s),
        occupant_index(p, s) == k,
        occupant(p, s) == Some((PieceType::of_index(k % 6), Side::of_index(k / 6))),
        side_occupied(p, k / 6, s),
        !side_occupied(p, 1 - k / 6, s),
{
    let c = occupant_index(p, s);
    assert(0 <= c < 12 && bit(p[c], s));
    if c < k {
        assert(!bit(p[k], s));
    }
    if k < c {
        assert(!bit(p[c], s));
    }
    if side_occupied(p, 1 - k / 6, s) {
        let o = choose|o: int| (1 - k / 6) * 6 <= o < (1 - k / 6) * 6 + 6 && #[trigger] bit(p[o], s);
        if o < k {
            assert(!bit(p[k], s));
        } else {
            assert(!bit(p[o], s));
        }
    }
}

/// The piece on a square stands in the bitboard of its kind and side.
pub proof fn lemma_occupant_bit(p: Seq<u64>, s: int)
    requires
        occupied(p, s),
    ensures
        0 <= occupant_index(p, s) < 12,
        bit(p[occupant_index(p, s)], s),
        occupant(p, s) matches Some((pt, side)) && spec_piece_index(pt, side) == occupant_index(
            p,
            s,
        ),
{
}

/// The two sides together hold the occupied squares.
pub proof fn lemma_occupied_sides(p: Seq<u64>, s: int)
    ensures
        occupied(p, s) == (side_occupied(p, 0, s) || side_occupied(p, 1, s)),
{
    if occupied(p, s) {
        let k = choose|k: int| 0 <= k < 12 && #[trigger] bit(p[k], s);
        assert(bit(p[k], s));
    }
    if side_occupied(p, 0, s) {
        let k = choose|k: int| 0 <= k < 6 && #[trigger] bit(p[k], s);
        assert(bit(p[k], s));
    }
    if side_occupied(p, 1, s) {
        let k = choose|k: int| 6 <= k < 12 && #[trigger] bit(p[k], s);
        assert(bit(p[k], s));
    }
}

/// What placing a piece on square `s` does to the twelve bitboards: square
/// `s` joins bitboard `k`, nothing else changes.
pub open spec fn with_piece(p: Seq<u64>, k: int, s: int) -> Seq<u64> {
    p.update(k, p[k] | (1u64 << (s as u64)))
}

/// What removing a piece from square `s` does to the twelve bitboards: square
/// `s` leaves bitboard `k`, nothing else changes.
pub open spec fn without_piece(p: Seq<u64>, k: int, s: int) -> Seq<u64> {
    p.update(k, p[k] & !(1u64 << (s as u64)))
}

/// Membership after a placement.
pub proof fn lemma_with_piece(p: Seq<u64>, k: int, s: int)
    requires
        p.len() == 12,
        0 <= k < 12,
        0 <= s < 64,
    ensures
        with_piece(p, k, s).len() == 12,
        forall|j: int, t: int|
            0 <= j < 12 ==> #[trigger] bit(with_piece(p, k, s)[j], t) == (bit(p[j], t) || (j == k
                && t == s)),
{
    lemma_bit_single(s);
    lemma_bit_or(p[k], 1u64 << (s as u64));
}

/// Membership after a removal.
pub proof fn lemma_without_piece(p: Seq<u64>, k: int, s: int)
    requires
        p.len() == 12,
        0 <= k < 12,
        0 <= s < 64,
    ensures
        without_piece(p, k, s).len() == 12,
        forall|j: int, t: int|
            0 <= j < 12 ==> #[trigger] bit(without_piece(p, k, s)[j], t) == (bit(p[j], t) && !(j
                == k && t == s)),
{
    let m = 1u64 << (s as u64);
    lemma_bit_single(s);
    lemma_bit_not(m);
    lemma_bit_and(p[k], !m);
    assert forall|j: int, t: int| 0 <= j < 12 implies #[trigger] bit(without_piece(p, k, s)[j], t)
        == (bit(p[j], t) && !(j == k && t == s)) by {
        if j == k {
            assert(bit(p[k] & !m, t) == (bit(p[k], t) && bit(!m, t)));
            if 0 <= t < 64 {
                assert(bit(!m, t) == !bit(m, t));
            }
        }
    }
}

/// Placing on an empty square keeps the bitboards disjoint.
pub proof fn lemma_with_piece_valid(p: Seq<u64>, k: int, s: int)
    requires
        valid_pieces(p),
        0 <= k < 12,
        0 <= s < 64,
        !occupied(p, s),
    ensures
        valid_pieces(with_piece(p, k, s)),
{
    lemma_with_piece(p, k, s);
    let q = with_piece(p, k, s);
    assert forall|i: int, j: int, t: int| 0 <= i < j < 12 && #[trigger] bit(q[i], t) implies !#[trigger] bit(
        q[j],
        t,
    ) by {
        if bit(q[j], t) {
            if t == s {
                assert(!bit(p[i], s));
                assert(!bit(p[j], s));
            } else {
                assert(bit(p[i], t));
                assert(bit(p[j], t));
            }
        }
    }
}

/// Removing a piece keeps the bitboards disjoint.
pub proof fn lemma_without_piece_valid(p: Seq<u64>, k: int, s: int)
    requires
        valid_pieces(p),
        0 <= k < 12,
        0 <= s < 64,
    ensures
        valid_pieces(without_piece(p, k, s)),
{
    lemma_without_piece(p, k, s);
    let q = without_piece(p, k, s);
    assert forall|i: int, j: int, t: int| 0 <= i < j < 12 && #[trigger] bit(q[i], t) implies !#[trigger] bit(
        q[j],
        t,
    ) by {
        if bit(q[j], t) {
            assert(bit(p[i], t));
            assert(bit(p[j], t));
        }
    }
}

/// Twelve piece bitboards, six for each side, and the union of each side's
/// six. No square belongs to two piece bitboards.
#[derive(Debug, Clone, Copy, PartialEq)]
pub struct Board {
    pieces: [Bitboard; 12],
    occupancy: [Bitboard; 2],
}

impl View for Board {
    type V = Seq<u64>;

    /// The twelve piece bitboards: white's pawns, knights, bishops, rooks,
    /// queens and king, then black's.
    closed spec fn view(&self) -> Seq<u64> {
        self.pieces@
    }
}

impl Default for Board {
    /// The empty board.
    fn default() -> (b: Board)
        ensures
            b@ == Seq::new(12, |k: int| 0u64),
    {
        let pieces: [u64; 12] = [0, 0, 0, 0, 0, 0, 0, 0, 0, 0, 0, 0];
        let occupancy: [u64; 2] = [0, 0];
        proof {
            lemma_bit_zero();
            assert(pieces@ =~= Seq::new(12, |k: int| 0u64));
            lemma_side_union(pieces@, 0);
            lemma_side_union(pieces@, 1);
            lemma_bits_equal(side_union(pieces@, 0), 0);
            lemma_bits_equal(side_union(pieces@, 1), 0);
        }
        Board { pieces, occupancy }
    }
}

impl Board {
    /// No two piece bitboards share a square, and the kept union of each
    /// side is the union of its six piece bitboards.
    #[verifier::type_invariant]
    pub closed spec fn well_formed(&self) -> bool {
        &&& disjoint(self.pieces@)
        &&& self.occupancy[0] == side_union(self.pieces@, 0)
        &&& self.occupancy[1] == side_union(self.pieces@, 1)
    }

    /// The union that the board keeps for the side numbered `side`.
    pub closed spec fn spec_occupancy(&self, side: int) -> u64 {
        self.occupancy[side]
    }

    /// Each side's kept union is the union of that side's six piece
    /// bitboards, and no two piece bitboards share a square.
    pub proof fn lemma_well_formed(&self)
        requires
            self.well_formed(),
        ensures
            valid_pieces(self@),
            self.spec_occupancy(0) == side_union(self@, 0),
            self.spec_occupancy(1) == side_union(self@, 1),
    {
    }

    /// A board has twelve piece bitboards.
    pub proof fn lemma_view_len(&self)
        ensures
            self@.len() == 12,
    {
    }

    /// The bitboard at position `index` of the twelve.
    pub fn get_bitboard_at(&self, index: usize) -> (b: Bitboard)
        requires
            index < 12,
        ensures
            b == self@[index as int],
    {
        self.pieces[index]
    }

    /// Position of the bitboard of kind `pt` and side `side` among the
    /// twelve: the position of the kind, plus six for black.
    pub fn piece_index(pt: PieceType, side: Side) -> (i: usize)
        ensures
            i == spec_piece_index(pt, side),
            i < 12,
    {
        pt.to_index() + side.to_index() * PIECE_TYPES_NUM
    }

    /// The squares that hold a piece of kind `pt` and side `side`.
    pub fn get_bitboard_of(&self, pt: PieceType, side: Side) -> (b: Bitboard)
        ensures
            b == self@[spec_piece_index(pt, side)],
    {
        self.pieces[Self::piece_index(pt, side)]
    }

    /// The squares that hold a piece of `side`.
    pub fn get_occupancy(&self, side: Side) -> (b: Bitboard)
        ensures
            b == side_union(self@, side.index()),
            forall|s: int| #[trigger] bit(b, s) == side_occupied(self@, side.index(), s),
    {
        proof {
            use_type_invariant(self);
            lemma_side_union(self@, side.index());
        }
        self.occupancy[side.to_index()]
    }

    /// The squares that hold a piece.
    pub fn get_combined_occupancy(&self) -> (b: Bitboard)
        ensures
            b == side_union(self@, 0) | side_union(self@, 1),
            forall|s: int| #[trigger] bit(b, s) == occupied(self@, s),
    {
        proof {
            use_type_invariant(self);
            lemma_side_union(self@, 0);
            lemma_side_union(self@, 1);
            lemma_bit_or(self.occupancy[0], self.occupancy[1]);
            assert forall|s: int| #[trigger]
                bit(self.occupancy[0] | self.occupancy[1], s) == occupied(self@, s) by {
                lemma_occupied_sides(self@, s);
            }
        }
        self.occupancy[0] | self.occupancy[1]
    }

    /// The squares that hold a piece of kind `pt` and side `side`, from the
    /// lowest to the highest.
    pub fn get_squares_of(&self, pt: PieceType, side: Side) -> (squares: Vec<Square>)
        ensures
            indices(squares@) == members(self@[spec_piece_index(pt, side)]),
    {
        let bitboard: u64 = self.get_bitboard_of(pt, side);
        Square::get_squares_from_bitboard(bitboard)
    }

    /// Whether a piece stands on `square`.
    pub fn is_square_occupied(&self, square: Square) -> (b: bool)
        ensures
            b == occupied(self@, square.index()),
    {
        let piece_mask: u64 = square.get_mask();
        let all: u64 = self.get_combined_occupancy();
        proof {
            use_type_invariant(square);
            lemma_bit_test(all, square.index());
        }
        (all & piece_mask) != 0
    }

    /// The piece on `square`, if there is one.
    pub fn get_piece_at_square(&self, square: Square) -> (r: Option<(PieceType, Side)>)
        ensures
            r == occupant(self@, square.index()),
            forall|pt: PieceType, side: Side|
                r == Some((pt, side)) <==> bit(
                    #[trigger] self@[spec_piece_index(pt, side)],
                    square.index(),
                ),
    {
        let piece_mask: u64 = square.get_mask();
        let ghost s = square.index();
        proof {
            use_type_invariant(self);
            use_type_invariant(square);
        }
        let mut i: usize = 0;
        while i < 12
            invariant
                0 <= i <= 12,
                0 <= s < 64,
                s == square.index(),
                piece_mask == 1u64 << (s as u64),
                self.well_formed(),
                forall|k: int| 0 <= k < i ==> !bit(#[trigger] self@[k], s),
            decreases 12 - i,
        {
            proof {
                lemma_bit_test(self.pieces[i as int], s);
            }
            if self.pieces[i] & piece_mask != 0 {
                let pt = PieceType::from_u8((i % PIECE_TYPES_NUM) as u8);
                let side = if i < PIECE_TYPES_NUM {
                    Side::White
                } else {
                    Side::Black
                };
                proof {
                    lemma_occupant(self@, i as int, s);
                    assert forall|pt2: PieceType, side2: Side|
                        Some((pt, side)) == Some((pt2, side2)) <==> bit(
                            #[trigger] self@[spec_piece_index(pt2, side2)],
                            s,
                        ) by {
                        let k2 = spec_piece_index(pt2, side2);
                        if bit(self@[k2], s) {
                            lemma_occupant(self@, k2, s);
                        }
                    }
                }
                return Some((pt, side));
            }
            i += 1;
        }
        proof {
            if occupied(self@, s) {
                let k = choose|k: int| 0 <= k < 12 && #[trigger] bit(self@[k], s);
                assert(!bit(self@[k], s));
            }
        }
        None
    }

    /// Puts a piece of kind `pt` and side `side` on `square`, which must be
    /// empty.
    pub fn place_piece_at_square(&mut self, square: Square, pt: PieceType, side: Side)
        requires
            !occupied(old(self)@, square.index()),
        ensures
            final(self)@ == with_piece(old(self)@, spec_piece_index(pt, side), square.index()),
    {
        let piece_mask: u64 = square.get_mask();
        let idx: usize = Self::piece_index(pt, side);
        let si: usize = side.to_index();
        let mut pieces: [u64; 12] = self.pieces;
        let mut occupancy: [u64; 2] = self.occupancy;
        pieces[idx] = pieces[idx] | piece_mask;
        occupancy[si] = occupancy[si] | piece_mask;
        proof {
            use_type_invariant(&*self);
            use_type_invariant(square);
            let p = self@;
            let s = square.index();
            let q = with_piece(p, idx as int, s);
            assert(pieces@ =~= q);
            lemma_with_piece(p, idx as int, s);
            lemma_with_piece_valid(p, idx as int, s);
            lemma_side_union(p, 0);
            lemma_side_union(p, 1);
            lemma_side_union(q, 0);
            lemma_side_union(q, 1);
            lemma_bit_or(self.occupancy[si as int], piece_mask);
            assert forall|side2: int| 0 <= side2 < 2 implies occupancy[side2] == side_union(
                q,
                side2,
            ) by {
                assert forall|t: int| 0 <= t < 64 implies bit(occupancy[side2], t) == bit(
                    side_union(q, side2),
                    t,
                ) by {
                    if side_occupied(q, side2, t) {
                        let k = choose|k: int|
                            side2 * 6 <= k < side2 * 6 + 6 && #[trigger] bit(q[k], t);
                        if bit(p[k], t) {
                            assert(side_occupied(p, side2, t));
                        }
                    }
                    if side_occupied(p, side2, t) {
                        let k = choose|k: int|
                            side2 * 6 <= k < side2 * 6 + 6 && #[trigger] bit(p[k], t);
                        assert(bit(q[k], t));
                    }
                    if side2 == si && t == s {
                        assert(bit(q[idx as int], t));
                    }
                }
                lemma_bits_equal(occupancy[side2], side_union(q, side2));
            }
        }
        *self = Board { pieces, occupancy };
    }

    /// Takes the piece of kind `pt` and side `side` off `square`, where it
    /// must stand.
    pub fn remove_piece_at_square(&mut self, square: Square, pt: PieceType, side: Side)
        requires
            bit(old(self)@[spec_piece_index(pt, side)], square.index()),
        ensures
            final(self)@ == without_piece(old(self)@, spec_piece_index(pt, side), square.index()),
    {
        let piece_mask: u64 = square.get_mask();
        let idx: usize = Self::piece_index(pt, side);
        let si: usize = side.to_index();
        let mut pieces: [u64; 12] = self.pieces;
        let mut occupancy: [u64; 2] = self.occupancy;
        pieces[idx] = pieces[idx] & !piece_mask;
        occupancy[si] = occupancy[si] & !piece_mask;
        proof {
            use_type_invariant(&*self);
            use_type_invariant(square);
            let p = self@;
            let s = square.index();
            let q = without_piece(p, idx as int, s);
            assert(pieces@ =~= q);
            lemma_without_piece(p, idx as int, s);
            lemma_without_piece_valid(p, idx as int, s);
            lemma_side_union(p, 0);
            lemma_side_union(p, 1);
            lemma_side_union(q, 0);
            lemma_side_union(q, 1);
            lemma_bit_not(piece_mask);
            lemma_bit_and(self.occupancy[si as int], !piece_mask);
            assert forall|side2: int| 0 <= side2 < 2 implies occupancy[side2] == side_union(
                q,
                side2,
            ) by {
                assert forall|t: int| 0 <= t < 64 implies bit(occupancy[side2], t) == bit(
                    side_union(q, side2),
                    t,
                ) by {
                    if side_occupied(q, side2, t) {
                        let k = choose|k: int|
                            side2 * 6 <= k < side2 * 6 + 6 && #[trigger] bit(q[k], t);
                        assert(bit(p[k], t));
                    }
                    if side_occupied(p, side2, t) {
                        let k = choose|k: int|
                            side2 * 6 <= k < side2 * 6 + 6 && #[trigger] bit(p[k], t);
                        if t == s {
                            lemma_occupant(p, idx as int, s);
                            lemma_occupant(p, k, s);
                        } else {
                            assert(bit(q[k], t));
                        }
                    }
                }
                lemma_bits_equal(occupancy[side2], side_union(q, side2));
            }
        }
        *self = Board { pieces, occupancy };
    }

    /// Moves the piece of kind `pt` and side `side` from `from_square`, where
    /// it must stand, to `to_square`, which must be empty.
    pub fn move_piece(&mut self, from_square: Square, to_square: Square, pt: PieceType, side: Side)
        requires
            bit(old(self)@[spec_piece_index(pt, side)], from_square.index()),
            !occupied(old(self)@, to_square.index()),
        ensures
            final(self)@ == with_piece(
                without_piece(old(self)@, spec_piece_index(pt, side), from_square.index()),
                spec_piece_index(pt, side),
                to_square.index(),
            ),
    {
        proof {
            use_type_invariant(&*self);
            use_type_invariant(from_square);
            use_type_invariant(to_square);
            lemma_without_piece(self@, spec_piece_index(pt, side), from_square.index());
        }
        self.remove_piece_at_square(from_square, pt, side);
        proof {
            let p = old(self)@;
            let q = self@;
            let t = to_square.index();
            if occupied(q, t) {
                let k = choose|k: int| 0 <= k < 12 && #[trigger] bit(q[k], t);
                assert(bit(p[k], t));
            }
        }
        self.place_piece_at_square(to_square, pt, side);
    }
}

} // verus!
