//! Moves, packed in sixteen bits: six for the origin square, six for the
//! destination square, four for the kind of move.

use vstd::prelude::*;
use vstd::arithmetic::div_mod::{lemma_fundamental_div_mod, lemma_fundamental_div_mod_converse};
use crate::gamestate::board::{PieceType, Square};

verus! {

const MOVE_TO_OFFSET: u16 = 6;

const FLAGS_OFFSET: u16 = 12;

const PROMOTION_FLAG_MASK: u8 = 0b1000;

const CAPTURE_FLAG_MASK: u8 = 0b0100;

const PROMO_CAPTURE_FLAGS_MASK: u8 = 0b1100;

const INDEX_MASK: u16 = 0b111111;

const FLAGS_MASK: u16 = 0b001111;

/// The fourteen kinds of move.
#[derive(Debug, Clone, Copy, PartialEq, Eq, Structural)]
pub enum MoveFlags {
    Quiet,
    DoublePawnPush,
    KingCastle,
    QueenCastle,
    Capture,
    EpCapture,
    KnightPromotion,
    BishopPromotion,
    RookPromotion,
    QueenPromotion,
    KnightPromoCapture,
    BishopPromoCapture,
    RookPromoCapture,
    QueenPromoCapture,
}

/// Whether `c` is the four-bit value of a kind of move: `6` and `7` are not.
pub open spec fn valid_flag_code(c: int) -> bool {
    0 <= c < 16 && c != 6 && c != 7
}

impl MoveFlags {
    /// The four-bit value of the kind: bit 3 says promotion, bit 2 capture.
    pub open spec fn code(self) -> int {
        match self {
            MoveFlags::Quiet => 0,
            MoveFlags::DoublePawnPush => 1,
            MoveFlags::KingCastle => 2,
            MoveFlags::QueenCastle => 3,
            MoveFlags::Capture => 4,
            MoveFlags::EpCapture => 5,
            MoveFlags::KnightPromotion => 8,
            MoveFlags::BishopPromotion => 9,
            MoveFlags::RookPromotion => 10,
            MoveFlags::QueenPromotion => 11,
            MoveFlags::KnightPromoCapture => 12,
            MoveFlags::BishopPromoCapture => 13,
            MoveFlags::RookPromoCapture => 14,
            MoveFlags::QueenPromoCapture => 15,
        }
    }

    /// The kind with four-bit value `c`.
    pub open spec fn of_code(c: int) -> MoveFlags {
        if c == 0 {
            MoveFlags::Quiet
        } else if c == 1 {
            MoveFlags::DoublePawnPush
        } else if c == 2 {
            MoveFlags::KingCastle
        } else if c == 3 {
            MoveFlags::QueenCastle
        } else if c == 4 {
            MoveFlags::Capture
        } else if c == 5 {
            MoveFlags::EpCapture
        } else if c == 8 {
            MoveFlags::KnightPromotion
        } else if c == 9 {
            MoveFlags::BishopPromotion
        } else if c == 10 {
            MoveFlags::RookPromotion
        } else if c == 11 {
            MoveFlags::QueenPromotion
        } else if c == 12 {
            MoveFlags::KnightPromoCapture
        } else if c == 13 {
            MoveFlags::BishopPromoCapture
        } else if c == 14 {
            MoveFlags::RookPromoCapture
        } else {
            MoveFlags::QueenPromoCapture
        }
    }

    /// Whether the move takes a piece.
    pub open spec fn captures(self) -> bool {
        self == MoveFlags::Capture || self == MoveFlags::EpCapture || self.promo_captures()
    }

    /// Whether the move promotes a pawn.
    pub open spec fn promotes(self) -> bool {
        self.promotion_piece() is Some
    }

    /// Whether the move promotes a pawn and takes a piece.
    pub open spec fn promo_captures(self) -> bool {
        self == MoveFlags::KnightPromoCapture || self == MoveFlags::BishopPromoCapture || self
            == MoveFlags::RookPromoCapture || self == MoveFlags::QueenPromoCapture
    }

    /// Whether the move castles.
    pub open spec fn castles(self) -> bool {
        self == MoveFlags::KingCastle || self == MoveFlags::QueenCastle
    }

    /// The kind of piece that a promoting move puts on the board.
    pub open spec fn promotion_piece(self) -> Option<PieceType> {
        match self {
            MoveFlags::QueenPromotion | MoveFlags::QueenPromoCapture => Some(PieceType::Queen),
            MoveFlags::KnightPromotion | MoveFlags::KnightPromoCapture => Some(PieceType::Knight),
            MoveFlags::BishopPromotion | MoveFlags::BishopPromoCapture => Some(PieceType::Bishop),
            MoveFlags::RookPromotion | MoveFlags::RookPromoCapture => Some(PieceType::Rook),
            _ => None,
        }
    }

    /// Every kind is given back by its four-bit value.
    pub proof fn lemma_code_round_trip(self)
        ensures
            valid_flag_code(self.code()),
            MoveFlags::of_code(self.code()) == self,
    {
    }

    /// The kind with four-bit value `value`, which must be the value of a
    /// kind.
    pub fn from_u8(value: u8) -> (flags: MoveFlags)
        requires
            valid_flag_code(value as int),
        ensures
            flags == MoveFlags::of_code(value as int),
            flags.code() == value,
    {
        match value {
            0b0000 => MoveFlags::Quiet,
            0b0001 => MoveFlags::DoublePawnPush,
            0b0010 => MoveFlags::KingCastle,
            0b0011 => MoveFlags::QueenCastle,
            0b0100 => MoveFlags::Capture,
            0b0101 => MoveFlags::EpCapture,
            0b1000 => MoveFlags::KnightPromotion,
            0b1001 => MoveFlags::BishopPromotion,
            0b1010 => MoveFlags::RookPromotion,
            0b1011 => MoveFlags::QueenPromotion,
            0b1100 => MoveFlags::KnightPromoCapture,
            0b1101 => MoveFlags::BishopPromoCapture,
            0b1110 => MoveFlags::RookPromoCapture,
            _ => MoveFlags::QueenPromoCapture,
        }
    }

    /// The four-bit value of the kind.
    pub fn to_u8(&self) -> (value: u8)
        ensures
            value == self.code(),
            valid_flag_code(value as int),
    {
        match self {
            MoveFlags::Quiet => 0b0000,
            MoveFlags::DoublePawnPush => 0b0001,
            MoveFlags::KingCastle => 0b0010,
            MoveFlags::QueenCastle => 0b0011,
            MoveFlags::Capture => 0b0100,
            MoveFlags::EpCapture => 0b0101,
            MoveFlags::KnightPromotion => 0b1000,
            MoveFlags::BishopPromotion => 0b1001,
            MoveFlags::RookPromotion => 0b1010,
            MoveFlags::QueenPromotion => 0b1011,
            MoveFlags::KnightPromoCapture => 0b1100,
            MoveFlags::BishopPromoCapture => 0b1101,
            MoveFlags::RookPromoCapture => 0b1110,
            MoveFlags::QueenPromoCapture => 0b1111,
        }
    }

    /// The name of the kind.
    pub open spec fn spec_name(self) -> Seq<char> {
        match self {
            MoveFlags::Quiet => "Quiet"@,
            MoveFlags::DoublePawnPush => "Double Pawn Push"@,
            MoveFlags::KingCastle => "King Castle"@,
            MoveFlags::QueenCastle => "Queen Castle"@,
            MoveFlags::Capture => "Capture"@,
            MoveFlags::EpCapture => "En Passant Capture"@,
            MoveFlags::KnightPromotion => "Knight Promotion"@,
            MoveFlags::BishopPromotion => "Bishop Promotion"@,
            MoveFlags::RookPromotion => "Rook Promotion"@,
            MoveFlags::QueenPromotion => "Queen Promotion"@,
            MoveFlags::KnightPromoCapture => "Knight Promotion Capture"@,
            MoveFlags::BishopPromoCapture => "Bishop Promotion Capture"@,
            MoveFlags::RookPromoCapture => "Rook Promotion Capture"@,
            MoveFlags::QueenPromoCapture => "Queen Promotion Capture"@,
        }
    }

    /// The name of the kind.
    pub fn name(&self) -> (text: &'static str)
        ensures
            text@ == self.spec_name(),
    {
        match self {
            MoveFlags::Quiet => "Quiet",
            MoveFlags::DoublePawnPush => "Double Pawn Push",
            MoveFlags::KingCastle => "King Castle",
            MoveFlags::QueenCastle => "Queen Castle",
            MoveFlags::Capture => "Capture",
            MoveFlags::EpCapture => "En Passant Capture",
            MoveFlags::KnightPromotion => "Knight Promotion",
            MoveFlags::BishopPromotion => "Bishop Promotion",
            MoveFlags::RookPromotion => "Rook Promotion",
            MoveFlags::QueenPromotion => "Queen Promotion",
            MoveFlags::KnightPromoCapture => "Knight Promotion Capture",
            MoveFlags::BishopPromoCapture => "Bishop Promotion Capture",
            MoveFlags::RookPromoCapture => "Rook Promotion Capture",
            MoveFlags::QueenPromoCapture => "Queen Promotion Capture",
        }
    }

    /// The kind of piece that a promoting move puts on the board.
    pub fn get_promotion_piece(&self) -> (r: Option<PieceType>)
        ensures
            r == self.promotion_piece(),
    {
        match self {
            MoveFlags::QueenPromotion | MoveFlags::QueenPromoCapture => Some(PieceType::Queen),
            MoveFlags::KnightPromotion | MoveFlags::KnightPromoCapture => Some(PieceType::Knight),
            MoveFlags::BishopPromotion | MoveFlags::BishopPromoCapture => Some(PieceType::Bishop),
            MoveFlags::RookPromotion | MoveFlags::RookPromoCapture => Some(PieceType::Rook),
            _ => None,
        }
    }
}

proof fn bv_unpack(x: u16)
    by (bit_vector)
    ensures
        x & 63 == x % 64,
        (x >> 6) & 63 == (x / 64) % 64,
        (x >> 12) & 15 == x / 4096,
{
}

proof fn bv_pack(f: u16, t: u16, c: u16)
    by (bit_vector)
    requires
        f < 64,
        t < 64,
        c < 16,
    ensures
        f | (t << 6) | (c << 12) == f + 64 * t + 4096 * c,
{
}

proof fn bv_flag_bits(c: u8)
    by (bit_vector)
    requires
        c < 16,
    ensures
        (c & 4 != 0) == (4 <= c < 8 || 12 <= c),
        (c & 8 != 0) == (8 <= c),
        (c & 12 == 12) == (12 <= c),
{
}

/// The three parts of a packed value are given back by division: the
/// origin by the remainder modulo 64, the destination by the next six bits,
/// the kind by what is left.
proof fn lemma_packed_parts(from: int, to: int, code: int)
    requires
        0 <= from < 64,
        0 <= to < 64,
        0 <= code < 16,
    ensures
        0 <= from + 64 * to + 4096 * code < 65536,
        (from + 64 * to + 4096 * code) % 64 == from,
        ((from + 64 * to + 4096 * code) / 64) % 64 == to,
        (from + 64 * to + 4096 * code) / 4096 == code,
{
    let x = from + 64 * to + 4096 * code;
    lemma_fundamental_div_mod_converse(x, 64, to + 64 * code, from);
    lemma_fundamental_div_mod_converse(to + 64 * code, 64, code, to);
    lemma_fundamental_div_mod_converse(x, 4096, code, from + 64 * to);
}

/// A move: where from, where to, and of which kind.
#[derive(Debug, Clone, Copy, PartialEq, Eq)]
pub struct Move(u16);

impl Move {
    /// The four high bits are the value of a kind of move.
    #[verifier::type_invariant]
    pub closed spec fn well_formed(self) -> bool {
        valid_flag_code(self.0 as int / 4096)
    }

    /// The sixteen-bit value of the move.
    pub closed spec fn spec_bits(self) -> int {
        self.0 as int
    }

    /// The number of the origin square.
    pub closed spec fn spec_from(self) -> int {
        self.0 as int % 64
    }

    /// The number of the destination square.
    pub closed spec fn spec_to(self) -> int {
        (self.0 as int / 64) % 64
    }

    /// The kind of the move.
    pub closed spec fn spec_flags(self) -> MoveFlags {
        MoveFlags::of_code(self.0 as int / 4096)
    }

    /// The move from square `from` to square `to` of kind `flags`.
    pub closed spec fn spec_encode(from: int, to: int, flags: MoveFlags) -> Move {
        Move((from + 64 * to + 4096 * flags.code()) as u16)
    }

    /// Packing then unpacking gives back the origin, the destination and the
    /// kind.
    pub proof fn lemma_decode_encode(from: int, to: int, flags: MoveFlags)
        requires
            0 <= from < 64,
            0 <= to < 64,
        ensures
            Move::spec_encode(from, to, flags).well_formed(),
            Move::spec_encode(from, to, flags).spec_from() == from,
            Move::spec_encode(from, to, flags).spec_to() == to,
            Move::spec_encode(from, to, flags).spec_flags() == flags,
            Move::spec_encode(from, to, flags).spec_bits() == from + 64 * to + 4096 * flags.code(),
    {
        flags.lemma_code_round_trip();
        lemma_packed_parts(from, to, flags.code());
    }

    /// Unpacking then packing gives back the move.
    pub proof fn lemma_encode_decode(self)
        requires
            self.well_formed(),
        ensures
            0 <= self.spec_from() < 64,
            0 <= self.spec_to() < 64,
            Move::spec_encode(self.spec_from(), self.spec_to(), self.spec_flags()) == self,
    {
        let x = self.0 as int;
        let code = x / 4096;
        assert(MoveFlags::of_code(code).code() == code);
        lemma_fundamental_div_mod(x, 64);
        lemma_fundamental_div_mod(x / 64, 64);
        assert(x / 64 / 64 == x / 4096) by {
            lemma_packed_parts(x % 64, (x / 64) % 64, x / 64 / 64);
        }
    }

    /// The move from `from` to `to` of kind `flags`.
    pub fn encode(from: Square, to: Square, flags: MoveFlags) -> (m: Move)
        ensures
            m == Move::spec_encode(from.index(), to.index(), flags),
            m.spec_from() == from.index(),
            m.spec_to() == to.index(),
            m.spec_flags() == flags,
    {
        let f: u16 = from.get_index() as u16;
        let t: u16 = to.get_index() as u16;
        let c: u16 = flags.to_u8() as u16;
        proof {
            bv_pack(f, t, c);
            Move::lemma_decode_encode(f as int, t as int, flags);
        }
        Move(f | (t << MOVE_TO_OFFSET) | (c << FLAGS_OFFSET))
    }

    /// The origin, the destination and the kind of the move.
    pub fn decode(&self) -> (r: (Square, Square, MoveFlags))
        ensures
            r.0.index() == self.spec_from(),
            r.1.index() == self.spec_to(),
            r.2 == self.spec_flags(),
    {
        (self.get_from_square(), self.get_to_square(), self.get_flags())
    }

    /// The origin square.
    pub fn get_from_square(&self) -> (sq: Square)
        ensures
            sq.index() == self.spec_from(),
    {
        proof {
            bv_unpack(self.0);
        }
        Square::new((self.0 & INDEX_MASK) as u8)
    }

    /// The destination square.
    pub fn get_to_square(&self) -> (sq: Square)
        ensures
            sq.index() == self.spec_to(),
    {
        proof {
            bv_unpack(self.0);
        }
        Square::new(((self.0 >> MOVE_TO_OFFSET) & INDEX_MASK) as u8)
    }

    /// The kind of the move.
    pub fn get_flags(&self) -> (flags: MoveFlags)
        ensures
            flags == self.spec_flags(),
    {
        MoveFlags::from_u8(self.get_flags_as_u8())
    }

    fn get_flags_as_u8(&self) -> (c: u8)
        ensures
            c == self.spec_flags().code(),
            valid_flag_code(c as int),
    {
        proof {
            use_type_invariant(self);
            bv_unpack(self.0);
        }
        ((self.0 >> FLAGS_OFFSET) & FLAGS_MASK) as u8
    }

    /// The sixteen-bit value of the move.
    pub fn as_u16(&self) -> (bits: u16)
        ensures
            bits == self.spec_bits(),
    {
        self.0
    }

    /// Whether the move is a plain move to an empty square.
    pub fn is_quiet(&self) -> (b: bool)
        ensures
            b == (self.spec_flags() == MoveFlags::Quiet),
    {
        let flags: u8 = self.get_flags_as_u8();
        flags == 0b0000
    }

    /// Whether the move castles.
    pub fn is_castle(&self) -> (b: bool)
        ensures
            b == self.spec_flags().castles(),
    {
        let flags: u8 = self.get_flags_as_u8();
        (flags == 0b0010) || (flags == 0b0011)
    }

    /// Whether the move takes a piece.
    pub fn is_capture(&self) -> (b: bool)
        ensures
            b == self.spec_flags().captures(),
    {
        let flags: u8 = self.get_flags_as_u8();
        proof {
            bv_flag_bits(flags);
        }
        (flags & CAPTURE_FLAG_MASK) != 0
    }

    /// Whether the move takes a pawn en passant.
    pub fn is_ep_capture(&self) -> (b: bool)
        ensures
            b == (self.spec_flags() == MoveFlags::EpCapture),
    {
        let flags: u8 = self.get_flags_as_u8();
        flags == 0b0101
    }

    /// Whether the move promotes a pawn.
    pub fn is_promotion(&self) -> (b: bool)
        ensures
            b == self.spec_flags().promotes(),
    {
        let flags: u8 = self.get_flags_as_u8();
        proof {
            bv_flag_bits(flags);
        }
        (flags & PROMOTION_FLAG_MASK) != 0
    }

    /// Whether the move promotes a pawn and takes a piece.
    pub fn is_promo_capture(&self) -> (b: bool)
        ensures
            b == self.spec_flags().promo_captures(),
    {
        let flags: u8 = self.get_flags_as_u8();
        proof {
            bv_flag_bits(flags);
        }
        (flags & PROMO_CAPTURE_FLAGS_MASK) == PROMO_CAPTURE_FLAGS_MASK
    }
}

} // verus!
