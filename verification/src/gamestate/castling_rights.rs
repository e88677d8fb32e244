//! Castling rights of both sides, packed in four bits.

use vstd::prelude::*;
use crate::gamestate::board::Side;

verus! {

const CASTLING_SHIFT: u8 = 2;

const CASTLING_SIDE_MASK: u8 = 0b0000_0011;

/// The castling rights of one side.
#[derive(Debug, Clone, Copy, PartialEq, Eq, Structural)]
pub enum CastlingSide {
    Neither,
    Kingside,
    Queenside,
    Both,
}

impl CastlingSide {
    /// The two-bit value of the rights: bit 0 for the king's side, bit 1 for
    /// the queen's side.
    pub open spec fn code(self) -> int {
        match self {
            CastlingSide::Neither => 0,
            CastlingSide::Kingside => 1,
            CastlingSide::Queenside => 2,
            CastlingSide::Both => 3,
        }
    }

    /// The rights with two-bit value `c`.
    pub open spec fn of_code(c: int) -> CastlingSide {
        if c == 0 {
            CastlingSide::Neither
        } else if c == 1 {
            CastlingSide::Kingside
        } else if c == 2 {
            CastlingSide::Queenside
        } else {
            CastlingSide::Both
        }
    }

    /// Whether castling on the king's side is allowed.
    pub open spec fn kingside(self) -> bool {
        self == CastlingSide::Kingside || self == CastlingSide::Both
    }

    /// Whether castling on the queen's side is allowed.
    pub open spec fn queenside(self) -> bool {
        self == CastlingSide::Queenside || self == CastlingSide::Both
    }

    /// The rights that allow the king's side iff `k` and the queen's side iff
    /// `q`.
    pub open spec fn of(k: bool, q: bool) -> CastlingSide {
        if k && q {
            CastlingSide::Both
        } else if k {
            CastlingSide::Kingside
        } else if q {
            CastlingSide::Queenside
        } else {
            CastlingSide::Neither
        }
    }

    /// What either of the two allows.
    pub open spec fn union(self, other: CastlingSide) -> CastlingSide {
        CastlingSide::of(self.kingside() || other.kingside(), self.queenside() || other.queenside())
    }

    /// What `self` allows and `other` does not.
    pub open spec fn minus(self, other: CastlingSide) -> CastlingSide {
        CastlingSide::of(self.kingside() && !other.kingside(), self.queenside() && !other.queenside())
    }

    /// The rights with two-bit value `u`, which must be at most 3.
    pub fn from_u8(u: u8) -> (r: CastlingSide)
        requires
            u <= 3,
        ensures
            r == CastlingSide::of_code(u as int),
            r.code() == u,
    {
        match u {
            0 => CastlingSide::Neither,
            1 => CastlingSide::Kingside,
            2 => CastlingSide::Queenside,
            _ => CastlingSide::Both,
        }
    }

    /// The two-bit value of the rights.
    pub fn to_u8(&self) -> (u: u8)
        ensures
            u == self.code(),
            u <= 3,
    {
        match self {
            CastlingSide::Neither => 0,
            CastlingSide::Kingside => 1,
            CastlingSide::Queenside => 2,
            CastlingSide::Both => 3,
        }
    }
}

proof fn bv_field(b: u8, sh: u8)
    by (bit_vector)
    requires
        b < 16,
        sh == 0 || sh == 2,
    ensures
        (b >> sh) & 3 < 4,
        sh == 0 ==> (b >> sh) & 3 == b % 4,
        sh == 2 ==> (b >> sh) & 3 == b / 4,
        3u8 << sh == (if sh == 0 { 3u8 } else { 12u8 }),
{
}

proof fn bv_set(b: u8, r: u8, sh: u8)
    by (bit_vector)
    requires
        b < 16,
        r < 4,
        sh == 0 || sh == 2,
    ensures
        b | (r << sh) < 16,
        ((b | (r << sh)) >> sh) & 3 == ((b >> sh) & 3) | r,
        ((b | (r << sh)) >> ((2 - sh) as u8)) & 3 == (b >> ((2 - sh) as u8)) & 3,
        b & !(r << sh) < 16,
        ((b & !(r << sh)) >> sh) & 3 == ((b >> sh) & 3) & !r,
        ((b & !(r << sh)) >> ((2 - sh) as u8)) & 3 == (b >> ((2 - sh) as u8)) & 3,
{
}

proof fn bv_codes(a: u8, r: u8)
    by (bit_vector)
    requires
        a < 4,
        r < 4,
    ensures
        a | r < 4,
        a & !r < 4,
        ((a | r) % 2 == 1) == (a % 2 == 1 || r % 2 == 1),
        ((a | r) / 2 == 1) == (a / 2 == 1 || r / 2 == 1),
        ((a & !r) % 2 == 1) == (a % 2 == 1 && !(r % 2 == 1)),
        ((a & !r) / 2 == 1) == (a / 2 == 1 && !(r / 2 == 1)),
        a & !3u8 == 0,
{
}

/// The castling rights of both sides: white's in bits 0 and 1, black's in
/// bits 2 and 3.
#[derive(Debug, Clone, Copy, PartialEq, Eq)]
pub struct CastlingRights(u8);

impl CastlingRights {
    /// Only the four low bits are used.
    #[verifier::type_invariant]
    pub closed spec fn well_formed(self) -> bool {
        self.0 < 16
    }

    /// The packed value: white's two-bit value plus four times black's.
    pub closed spec fn spec_bits(self) -> int {
        self.0 as int
    }

    /// The rights of `side`.
    pub closed spec fn spec_rights(self, side: Side) -> CastlingSide {
        match side {
            Side::White => CastlingSide::of_code(self.0 as int % 4),
            Side::Black => CastlingSide::of_code(self.0 as int / 4),
        }
    }

    /// The rights after `side` has lost those that `lost` names.
    pub closed spec fn spec_without(self, side: Side, lost: CastlingSide) -> CastlingRights {
        let left = self.spec_rights(side).minus(lost).code();
        match side {
            Side::White => CastlingRights((self.0 as int / 4 * 4 + left) as u8),
            Side::Black => CastlingRights((self.0 as int % 4 + 4 * left) as u8),
        }
    }

    /// The rights after `side` has lost all of its own.
    pub open spec fn spec_without_side(self, side: Side) -> CastlingRights {
        self.spec_without(side, CastlingSide::Both)
    }

    /// Taking rights from a side leaves that side what it had and is not
    /// taken, and the other side what it had.
    pub proof fn lemma_without(self, side: Side, lost: CastlingSide)
        requires
            self.well_formed(),
        ensures
            self.spec_without(side, lost).well_formed(),
            self.spec_without(side, lost).spec_rights(side) == self.spec_rights(side).minus(lost),
            self.spec_without(side, lost).spec_rights(side.other()) == self.spec_rights(
                side.other(),
            ),
    {
    }

    /// The packed value is determined by the rights of the two sides, and
    /// determines them.
    pub proof fn lemma_bits(self)
        requires
            self.well_formed(),
        ensures
            0 <= self.spec_bits() < 16,
            self.spec_bits() == self.spec_rights(Side::White).code() + 4 * self.spec_rights(
                Side::Black,
            ).code(),
    {
    }

    /// Two values that give both sides the same rights are the same value.
    pub proof fn lemma_equal(self, other: CastlingRights)
        requires
            self.well_formed(),
            other.well_formed(),
            self.spec_rights(Side::White) == other.spec_rights(Side::White),
            self.spec_rights(Side::Black) == other.spec_rights(Side::Black),
        ensures
            self == other,
    {
        self.lemma_bits();
        other.lemma_bits();
    }

    /// No rights for either side.
    pub fn new() -> (r: CastlingRights)
        ensures
            r.spec_rights(Side::White) == CastlingSide::Neither,
            r.spec_rights(Side::Black) == CastlingSide::Neither,
            r.spec_bits() == 0,
    {
        CastlingRights(0)
    }

    /// The rights with packed value `bits`, if `bits` is a packed value.
    pub fn from_u8(bits: u8) -> (r: Option<CastlingRights>)
        ensures
            bits < 16 ==> r is Some && r->0.spec_bits() == bits,
            bits >= 16 ==> r is None,
    {
        if bits < 16 {
            Some(CastlingRights(bits))
        } else {
            None
        }
    }

    /// The packed value.
    pub fn as_u8(&self) -> (bits: u8)
        ensures
            bits == self.spec_bits(),
            bits < 16,
    {
        proof {
            use_type_invariant(self);
        }
        self.0
    }

    fn shift(side: Side) -> (sh: u8)
        ensures
            sh == 2 * side.index(),
    {
        match side {
            Side::White => 0,
            Side::Black => CASTLING_SHIFT,
        }
    }

    /// Adds `rights` to what `side` already has.
    pub fn set_rights(&mut self, side: Side, rights: CastlingSide)
        ensures
            final(self).spec_rights(side) == old(self).spec_rights(side).union(rights),
            final(self).spec_rights(side.other()) == old(self).spec_rights(side.other()),
    {
        let sh: u8 = Self::shift(side);
        let code: u8 = rights.to_u8();
        proof {
            use_type_invariant(&*self);
            bv_set(self.0, code, sh);
            bv_field(self.0, sh);
            bv_field(self.0, (2 - sh) as u8);
            bv_field(self.0 | (code << sh), sh);
            bv_field(self.0 | (code << sh), (2 - sh) as u8);
            bv_codes((self.0 >> sh) & 3, code);
        }
        let bits: u8 = self.0 | (code << sh);
        self.0 = bits;
    }

    /// The rights of `side`.
    pub fn get_rights(&self, side: Side) -> (r: CastlingSide)
        ensures
            r == self.spec_rights(side),
    {
        let sh: u8 = Self::shift(side);
        proof {
            use_type_invariant(self);
            bv_field(self.0, sh);
        }
        CastlingSide::from_u8((self.0 >> sh) & CASTLING_SIDE_MASK)
    }

    /// Whether `side` may castle at all.
    pub fn can_castle(&self, side: Side) -> (b: bool)
        ensures
            b == (self.spec_rights(side) != CastlingSide::Neither),
    {
        match self.get_rights(side) {
            CastlingSide::Neither => false,
            _ => true,
        }
    }

    /// Whether `side` may castle on the king's side.
    pub fn can_castle_kingside(&self, side: Side) -> (b: bool)
        ensures
            b == self.spec_rights(side).kingside(),
    {
        match self.get_rights(side) {
            CastlingSide::Kingside | CastlingSide::Both => true,
            _ => false,
        }
    }

    /// Whether `side` may castle on the queen's side.
    pub fn can_castle_queenside(&self, side: Side) -> (b: bool)
        ensures
            b == self.spec_rights(side).queenside(),
    {
        match self.get_rights(side) {
            CastlingSide::Queenside | CastlingSide::Both => true,
            _ => false,
        }
    }

    /// Takes all rights from `side`.
    pub fn disable_side(&mut self, side: Side)
        ensures
            *final(self) == old(self).spec_without_side(side),
            final(self).spec_rights(side) == CastlingSide::Neither,
            final(self).spec_rights(side.other()) == old(self).spec_rights(side.other()),
    {
        let sh: u8 = Self::shift(side);
        proof {
            use_type_invariant(&*self);
            bv_set(self.0, 3, sh);
            bv_field(self.0, sh);
            bv_field(self.0, (2 - sh) as u8);
            bv_field(self.0 & !(3u8 << sh), sh);
            bv_field(self.0 & !(3u8 << sh), (2 - sh) as u8);
            bv_codes((self.0 >> sh) & 3, 3);
        }
        let mask: u8 = !(CASTLING_SIDE_MASK << sh);
        let bits: u8 = self.0 & mask;
        self.0 = bits;
        proof {
            old(self).lemma_without(side, CastlingSide::Both);
            final(self).lemma_equal(old(self).spec_without_side(side));
        }
    }

    /// Takes from `side` the rights that `castling_side_to_disable` names.
    pub fn disable_specific_right(&mut self, side: Side, castling_side_to_disable: CastlingSide)
        ensures
            *final(self) == old(self).spec_without(side, castling_side_to_disable),
            final(self).spec_rights(side) == old(self).spec_rights(side).minus(
                castling_side_to_disable,
            ),
            final(self).spec_rights(side.other()) == old(self).spec_rights(side.other()),
    {
        let sh: u8 = Self::shift(side);
        let code: u8 = castling_side_to_disable.to_u8();
        proof {
            use_type_invariant(&*self);
            bv_set(self.0, code, sh);
            bv_field(self.0, sh);
            bv_field(self.0, (2 - sh) as u8);
            bv_field(self.0 & !(code << sh), sh);
            bv_field(self.0 & !(code << sh), (2 - sh) as u8);
            bv_codes((self.0 >> sh) & 3, code);
        }
        let mask: u8 = !(code << sh);
        let bits: u8 = self.0 & mask;
        self.0 = bits;
        proof {
            old(self).lemma_without(side, castling_side_to_disable);
            final(self).lemma_equal(old(self).spec_without(side, castling_side_to_disable));
        }
    }

    /// Takes all rights from both sides.
    pub fn clear_all(&mut self)
        ensures
            final(self).spec_rights(Side::White) == CastlingSide::Neither,
            final(self).spec_rights(Side::Black) == CastlingSide::Neither,
            final(self).spec_bits() == 0,
    {
        self.0 = 0;
    }
}

} // verus!
