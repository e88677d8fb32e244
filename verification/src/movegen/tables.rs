//! The attack tables: everything that move generation looks up, computed
//! once and read-only afterwards.

use vstd::prelude::*;
use crate::bits::{
    bit, count_subsets, deposit_bits, deposit_spec, extract_bits, lemma_bit_or,
    lemma_deposit_extract, lemma_is_word_of, lemma_subset_count_cover, subset_count, two_to,
};
use crate::gamestate::board::{Bitboard, Side, Square, file_of, rank_of, square_at};
use crate::movegen::masks::{
    generate_king_attacks, generate_knight_attacks, generate_pawn_attacks,
    generate_pawn_double_pushes, generate_pawn_single_pushes, king_attacks_spec, king_reach,
    knight_attacks_spec, knight_reach, lemma_attack_sets, pawn_attack_reach, pawn_attacks_spec,
    pawn_double_push_reach, pawn_double_push_spec, pawn_push_reach, pawn_push_spec,
};
use crate::movegen::sliders::{
    bishop_attacks_spec, bishop_reach, bishop_relevant, calculate_bishop_attacks,
    calculate_rook_attacks, generate_bishop_masks, generate_rook_masks, lemma_bishop_relevant,
    lemma_on_ray, lemma_rook_relevant, queen_attacks_spec, queen_reach, relevant, rook_attacks_spec,
    rook_reach, rook_relevant,
};

verus! {

/// Whether a piece that slides along diagonals (`diagonal`) or along files
/// and ranks (not `diagonal`) reaches `t` from `s`.
pub open spec fn slider_reach(diagonal: bool, occupancy: u64, s: int, t: int) -> bool {
    if diagonal {
        bishop_reach(occupancy, s, t)
    } else {
        rook_reach(occupancy, s, t)
    }
}

/// The squares whose occupancy decides where such a piece reaches from `s`.
pub open spec fn slider_relevant(diagonal: bool, s: int, u: int) -> bool {
    if diagonal {
        bishop_relevant(s, u)
    } else {
        rook_relevant(s, u)
    }
}

/// A rook has at most twelve relevant squares, so at most 4096 sets of
/// blockers matter.
pub proof fn lemma_rook_mask_subsets(mask: u64, s: int)
    requires
        0 <= s < 64,
        forall|u: int| bit(mask, u) ==> rook_relevant(s, u),
    ensures
        subset_count(mask) <= 4096,
{
    let f = file_of(s);
    let r = rank_of(s);
    let cover: Set<int> = set![
        square_at(f, 1),
        square_at(f, 2),
        square_at(f, 3),
        square_at(f, 4),
        square_at(f, 5),
        square_at(f, 6),
        square_at(1, r),
        square_at(2, r),
        square_at(3, r),
        square_at(4, r),
        square_at(5, r),
        square_at(6, r)
    ];
    assert forall|u: int| bit(mask, u) implies cover.contains(u) by {
        if relevant(s, u, 0, 1) {
            lemma_on_ray(s, u, 0, 1);
        }
        if relevant(s, u, 0, -1) {
            lemma_on_ray(s, u, 0, -1);
        }
        if relevant(s, u, 1, 0) {
            lemma_on_ray(s, u, 1, 0);
        }
        if relevant(s, u, -1, 0) {
            lemma_on_ray(s, u, -1, 0);
        }
    }
    lemma_subset_count_cover(mask, cover, 12);
    assert(two_to(12) == 4096) by {
        reveal_with_fuel(two_to, 13);
    }
}

/// A bishop has at most twelve relevant squares, so at most 4096 sets of
/// blockers matter.
pub proof fn lemma_bishop_mask_subsets(mask: u64, s: int)
    requires
        0 <= s < 64,
        forall|u: int| bit(mask, u) ==> bishop_relevant(s, u),
    ensures
        subset_count(mask) <= 4096,
{
    let f = file_of(s);
    let r = rank_of(s);
    let cover: Set<int> = set![
        square_at(1, r + (1 - f)),
        square_at(2, r + (2 - f)),
        square_at(3, r + (3 - f)),
        square_at(4, r + (4 - f)),
        square_at(5, r + (5 - f)),
        square_at(6, r + (6 - f)),
        square_at(1, r - (1 - f)),
        square_at(2, r - (2 - f)),
        square_at(3, r - (3 - f)),
        square_at(4, r - (4 - f)),
        square_at(5, r - (5 - f)),
        square_at(6, r - (6 - f))
    ];
    assert forall|u: int| bit(mask, u) implies cover.contains(u) by {
        if relevant(s, u, 1, 1) {
            lemma_on_ray(s, u, 1, 1);
        }
        if relevant(s, u, -1, 1) {
            lemma_on_ray(s, u, -1, 1);
        }
        if relevant(s, u, 1, -1) {
            lemma_on_ray(s, u, 1, -1);
        }
        if relevant(s, u, -1, -1) {
            lemma_on_ray(s, u, -1, -1);
        }
    }
    lemma_subset_count_cover(mask, cover, 12);
    assert(two_to(12) == 4096) by {
        reveal_with_fuel(two_to, 13);
    }
}


/// Whether entry `index` of square `s` is in the table and holds where the
/// piece reaches from `s` when the blockers are the subset of the relevant
/// squares of `s` that `index` selects.
pub open spec fn entry_holds(
    diagonal: bool,
    masks: Seq<u64>,
    offsets: Seq<usize>,
    attacks: Seq<u64>,
    s: int,
    index: int,
) -> bool {
    &&& offsets[s] + index < attacks.len()
    &&& forall|t: int| #[trigger]
        bit(attacks[offsets[s] + index], t) == slider_reach(
            diagonal,
            deposit_spec(index as nat, masks[s]),
            s,
            t,
        )
}

/// For each square and each set of blockers on the relevant squares, where a
/// rook (or a bishop) reaches. The entry of a set of blockers is found by
/// packing its members into the low bits of a number.
pub struct SliderTable {
    diagonal: bool,
    masks: [Bitboard; 64],
    offsets: [usize; 64],
    attacks: Vec<Bitboard>,
}

impl SliderTable {
    /// The masks hold the relevant squares, and the entry of each set of
    /// blockers holds where the piece reaches among them.
    #[verifier::type_invariant]
    pub closed spec fn well_formed(&self) -> bool {
        &&& self.attacks@.len() <= 64 * 4096
        &&& forall|s: int, u: int|
            0 <= s < 64 ==> #[trigger] bit(self.masks[s], u) == slider_relevant(
                self.diagonal,
                s,
                u,
            )
        &&& forall|s: int, index: int|
            0 <= s < 64 && 0 <= index < subset_count(self.masks[s]) ==> #[trigger] entry_holds(
                self.diagonal,
                self.masks@,
                self.offsets@,
                self.attacks@,
                s,
                index,
            )
    }

    /// Whether the table is a bishop's.
    pub closed spec fn spec_diagonal(&self) -> bool {
        self.diagonal
    }

    /// The relevant squares of each square.
    pub closed spec fn spec_masks(&self) -> Seq<u64> {
        self.masks@
    }

    /// Builds the table of a bishop (`diagonal`) or of a rook.
    pub fn new(diagonal: bool) -> (table: SliderTable)
        ensures
            table.well_formed(),
            table.spec_diagonal() == diagonal,
    {
        let masks: [Bitboard; 64] = if diagonal {
            generate_bishop_masks()
        } else {
            generate_rook_masks()
        };
        let mut offsets: [usize; 64] = [0usize; 64];
        let mut attacks: Vec<Bitboard> = Vec::new();
        let mut s: usize = 0;
        while s < 64
            invariant
                0 <= s <= 64,
                forall|q: int, u: int|
                    0 <= q < 64 ==> #[trigger] bit(masks[q], u) == slider_relevant(diagonal, q, u),
                attacks.len() <= s * 4096,
                forall|q: int, index: int|
                    0 <= q < s && 0 <= index < subset_count(masks[q]) ==> #[trigger] entry_holds(
                        diagonal,
                        masks@,
                        offsets@,
                        attacks@,
                        q,
                        index,
                    ),
            decreases 64 - s,
        {
            let square: Square = Square::new(s as u8);
            let mask: u64 = masks[s];
            proof {
                if diagonal {
                    lemma_bishop_mask_subsets(mask, s as int);
                } else {
                    lemma_rook_mask_subsets(mask, s as int);
                }
            }
            let count: usize = count_subsets(mask);
            let base: usize = attacks.len();
            let ghost offsets_before = offsets@;
            offsets[s] = base;
            proof {
                assert forall|q: int, index: int|
                    0 <= q < s && 0 <= index < subset_count(masks[q]) implies #[trigger] entry_holds(
                    diagonal,
                    masks@,
                    offsets@,
                    attacks@,
                    q,
                    index,
                ) by {
                    assert(entry_holds(diagonal, masks@, offsets_before, attacks@, q, index));
                }
            }
            let mut index: usize = 0;
            while index < count
                invariant
                    0 <= s < 64,
                    0 <= index <= count,
                    count == subset_count(mask),
                    count <= 4096,
                    mask == masks[s as int],
                    square.index() == s,
                    offsets[s as int] == base,
                    base <= s * 4096,
                    attacks.len() == base + index,
                    forall|q: int, i: int|
                        0 <= q < s && 0 <= i < subset_count(masks[q]) ==> #[trigger] entry_holds(
                            diagonal,
                            masks@,
                            offsets@,
                            attacks@,
                            q,
                            i,
                        ),
                    forall|i: int|
                        0 <= i < index ==> #[trigger] entry_holds(
                            diagonal,
                            masks@,
                            offsets@,
                            attacks@,
                            s as int,
                            i,
                        ),
                decreases count - index,
            {
                let blockers: u64 = deposit_bits(index, mask);
                let attack: u64 = if diagonal {
                    calculate_bishop_attacks(square, blockers)
                } else {
                    calculate_rook_attacks(square, blockers)
                };
                let ghost attacks_before = attacks@;
                attacks.push(attack);
                proof {
                    assert forall|q: int, i: int|
                        0 <= q < s && 0 <= i < subset_count(masks[q]) implies #[trigger] entry_holds(
                        diagonal,
                        masks@,
                        offsets@,
                        attacks@,
                        q,
                        i,
                    ) by {
                        assert(entry_holds(diagonal, masks@, offsets@, attacks_before, q, i));
                    }
                    assert forall|i: int| 0 <= i < index + 1 implies #[trigger] entry_holds(
                        diagonal,
                        masks@,
                        offsets@,
                        attacks@,
                        s as int,
                        i,
                    ) by {
                        if i < index {
                            assert(entry_holds(
                                diagonal,
                                masks@,
                                offsets@,
                                attacks_before,
                                s as int,
                                i,
                            ));
                        }
                    }
                }
                index += 1;
            }
            s += 1;
        }
        SliderTable { diagonal, masks, offsets, attacks }
    }

    /// The relevant squares of `square`.
    pub fn mask(&self, square: Square) -> (mask: Bitboard)
        ensures
            mask == self.spec_masks()[square.index()],
            forall|u: int| #[trigger]
                bit(mask, u) == slider_relevant(self.spec_diagonal(), square.index(), u),
    {
        proof {
            use_type_invariant(self);
        }
        self.masks[square.get_index()]
    }

    /// Where the piece reaches from `square` on a board whose occupied
    /// squares are `occupancy`.
    pub fn attacks(&self, square: Square, occupancy: Bitboard) -> (attack: Bitboard)
        ensures
            forall|t: int| #[trigger]
                bit(attack, t) == slider_reach(
                    self.spec_diagonal(),
                    occupancy,
                    square.index(),
                    t,
                ),
    {
        let s: usize = square.get_index();
        let mask: u64 = self.masks[s];
        proof {
            use_type_invariant(self);
            if self.diagonal {
                lemma_bishop_mask_subsets(mask, s as int);
            } else {
                lemma_rook_mask_subsets(mask, s as int);
            }
        }
        let index: usize = extract_bits(occupancy, mask);
        proof {
            assert(entry_holds(
                self.diagonal,
                self.masks@,
                self.offsets@,
                self.attacks@,
                s as int,
                index as int,
            ));
            assert(self.offsets[s as int] + index < self.attacks@.len());
            lemma_deposit_extract(occupancy, mask);
            assert forall|t: int|
                slider_reach(self.diagonal, occupancy & mask, s as int, t) == slider_reach(
                    self.diagonal,
                    occupancy,
                    s as int,
                    t,
                ) by {
                if self.diagonal {
                    lemma_bishop_relevant(occupancy, mask, s as int, t);
                } else {
                    lemma_rook_relevant(occupancy, mask, s as int, t);
                }
            }
        }
        self.attacks[self.offsets[s] + index]
    }
}

/// The attack tables of all pieces.
pub struct AttackTables {
    knight: [Bitboard; 64],
    king: [Bitboard; 64],
    white_pawn_attacks: [Bitboard; 64],
    black_pawn_attacks: [Bitboard; 64],
    white_pawn_pushes: [Bitboard; 64],
    black_pawn_pushes: [Bitboard; 64],
    white_pawn_double_pushes: [Bitboard; 8],
    black_pawn_double_pushes: [Bitboard; 8],
    rook: SliderTable,
    bishop: SliderTable,
}

impl AttackTables {
    /// Each table holds the attack sets of its piece.
    #[verifier::type_invariant]
    pub closed spec fn well_formed(&self) -> bool {
        &&& forall|s: int| 0 <= s < 64 ==> #[trigger] self.knight[s] == knight_attacks_spec(s)
        &&& forall|s: int| 0 <= s < 64 ==> #[trigger] self.king[s] == king_attacks_spec(s)
        &&& forall|s: int|
            0 <= s < 64 ==> #[trigger] self.white_pawn_attacks[s] == pawn_attacks_spec(
                Side::White,
                s,
            )
        &&& forall|s: int|
            0 <= s < 64 ==> #[trigger] self.black_pawn_attacks[s] == pawn_attacks_spec(
                Side::Black,
                s,
            )
        &&& forall|s: int|
            0 <= s < 64 ==> #[trigger] self.white_pawn_pushes[s] == pawn_push_spec(Side::White, s)
        &&& forall|s: int|
            0 <= s < 64 ==> #[trigger] self.black_pawn_pushes[s] == pawn_push_spec(Side::Black, s)
        &&& forall|f: int|
            0 <= f < 8 ==> #[trigger] self.white_pawn_double_pushes[f] == pawn_double_push_spec(
                Side::White,
                f,
            )
        &&& forall|f: int|
            0 <= f < 8 ==> #[trigger] self.black_pawn_double_pushes[f] == pawn_double_push_spec(
                Side::Black,
                f,
            )
        &&& !self.rook.spec_diagonal()
        &&& self.bishop.spec_diagonal()
    }

    /// Computes all tables.
    pub fn new() -> (tables: AttackTables)
        ensures
            tables.well_formed(),
    {
        let knight: [Bitboard; 64] = generate_knight_attacks();
        let king: [Bitboard; 64] = generate_king_attacks();
        let (white_pawn_attacks, black_pawn_attacks) = generate_pawn_attacks();
        let (white_pawn_pushes, black_pawn_pushes) = generate_pawn_single_pushes();
        let (white_pawn_double_pushes, black_pawn_double_pushes) = generate_pawn_double_pushes();
        let rook: SliderTable = SliderTable::new(false);
        let bishop: SliderTable = SliderTable::new(true);
        AttackTables {
            knight,
            king,
            white_pawn_attacks,
            black_pawn_attacks,
            white_pawn_pushes,
            black_pawn_pushes,
            white_pawn_double_pushes,
            black_pawn_double_pushes,
            rook,
            bishop,
        }
    }

    /// Where a knight on `square` reaches.
    pub fn knight_attacks(&self, square: Square) -> (attacks: Bitboard)
        ensures
            attacks == knight_attacks_spec(square.index()),
            forall|t: int| #[trigger] bit(attacks, t) == knight_reach(square.index(), t),
    {
        proof {
            use_type_invariant(self);
            lemma_attack_sets(Side::White, square.index());
        }
        self.knight[square.get_index()]
    }

    /// Where a king on `square` reaches.
    pub fn king_attacks(&self, square: Square) -> (attacks: Bitboard)
        ensures
            attacks == king_attacks_spec(square.index()),
            forall|t: int| #[trigger] bit(attacks, t) == king_reach(square.index(), t),
    {
        proof {
            use_type_invariant(self);
            lemma_attack_sets(Side::White, square.index());
        }
        self.king[square.get_index()]
    }

    /// The squares that a pawn of `side` on `square` attacks.
    pub fn pawn_attacks(&self, side: Side, square: Square) -> (attacks: Bitboard)
        ensures
            attacks == pawn_attacks_spec(side, square.index()),
            forall|t: int| #[trigger]
                bit(attacks, t) == pawn_attack_reach(side, square.index(), t),
    {
        proof {
            use_type_invariant(self);
            lemma_attack_sets(side, square.index());
        }
        match side {
            Side::White => self.white_pawn_attacks[square.get_index()],
            Side::Black => self.black_pawn_attacks[square.get_index()],
        }
    }

    /// The square to which a pawn of `side` on `square` steps, if the board
    /// has one.
    pub fn pawn_single_push(&self, side: Side, square: Square) -> (push: Bitboard)
        ensures
            push == pawn_push_spec(side, square.index()),
            forall|t: int| #[trigger] bit(push, t) == pawn_push_reach(side, square.index(), t),
    {
        proof {
            use_type_invariant(self);
            lemma_attack_sets(side, square.index());
        }
        match side {
            Side::White => self.white_pawn_pushes[square.get_index()],
            Side::Black => self.black_pawn_pushes[square.get_index()],
        }
    }

    /// The square to which a pawn of `side` on file `file` advances two
    /// ranks from its home rank.
    pub fn pawn_double_push(&self, side: Side, file: u8) -> (push: Bitboard)
        requires
            file < 8,
        ensures
            push == pawn_double_push_spec(side, file as int),
            forall|t: int| #[trigger]
                bit(push, t) == pawn_double_push_reach(side, file as int, t),
    {
        proof {
            use_type_invariant(self);
            lemma_attack_sets(side, file as int);
        }
        match side {
            Side::White => self.white_pawn_double_pushes[file as usize],
            Side::Black => self.black_pawn_double_pushes[file as usize],
        }
    }

    /// Where a rook on `square` reaches on a board whose occupied squares
    /// are `occupancy`.
    pub fn rook_attacks(&self, square: Square, occupancy: Bitboard) -> (attacks: Bitboard)
        ensures
            attacks == rook_attacks_spec(occupancy, square.index()),
            forall|t: int| #[trigger] bit(attacks, t) == rook_reach(occupancy, square.index(), t),
    {
        proof {
            use_type_invariant(self);
        }
        let attacks: u64 = self.rook.attacks(square, occupancy);
        proof {
            lemma_is_word_of(attacks, |t: int| rook_reach(occupancy, square.index(), t));
        }
        attacks
    }

    /// Where a bishop on `square` reaches on a board whose occupied squares
    /// are `occupancy`.
    pub fn bishop_attacks(&self, square: Square, occupancy: Bitboard) -> (attacks: Bitboard)
        ensures
            attacks == bishop_attacks_spec(occupancy, square.index()),
            forall|t: int| #[trigger]
                bit(attacks, t) == bishop_reach(occupancy, square.index(), t),
    {
        proof {
            use_type_invariant(self);
        }
        let attacks: u64 = self.bishop.attacks(square, occupancy);
        proof {
            lemma_is_word_of(attacks, |t: int| bishop_reach(occupancy, square.index(), t));
        }
        attacks
    }

    /// Where a queen on `square` reaches on a board whose occupied squares
    /// are `occupancy`.
    pub fn queen_attacks(&self, square: Square, occupancy: Bitboard) -> (attacks: Bitboard)
        ensures
            attacks == queen_attacks_spec(occupancy, square.index()),
            forall|t: int| #[trigger]
                bit(attacks, t) == queen_reach(occupancy, square.index(), t),
    {
        let rook: u64 = self.rook_attacks(square, occupancy);
        let bishop: u64 = self.bishop_attacks(square, occupancy);
        proof {
            lemma_bit_or(rook, bishop);
        }
        rook | bishop
    }
}

} // verus!
