//! Where knights, kings and pawns reach from each square.

use vstd::prelude::*;
use crate::bits::{
    bit, lemma_bit_and, lemma_bit_or, lemma_bit_shl, lemma_bit_shr, lemma_is_word_of, lemma_word_of,
    word_of,
};
use crate::gamestate::board::{Bitboard, Side, Square, file_of, rank_of, square_at};
use crate::movegen::constants::{
    EAST, NORTH, NORTHEAST, NORTHWEST, NOT_AB_FILE, NOT_A_FILE, NOT_GH_FILE, NOT_H_FILE, NO_EA_EA,
    NO_NO_EA, NO_NO_WE, NO_WE_WE, SOUTH, SOUTHEAST, SOUTHWEST, SO_EA_EA, SO_SO_EA, SO_SO_WE,
    SO_WE_WE, WEST, lemma_file_masks,
};

verus! {

/// Whether `t` lies `df` files and `dr` ranks away from `s`, both on the
/// board.
pub open spec fn offset_by(s: int, t: int, df: int, dr: int) -> bool {
    0 <= s < 64 && 0 <= t < 64 && file_of(t) == file_of(s) + df && rank_of(t) == rank_of(s) + dr
}

/// Whether a knight on `s` reaches `t`.
pub open spec fn knight_reach(s: int, t: int) -> bool {
    offset_by(s, t, 1, 2) || offset_by(s, t, 2, 1) || offset_by(s, t, 2, -1) || offset_by(
        s,
        t,
        1,
        -2,
    ) || offset_by(s, t, -1, -2) || offset_by(s, t, -2, -1) || offset_by(s, t, -2, 1) || offset_by(
        s,
        t,
        -1,
        2,
    )
}

/// Whether a king on `s` reaches `t`.
pub open spec fn king_reach(s: int, t: int) -> bool {
    offset_by(s, t, 0, 1) || offset_by(s, t, 1, 1) || offset_by(s, t, 1, 0) || offset_by(
        s,
        t,
        1,
        -1,
    ) || offset_by(s, t, 0, -1) || offset_by(s, t, -1, -1) || offset_by(s, t, -1, 0) || offset_by(
        s,
        t,
        -1,
        1,
    )
}

/// The number of ranks that a pawn of `side` advances with one step: `1` for
/// white, `-1` for black.
pub open spec fn forward(side: Side) -> int {
    match side {
        Side::White => 1,
        Side::Black => -1,
    }
}

/// Whether a pawn of `side` on `s` attacks `t`.
pub open spec fn pawn_attack_reach(side: Side, s: int, t: int) -> bool {
    offset_by(s, t, 1, forward(side)) || offset_by(s, t, -1, forward(side))
}

/// Whether a pawn of `side` on `s` steps to `t`.
pub open spec fn pawn_push_reach(side: Side, s: int, t: int) -> bool {
    offset_by(s, t, 0, forward(side))
}

/// The rank on which the pawns of `side` start.
pub open spec fn home_rank(side: Side) -> int {
    match side {
        Side::White => 1,
        Side::Black => 6,
    }
}

/// The rank on which the pawns of `side` promote.
pub open spec fn last_rank(side: Side) -> int {
    match side {
        Side::White => 7,
        Side::Black => 0,
    }
}

/// Whether `t` is where a pawn of `side` on file `f` lands when it advances
/// two ranks from its home rank.
pub open spec fn pawn_double_push_reach(side: Side, f: int, t: int) -> bool {
    0 <= f < 8 && t == square_at(f, home_rank(side) + 2 * forward(side))
}

/// The squares that a knight on `s` reaches.
pub open spec fn knight_attacks_spec(s: int) -> u64 {
    word_of(|t: int| knight_reach(s, t))
}

/// The squares that a king on `s` reaches.
pub open spec fn king_attacks_spec(s: int) -> u64 {
    word_of(|t: int| king_reach(s, t))
}

/// The squares that a pawn of `side` on `s` attacks.
pub open spec fn pawn_attacks_spec(side: Side, s: int) -> u64 {
    word_of(|t: int| pawn_attack_reach(side, s, t))
}

/// The square to which a pawn of `side` on `s` steps, as a set.
pub open spec fn pawn_push_spec(side: Side, s: int) -> u64 {
    word_of(|t: int| pawn_push_reach(side, s, t))
}

/// The square where a pawn of `side` on file `f` lands after a double step,
/// as a set.
pub open spec fn pawn_double_push_spec(side: Side, f: int) -> u64 {
    word_of(|t: int| pawn_double_push_reach(side, f, t))
}

/// The members of the attack sets are the squares that the pieces reach.
pub proof fn lemma_attack_sets(side: Side, s: int)
    ensures
        forall|t: int| #[trigger] bit(knight_attacks_spec(s), t) == knight_reach(s, t),
        forall|t: int| #[trigger] bit(king_attacks_spec(s), t) == king_reach(s, t),
        forall|t: int| #[trigger] bit(pawn_attacks_spec(side, s), t) == pawn_attack_reach(side, s, t),
        forall|t: int| #[trigger] bit(pawn_push_spec(side, s), t) == pawn_push_reach(side, s, t),
        forall|t: int| #[trigger]
            bit(pawn_double_push_spec(side, s), t) == (0 <= t < 64 && pawn_double_push_reach(
                side,
                s,
                t,
            )),
{
    lemma_word_of(|t: int| knight_reach(s, t));
    lemma_word_of(|t: int| king_reach(s, t));
    lemma_word_of(|t: int| pawn_attack_reach(side, s, t));
    lemma_word_of(|t: int| pawn_push_reach(side, s, t));
    lemma_word_of(|t: int| pawn_double_push_reach(side, s, t));
}

/// Moves every square of `bitboard` by `dir` square numbers: up for a
/// positive `dir`, down for a negative one. Squares pushed off either end are
/// lost.
pub fn shift(bitboard: Bitboard, dir: i32) -> (r: Bitboard)
    requires
        -64 < dir < 64,
    ensures
        forall|t: int| #[trigger] bit(r, t) == (0 <= t < 64 && bit(bitboard, t - dir)),
{
    if dir >= 0 {
        proof {
            lemma_bit_shl(bitboard, dir as int);
        }
        bitboard << (dir as u64)
    } else {
        proof {
            lemma_bit_shr(bitboard, -(dir as int));
        }
        bitboard >> ((-dir) as u64)
    }
}

/// The square of `position_mask` moved by `dir`, if it lands in `keep`.
fn step_within(position_mask: Bitboard, dir: i32, keep: Bitboard) -> (r: Bitboard)
    requires
        -64 < dir < 64,
    ensures
        forall|t: int| #[trigger]
            bit(r, t) == (0 <= t < 64 && bit(position_mask, t - dir) && bit(keep, t)),
{
    let moved: u64 = shift(position_mask, dir);
    proof {
        lemma_bit_and(moved, keep);
    }
    moved & keep
}

/// Where a knight on `square` reaches.
pub fn knight_attacks_from(square: Square) -> (attacks: Bitboard)
    ensures
        attacks == knight_attacks_spec(square.index()),
        forall|t: int| #[trigger] bit(attacks, t) == knight_reach(square.index(), t),
{
    let position_mask: u64 = square.get_mask();
    let a1: u64 = step_within(position_mask, NO_NO_EA, NOT_A_FILE);
    let a2: u64 = step_within(position_mask, NO_EA_EA, NOT_AB_FILE);
    let a3: u64 = step_within(position_mask, SO_EA_EA, NOT_AB_FILE);
    let a4: u64 = step_within(position_mask, SO_SO_EA, NOT_A_FILE);
    let a5: u64 = step_within(position_mask, SO_SO_WE, NOT_H_FILE);
    let a6: u64 = step_within(position_mask, SO_WE_WE, NOT_GH_FILE);
    let a7: u64 = step_within(position_mask, NO_WE_WE, NOT_GH_FILE);
    let a8: u64 = step_within(position_mask, NO_NO_WE, NOT_H_FILE);
    let attacks: u64 = a1 | a2 | a3 | a4 | a5 | a6 | a7 | a8;
    proof {
        use_type_invariant(square);
        lemma_file_masks();
        lemma_bit_or(a1, a2);
        lemma_bit_or(a1 | a2, a3);
        lemma_bit_or(a1 | a2 | a3, a4);
        lemma_bit_or(a1 | a2 | a3 | a4, a5);
        lemma_bit_or(a1 | a2 | a3 | a4 | a5, a6);
        lemma_bit_or(a1 | a2 | a3 | a4 | a5 | a6, a7);
        lemma_bit_or(a1 | a2 | a3 | a4 | a5 | a6 | a7, a8);
        let s = square.index();
        assert forall|t: int| #[trigger] bit(attacks, t) == knight_reach(s, t) by {
            assert(bit(a1, t) == offset_by(s, t, 1, 2));
            assert(bit(a2, t) == offset_by(s, t, 2, 1));
            assert(bit(a3, t) == offset_by(s, t, 2, -1));
            assert(bit(a4, t) == offset_by(s, t, 1, -2));
            assert(bit(a5, t) == offset_by(s, t, -1, -2));
            assert(bit(a6, t) == offset_by(s, t, -2, -1));
            assert(bit(a7, t) == offset_by(s, t, -2, 1));
            assert(bit(a8, t) == offset_by(s, t, -1, 2));
        }
        lemma_is_word_of(attacks, |t: int| knight_reach(s, t));
    }
    attacks
}


/// Where a king on `square` reaches.
pub fn king_attacks_from(square: Square) -> (attacks: Bitboard)
    ensures
        attacks == king_attacks_spec(square.index()),
        forall|t: int| #[trigger] bit(attacks, t) == king_reach(square.index(), t),
{
    let position_mask: u64 = square.get_mask();
    let a1: u64 = shift(position_mask, NORTH);
    let a2: u64 = step_within(position_mask, NORTHEAST, NOT_A_FILE);
    let a3: u64 = step_within(position_mask, EAST, NOT_A_FILE);
    let a4: u64 = step_within(position_mask, SOUTHEAST, NOT_A_FILE);
    let a5: u64 = shift(position_mask, SOUTH);
    let a6: u64 = step_within(position_mask, SOUTHWEST, NOT_H_FILE);
    let a7: u64 = step_within(position_mask, WEST, NOT_H_FILE);
    let a8: u64 = step_within(position_mask, NORTHWEST, NOT_H_FILE);
    let attacks: u64 = a1 | a2 | a3 | a4 | a5 | a6 | a7 | a8;
    proof {
        use_type_invariant(square);
        lemma_file_masks();
        lemma_bit_or(a1, a2);
        lemma_bit_or(a1 | a2, a3);
        lemma_bit_or(a1 | a2 | a3, a4);
        lemma_bit_or(a1 | a2 | a3 | a4, a5);
        lemma_bit_or(a1 | a2 | a3 | a4 | a5, a6);
        lemma_bit_or(a1 | a2 | a3 | a4 | a5 | a6, a7);
        lemma_bit_or(a1 | a2 | a3 | a4 | a5 | a6 | a7, a8);
        let s = square.index();
        assert forall|t: int| #[trigger] bit(attacks, t) == king_reach(s, t) by {
            assert(bit(a1, t) == offset_by(s, t, 0, 1));
            assert(bit(a2, t) == offset_by(s, t, 1, 1));
            assert(bit(a3, t) == offset_by(s, t, 1, 0));
            assert(bit(a4, t) == offset_by(s, t, 1, -1));
            assert(bit(a5, t) == offset_by(s, t, 0, -1));
            assert(bit(a6, t) == offset_by(s, t, -1, -1));
            assert(bit(a7, t) == offset_by(s, t, -1, 0));
            assert(bit(a8, t) == offset_by(s, t, -1, 1));
        }
        lemma_is_word_of(attacks, |t: int| king_reach(s, t));
    }
    attacks
}

/// The squares that a pawn of `side` on `square` attacks.
pub fn pawn_attacks_from(side: Side, square: Square) -> (attacks: Bitboard)
    ensures
        attacks == pawn_attacks_spec(side, square.index()),
        forall|t: int| #[trigger] bit(attacks, t) == pawn_attack_reach(side, square.index(), t),
{
    let position_mask: u64 = square.get_mask();
    let (east, west): (u64, u64) = match side {
        Side::White => (
            step_within(position_mask, NORTHEAST, NOT_A_FILE),
            step_within(position_mask, NORTHWEST, NOT_H_FILE),
        ),
        Side::Black => (
            step_within(position_mask, SOUTHEAST, NOT_A_FILE),
            step_within(position_mask, SOUTHWEST, NOT_H_FILE),
        ),
    };
    proof {
        use_type_invariant(square);
        lemma_file_masks();
        lemma_bit_or(east, west);
        let s = square.index();
        assert forall|t: int| #[trigger] bit(east | west, t) == pawn_attack_reach(side, s, t) by {
            assert(bit(east, t) == offset_by(s, t, 1, forward(side)));
            assert(bit(west, t) == offset_by(s, t, -1, forward(side)));
        }
        lemma_is_word_of(east | west, |t: int| pawn_attack_reach(side, s, t));
    }
    east | west
}

/// The square to which a pawn of `side` on `square` steps, if the board has
/// one.
pub fn pawn_push_from(side: Side, square: Square) -> (push: Bitboard)
    ensures
        push == pawn_push_spec(side, square.index()),
        forall|t: int| #[trigger] bit(push, t) == pawn_push_reach(side, square.index(), t),
{
    let position_mask: u64 = square.get_mask();
    let push: u64 = match side {
        Side::White => shift(position_mask, NORTH),
        Side::Black => shift(position_mask, SOUTH),
    };
    proof {
        use_type_invariant(square);
        let s = square.index();
        assert forall|t: int| #[trigger] bit(push, t) == pawn_push_reach(side, s, t) by {
            assert(bit(push, t) == offset_by(s, t, 0, forward(side)));
        }
        lemma_is_word_of(push, |t: int| pawn_push_reach(side, s, t));
    }
    push
}

/// The square to which a pawn of `side` on file `file` advances two ranks
/// from its home rank.
pub fn pawn_double_push_from(side: Side, file: u8) -> (push: Bitboard)
    requires
        file < 8,
    ensures
        push == pawn_double_push_spec(side, file as int),
        forall|t: int| #[trigger] bit(push, t) == pawn_double_push_reach(side, file as int, t),
{
    let start: Square = match side {
        Side::White => Square::new(8 + file),
        Side::Black => Square::new(48 + file),
    };
    let position_mask: u64 = start.get_mask();
    let push: u64 = match side {
        Side::White => shift(position_mask, NORTH * 2),
        Side::Black => shift(position_mask, SOUTH * 2),
    };
    proof {
        lemma_is_word_of(push, |t: int| pawn_double_push_reach(side, file as int, t));
    }
    push
}

/// The knight attacks from each square.
pub fn generate_knight_attacks() -> (all_attacks: [Bitboard; 64])
    ensures
        forall|s: int| 0 <= s < 64 ==> #[trigger] all_attacks[s] == knight_attacks_spec(s),
{
    let mut all_attacks: [Bitboard; 64] = [0u64; 64];
    let mut i: usize = 0;
    while i < 64
        invariant
            0 <= i <= 64,
            forall|s: int| 0 <= s < i ==> #[trigger] all_attacks[s] == knight_attacks_spec(s),
        decreases 64 - i,
    {
        all_attacks[i] = knight_attacks_from(Square::new(i as u8));
        i += 1;
    }
    all_attacks
}

/// The king attacks from each square.
pub fn generate_king_attacks() -> (all_attacks: [Bitboard; 64])
    ensures
        forall|s: int| 0 <= s < 64 ==> #[trigger] all_attacks[s] == king_attacks_spec(s),
{
    let mut all_attacks: [Bitboard; 64] = [0u64; 64];
    let mut i: usize = 0;
    while i < 64
        invariant
            0 <= i <= 64,
            forall|s: int| 0 <= s < i ==> #[trigger] all_attacks[s] == king_attacks_spec(s),
        decreases 64 - i,
    {
        all_attacks[i] = king_attacks_from(Square::new(i as u8));
        i += 1;
    }
    all_attacks
}

/// The pawn attacks from each square: white's, then black's.
pub fn generate_pawn_attacks() -> (all_attacks: ([Bitboard; 64], [Bitboard; 64]))
    ensures
        forall|s: int|
            0 <= s < 64 ==> #[trigger] all_attacks.0[s] == pawn_attacks_spec(Side::White, s),
        forall|s: int|
            0 <= s < 64 ==> #[trigger] all_attacks.1[s] == pawn_attacks_spec(Side::Black, s),
{
    let mut all_white_attacks: [Bitboard; 64] = [0u64; 64];
    let mut all_black_attacks: [Bitboard; 64] = [0u64; 64];
    let mut i: usize = 0;
    while i < 64
        invariant
            0 <= i <= 64,
            forall|s: int|
                0 <= s < i ==> #[trigger] all_white_attacks[s] == pawn_attacks_spec(Side::White, s),
            forall|s: int|
                0 <= s < i ==> #[trigger] all_black_attacks[s] == pawn_attacks_spec(Side::Black, s),
        decreases 64 - i,
    {
        all_white_attacks[i] = pawn_attacks_from(Side::White, Square::new(i as u8));
        all_black_attacks[i] = pawn_attacks_from(Side::Black, Square::new(i as u8));
        i += 1;
    }
    (all_white_attacks, all_black_attacks)
}

/// The single pawn steps from each square: white's, then black's.
pub fn generate_pawn_single_pushes() -> (all_pushes: ([Bitboard; 64], [Bitboard; 64]))
    ensures
        forall|s: int| 0 <= s < 64 ==> #[trigger] all_pushes.0[s] == pawn_push_spec(Side::White, s),
        forall|s: int| 0 <= s < 64 ==> #[trigger] all_pushes.1[s] == pawn_push_spec(Side::Black, s),
{
    let mut all_white_pushes: [Bitboard; 64] = [0u64; 64];
    let mut all_black_pushes: [Bitboard; 64] = [0u64; 64];
    let mut i: usize = 0;
    while i < 64
        invariant
            0 <= i <= 64,
            forall|s: int|
                0 <= s < i ==> #[trigger] all_white_pushes[s] == pawn_push_spec(Side::White, s),
            forall|s: int|
                0 <= s < i ==> #[trigger] all_black_pushes[s] == pawn_push_spec(Side::Black, s),
        decreases 64 - i,
    {
        all_white_pushes[i] = pawn_push_from(Side::White, Square::new(i as u8));
        all_black_pushes[i] = pawn_push_from(Side::Black, Square::new(i as u8));
        i += 1;
    }
    (all_white_pushes, all_black_pushes)
}

/// The double pawn steps by file: white's, then black's.
pub fn generate_pawn_double_pushes() -> (all_pushes: ([Bitboard; 8], [Bitboard; 8]))
    ensures
        forall|f: int|
            0 <= f < 8 ==> #[trigger] all_pushes.0[f] == pawn_double_push_spec(Side::White, f),
        forall|f: int|
            0 <= f < 8 ==> #[trigger] all_pushes.1[f] == pawn_double_push_spec(Side::Black, f),
{
    let mut all_white_pushes: [Bitboard; 8] = [0u64; 8];
    let mut all_black_pushes: [Bitboard; 8] = [0u64; 8];
    let mut i: usize = 0;
    while i < 8
        invariant
            0 <= i <= 8,
            forall|f: int|
                0 <= f < i ==> #[trigger] all_white_pushes[f] == pawn_double_push_spec(
                    Side::White,
                    f,
                ),
            forall|f: int|
                0 <= f < i ==> #[trigger] all_black_pushes[f] == pawn_double_push_spec(
                    Side::Black,
                    f,
                ),
        decreases 8 - i,
    {
        all_white_pushes[i] = pawn_double_push_from(Side::White, i as u8);
        all_black_pushes[i] = pawn_double_push_from(Side::Black, i as u8);
        i += 1;
    }
    (all_white_pushes, all_black_pushes)
}

} // verus!
