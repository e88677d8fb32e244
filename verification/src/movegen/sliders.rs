//! Where rooks and bishops reach on a board with pieces in the way.
//!
//! A sliding piece walks each of its rays one square at a time. Every
//! square it visits is reached; the walk along a ray ends with the first
//! occupied square, which is reached too, or with the edge of the board.

use vstd::prelude::*;
use crate::bits::{
    bit, lemma_bit_and, lemma_bit_or, lemma_bit_test, lemma_bit_zero, lemma_is_word_of,
    lemma_word_of, word_of,
};
use crate::gamestate::board::{Bitboard, Square, file_of, on_board, rank_of, square_at};
use crate::movegen::tables::AttackTables;

verus! {

/// `k` steps in direction `d`, where `d` is `-1`, `0` or `1`.
pub open spec fn times(d: int, k: int) -> int {
    if d == 1 {
        k
    } else if d == -1 {
        -k
    } else {
        0
    }
}

/// Whether `(df, dr)` is one of the eight directions of the board.
pub open spec fn is_direction(df: int, dr: int) -> bool {
    -1 <= df <= 1 && -1 <= dr <= 1 && !(df == 0 && dr == 0)
}

/// The number of steps in direction `(df, dr)` that lead from `s` to `t`,
/// where `t` lies in that direction from `s`.
#[verifier::opaque]
pub open spec fn ray_distance(s: int, t: int, df: int, dr: int) -> int {
    if df != 0 {
        times(df, file_of(t) - file_of(s))
    } else {
        times(dr, rank_of(t) - rank_of(s))
    }
}

/// Whether `k` steps in direction `(df, dr)` from `s` stay on the board.
pub open spec fn ray_step_on_board(s: int, df: int, dr: int, k: int) -> bool {
    on_board(file_of(s) + times(df, k), rank_of(s) + times(dr, k))
}

/// The square `j` steps in direction `(df, dr)` from `s`.
pub open spec fn ray_square(s: int, df: int, dr: int, j: int) -> int {
    square_at(file_of(s) + times(df, j), rank_of(s) + times(dr, j))
}

/// Whether `t` lies on the ray that leaves `s` in direction `(df, dr)`.
#[verifier::opaque]
pub open spec fn on_ray(s: int, t: int, df: int, dr: int) -> bool {
    let k = ray_distance(s, t, df, dr);
    &&& 0 <= s < 64
    &&& 0 <= t < 64
    &&& k >= 1
    &&& file_of(t) == file_of(s) + times(df, k)
    &&& rank_of(t) == rank_of(s) + times(dr, k)
}

/// A square of the ray is the square a number of steps away, and those
/// steps stay on the board.
pub proof fn lemma_on_ray(s: int, t: int, df: int, dr: int)
    requires
        is_direction(df, dr),
        on_ray(s, t, df, dr),
    ensures
        0 <= s < 64,
        0 <= t < 64,
        1 <= ray_distance(s, t, df, dr) <= 7,
        ray_step_on_board(s, df, dr, ray_distance(s, t, df, dr)),
        t == ray_square(s, df, dr, ray_distance(s, t, df, dr)),
{
    reveal(on_ray);
    reveal(ray_distance);
}

/// A number of steps that stay on the board lead to a square of the ray, at
/// that distance.
pub proof fn lemma_ray_point(s: int, df: int, dr: int, k: int)
    requires
        0 <= s < 64,
        is_direction(df, dr),
        k >= 1,
        ray_step_on_board(s, df, dr, k),
    ensures
        k <= 7,
        0 <= ray_square(s, df, dr, k) < 64,
        on_ray(s, ray_square(s, df, dr, k), df, dr),
        ray_distance(s, ray_square(s, df, dr, k), df, dr) == k,
        forall|j: int| 1 <= j <= k ==> ray_step_on_board(s, df, dr, j),
{
    reveal(on_ray);
    reveal(ray_distance);
    let t = ray_square(s, df, dr, k);
    let f = file_of(s) + times(df, k);
    let r = rank_of(s) + times(dr, k);
    assert(t == r * 8 + f);
    assert(file_of(t) == f);
    assert(rank_of(t) == r);
}

/// Whether a piece that slides from `s` in direction `(df, dr)` reaches `t`:
/// `t` lies on the ray and no square strictly between `s` and `t` is occupied.
pub open spec fn slides(occupancy: u64, s: int, t: int, df: int, dr: int) -> bool {
    on_ray(s, t, df, dr) && forall|j: int|
        1 <= j < ray_distance(s, t, df, dr) ==> !bit(occupancy, #[trigger] ray_square(s, df, dr, j))
}

/// Whether a rook on `s` reaches `t`.
pub open spec fn rook_reach(occupancy: u64, s: int, t: int) -> bool {
    slides(occupancy, s, t, 0, 1) || slides(occupancy, s, t, 0, -1) || slides(
        occupancy,
        s,
        t,
        1,
        0,
    ) || slides(occupancy, s, t, -1, 0)
}

/// Whether a bishop on `s` reaches `t`.
pub open spec fn bishop_reach(occupancy: u64, s: int, t: int) -> bool {
    slides(occupancy, s, t, 1, 1) || slides(occupancy, s, t, -1, 1) || slides(
        occupancy,
        s,
        t,
        1,
        -1,
    ) || slides(occupancy, s, t, -1, -1)
}

/// Whether a queen on `s` reaches `t`.
pub open spec fn queen_reach(occupancy: u64, s: int, t: int) -> bool {
    rook_reach(occupancy, s, t) || bishop_reach(occupancy, s, t)
}

/// The squares that a rook on `s` reaches.
pub open spec fn rook_attacks_spec(occupancy: u64, s: int) -> u64 {
    word_of(|t: int| rook_reach(occupancy, s, t))
}

/// The squares that a bishop on `s` reaches.
pub open spec fn bishop_attacks_spec(occupancy: u64, s: int) -> u64 {
    word_of(|t: int| bishop_reach(occupancy, s, t))
}

/// The squares that a queen on `s` reaches: those of a rook and those of a
/// bishop.
pub open spec fn queen_attacks_spec(occupancy: u64, s: int) -> u64 {
    rook_attacks_spec(occupancy, s) | bishop_attacks_spec(occupancy, s)
}

/// The members of the attack sets are the squares that the pieces reach.
pub proof fn lemma_slider_attack_sets(occupancy: u64, s: int)
    ensures
        forall|t: int| #[trigger] bit(rook_attacks_spec(occupancy, s), t) == rook_reach(occupancy, s, t),
        forall|t: int| #[trigger]
            bit(bishop_attacks_spec(occupancy, s), t) == bishop_reach(occupancy, s, t),
        forall|t: int| #[trigger]
            bit(queen_attacks_spec(occupancy, s), t) == queen_reach(occupancy, s, t),
{
    lemma_word_of(|t: int| rook_reach(occupancy, s, t));
    lemma_word_of(|t: int| bishop_reach(occupancy, s, t));
    lemma_bit_or(rook_attacks_spec(occupancy, s), bishop_attacks_spec(occupancy, s));
    assert forall|t: int| rook_reach(occupancy, s, t) implies 0 <= t < 64 by {
        reveal(on_ray);
    }
    assert forall|t: int| bishop_reach(occupancy, s, t) implies 0 <= t < 64 by {
        reveal(on_ray);
    }
}

/// The squares reached by sliding from `square` in direction `(df, dr)`.
pub fn ray_attacks(square: Square, df: i8, dr: i8, occupancy: Bitboard) -> (attack: Bitboard)
    requires
        is_direction(df as int, dr as int),
    ensures
        forall|t: int| #[trigger]
            bit(attack, t) == slides(occupancy, square.index(), t, df as int, dr as int),
{
    let (file, rank) = square.get_file_rank();
    let ghost s = square.index();
    let ghost x = df as int;
    let ghost y = dr as int;
    let mut f: i8 = file as i8 + df;
    let mut r: i8 = rank as i8 + dr;
    let mut attack: u64 = 0;
    let mut blocked: bool = false;
    let ghost mut k: int = 1;
    proof {
        use_type_invariant(square);
        lemma_bit_zero();
        assert forall|t: int| !(on_ray(s, t, x, y) && ray_distance(s, t, x, y) < 1) by {
            if on_ray(s, t, x, y) {
                lemma_on_ray(s, t, x, y);
            }
        }
    }
    while !blocked && 0 <= f && f < 8 && 0 <= r && r < 8
        invariant
            is_direction(x, y),
            x == df,
            y == dr,
            0 <= s < 64,
            file == file_of(s),
            rank == rank_of(s),
            1 <= k <= 8,
            f == file + times(x, k),
            r == rank + times(y, k),
            !blocked ==> forall|j: int|
                1 <= j < k ==> !bit(occupancy, #[trigger] ray_square(s, x, y, j)),
            !blocked ==> forall|t: int| #[trigger]
                bit(attack, t) == (on_ray(s, t, x, y) && ray_distance(s, t, x, y) < k),
            blocked ==> forall|t: int| #[trigger] bit(attack, t) == slides(occupancy, s, t, x, y),
        decreases
                (if blocked {
                    0int
                } else {
                    9 - k
                }),
    {
        let here: Square = Square::new((r * 8 + f) as u8);
        let bb: u64 = here.get_mask();
        let ghost before = attack;
        attack = attack | bb;
        proof {
            lemma_bit_or(before, bb);
            lemma_bit_test(occupancy, here.index());
            assert(ray_step_on_board(s, x, y, k));
            assert(here.index() == ray_square(s, x, y, k));
            lemma_ray_point(s, x, y, k);
        }
        if occupancy & bb != 0 {
            blocked = true;
            proof {
                assert forall|t: int| #[trigger] bit(attack, t) == slides(occupancy, s, t, x, y) by {
                    if on_ray(s, t, x, y) {
                        lemma_on_ray(s, t, x, y);
                        let d = ray_distance(s, t, x, y);
                        if d > k {
                            assert(bit(occupancy, ray_square(s, x, y, k)));
                        }
                    }
                }
            }
        } else {
            f = f + df;
            r = r + dr;
            proof {
                assert forall|t: int| #[trigger]
                    bit(attack, t) == (on_ray(s, t, x, y) && ray_distance(s, t, x, y) < k + 1) by {
                    if on_ray(s, t, x, y) {
                        lemma_on_ray(s, t, x, y);
                    }
                }
                k = k + 1;
            }
        }
    }
    proof {
        if !blocked {
            assert forall|t: int| #[trigger] bit(attack, t) == slides(occupancy, s, t, x, y) by {
                if on_ray(s, t, x, y) {
                    lemma_on_ray(s, t, x, y);
                    let d = ray_distance(s, t, x, y);
                    if d >= k {
                        lemma_ray_point(s, x, y, d);
                        assert(ray_step_on_board(s, x, y, k));
                    }
                }
            }
        }
    }
    attack
}

/// Where a rook on `square` reaches: along its file and its rank, up to and
/// including the first occupied square each way.
pub fn calculate_rook_attacks(square: Square, occupancy: Bitboard) -> (attack: Bitboard)
    ensures
        attack == rook_attacks_spec(occupancy, square.index()),
        forall|t: int| #[trigger] bit(attack, t) == rook_reach(occupancy, square.index(), t),
{
    let north: u64 = ray_attacks(square, 0, 1, occupancy);
    let south: u64 = ray_attacks(square, 0, -1, occupancy);
    let east: u64 = ray_attacks(square, 1, 0, occupancy);
    let west: u64 = ray_attacks(square, -1, 0, occupancy);
    proof {
        lemma_bit_or(north, south);
        lemma_bit_or(north | south, east);
        lemma_bit_or(north | south | east, west);
        lemma_is_word_of(
            north | south | east | west,
            |t: int| rook_reach(occupancy, square.index(), t),
        );
    }
    north | south | east | west
}

/// Where a bishop on `square` reaches: along its diagonals, up to and
/// including the first occupied square each way.
pub fn calculate_bishop_attacks(square: Square, occupancy: Bitboard) -> (attack: Bitboard)
    ensures
        attack == bishop_attacks_spec(occupancy, square.index()),
        forall|t: int| #[trigger] bit(attack, t) == bishop_reach(occupancy, square.index(), t),
{
    let north_east: u64 = ray_attacks(square, 1, 1, occupancy);
    let north_west: u64 = ray_attacks(square, -1, 1, occupancy);
    let south_east: u64 = ray_attacks(square, 1, -1, occupancy);
    let south_west: u64 = ray_attacks(square, -1, -1, occupancy);
    proof {
        lemma_bit_or(north_east, north_west);
        lemma_bit_or(north_east | north_west, south_east);
        lemma_bit_or(north_east | north_west | south_east, south_west);
        lemma_is_word_of(
            north_east | north_west | south_east | south_west,
            |t: int| bishop_reach(occupancy, square.index(), t),
        );
    }
    north_east | north_west | south_east | south_west
}


/// Whether `u` lies on the ray from `s` in direction `(df, dr)` and is not
/// the last square of that ray: the square after `u` is still on the board.
/// Only such squares can stand between `s` and a square of the ray.
pub open spec fn relevant(s: int, u: int, df: int, dr: int) -> bool {
    on_ray(s, u, df, dr) && ray_step_on_board(s, df, dr, ray_distance(s, u, df, dr) + 1)
}

/// The squares whose occupancy decides where a rook on `s` reaches.
pub open spec fn rook_relevant(s: int, u: int) -> bool {
    relevant(s, u, 0, 1) || relevant(s, u, 0, -1) || relevant(s, u, 1, 0) || relevant(s, u, -1, 0)
}

/// The squares whose occupancy decides where a bishop on `s` reaches.
pub open spec fn bishop_relevant(s: int, u: int) -> bool {
    relevant(s, u, 1, 1) || relevant(s, u, -1, 1) || relevant(s, u, 1, -1) || relevant(
        s,
        u,
        -1,
        -1,
    )
}

/// Pieces on squares that are not relevant do not change where a slide
/// along one ray ends.
pub proof fn lemma_slides_relevant(occupancy: u64, mask: u64, s: int, t: int, df: int, dr: int)
    requires
        is_direction(df, dr),
        forall|u: int| relevant(s, u, df, dr) ==> bit(mask, u),
    ensures
        slides(occupancy & mask, s, t, df, dr) == slides(occupancy, s, t, df, dr),
{
    lemma_bit_and(occupancy, mask);
    if on_ray(s, t, df, dr) {
        lemma_on_ray(s, t, df, dr);
        let d = ray_distance(s, t, df, dr);
        lemma_ray_point(s, df, dr, d);
        assert forall|j: int| 1 <= j < d implies bit(
            occupancy & mask,
            #[trigger] ray_square(s, df, dr, j),
        ) == bit(occupancy, ray_square(s, df, dr, j)) by {
            let u = ray_square(s, df, dr, j);
            assert(ray_step_on_board(s, df, dr, j));
            assert(ray_step_on_board(s, df, dr, j + 1));
            lemma_ray_point(s, df, dr, j);
            assert(relevant(s, u, df, dr));
        }
    }
}

/// Pieces on squares that are not relevant do not change where a rook
/// reaches.
pub proof fn lemma_rook_relevant(occupancy: u64, mask: u64, s: int, t: int)
    requires
        forall|u: int| rook_relevant(s, u) ==> bit(mask, u),
    ensures
        rook_reach(occupancy & mask, s, t) == rook_reach(occupancy, s, t),
{
    lemma_slides_relevant(occupancy, mask, s, t, 0, 1);
    lemma_slides_relevant(occupancy, mask, s, t, 0, -1);
    lemma_slides_relevant(occupancy, mask, s, t, 1, 0);
    lemma_slides_relevant(occupancy, mask, s, t, -1, 0);
}

/// Pieces on squares that are not relevant do not change where a bishop
/// reaches.
pub proof fn lemma_bishop_relevant(occupancy: u64, mask: u64, s: int, t: int)
    requires
        forall|u: int| bishop_relevant(s, u) ==> bit(mask, u),
    ensures
        bishop_reach(occupancy & mask, s, t) == bishop_reach(occupancy, s, t),
{
    lemma_slides_relevant(occupancy, mask, s, t, 1, 1);
    lemma_slides_relevant(occupancy, mask, s, t, -1, 1);
    lemma_slides_relevant(occupancy, mask, s, t, 1, -1);
    lemma_slides_relevant(occupancy, mask, s, t, -1, -1);
}

/// The squares of the ray from `square` in direction `(df, dr)`, but for the
/// last one.
pub fn ray_mask(square: Square, df: i8, dr: i8) -> (mask: Bitboard)
    requires
        is_direction(df as int, dr as int),
    ensures
        forall|u: int| #[trigger] bit(mask, u) == relevant(square.index(), u, df as int, dr as int),
{
    let (file, rank) = square.get_file_rank();
    let ghost s = square.index();
    let ghost x = df as int;
    let ghost y = dr as int;
    let mut f: i8 = file as i8 + df;
    let mut r: i8 = rank as i8 + dr;
    let mut mask: u64 = 0;
    let ghost mut k: int = 1;
    proof {
        use_type_invariant(square);
        lemma_bit_zero();
        assert forall|u: int| !(relevant(s, u, x, y) && ray_distance(s, u, x, y) < 1) by {
            if on_ray(s, u, x, y) {
                lemma_on_ray(s, u, x, y);
            }
        }
    }
    while 0 <= f + df && f + df < 8 && 0 <= r + dr && r + dr < 8
        invariant
            is_direction(x, y),
            x == df,
            y == dr,
            0 <= s < 64,
            file == file_of(s),
            rank == rank_of(s),
            1 <= k <= 8,
            f == file + times(x, k),
            r == rank + times(y, k),
            -1 <= f <= 8,
            -1 <= r <= 8,
            forall|u: int| #[trigger]
                bit(mask, u) == (relevant(s, u, x, y) && ray_distance(s, u, x, y) < k),
        decreases 9 - k,
    {
        proof {
            assert(ray_step_on_board(s, x, y, k + 1));
            lemma_ray_point(s, x, y, k + 1);
            assert(ray_step_on_board(s, x, y, k));
            lemma_ray_point(s, x, y, k);
        }
        let here: Square = Square::new((r * 8 + f) as u8);
        let bb: u64 = here.get_mask();
        let ghost before = mask;
        mask = mask | bb;
        proof {
            lemma_bit_or(before, bb);
            assert(here.index() == ray_square(s, x, y, k));
            assert forall|u: int| #[trigger]
                bit(mask, u) == (relevant(s, u, x, y) && ray_distance(s, u, x, y) < k + 1) by {
                if on_ray(s, u, x, y) {
                    lemma_on_ray(s, u, x, y);
                }
            }
        }
        f = f + df;
        r = r + dr;
        proof {
            k = k + 1;
        }
    }
    proof {
        assert forall|u: int| #[trigger] bit(mask, u) == relevant(s, u, x, y) by {
            if relevant(s, u, x, y) {
                lemma_on_ray(s, u, x, y);
                let d = ray_distance(s, u, x, y);
                if d >= k {
                    lemma_ray_point(s, x, y, d + 1);
                    assert(ray_step_on_board(s, x, y, k + 1));
                }
            }
        }
    }
    mask
}

/// The relevant squares of a rook on `square`.
pub fn rook_mask_from(square: Square) -> (mask: Bitboard)
    ensures
        forall|u: int| #[trigger] bit(mask, u) == rook_relevant(square.index(), u),
{
    let north: u64 = ray_mask(square, 0, 1);
    let south: u64 = ray_mask(square, 0, -1);
    let east: u64 = ray_mask(square, 1, 0);
    let west: u64 = ray_mask(square, -1, 0);
    proof {
        lemma_bit_or(north, south);
        lemma_bit_or(north | south, east);
        lemma_bit_or(north | south | east, west);
    }
    north | south | east | west
}

/// The relevant squares of a bishop on `square`.
pub fn bishop_mask_from(square: Square) -> (mask: Bitboard)
    ensures
        forall|u: int| #[trigger] bit(mask, u) == bishop_relevant(square.index(), u),
{
    let north_east: u64 = ray_mask(square, 1, 1);
    let north_west: u64 = ray_mask(square, -1, 1);
    let south_east: u64 = ray_mask(square, 1, -1);
    let south_west: u64 = ray_mask(square, -1, -1);
    proof {
        lemma_bit_or(north_east, north_west);
        lemma_bit_or(north_east | north_west, south_east);
        lemma_bit_or(north_east | north_west | south_east, south_west);
    }
    north_east | north_west | south_east | south_west
}

/// The relevant squares of a rook on each square.
pub fn generate_rook_masks() -> (masks: [Bitboard; 64])
    ensures
        forall|s: int, u: int| 0 <= s < 64 ==> #[trigger] bit(masks[s], u) == rook_relevant(s, u),
{
    let mut masks: [Bitboard; 64] = [0u64; 64];
    let mut i: usize = 0;
    while i < 64
        invariant
            0 <= i <= 64,
            forall|s: int, u: int|
                0 <= s < i ==> #[trigger] bit(masks[s], u) == rook_relevant(s, u),
        decreases 64 - i,
    {
        masks[i] = rook_mask_from(Square::new(i as u8));
        i += 1;
    }
    masks
}

/// The relevant squares of a bishop on each square.
pub fn generate_bishop_masks() -> (masks: [Bitboard; 64])
    ensures
        forall|s: int, u: int|
            0 <= s < 64 ==> #[trigger] bit(masks[s], u) == bishop_relevant(s, u),
{
    let mut masks: [Bitboard; 64] = [0u64; 64];
    let mut i: usize = 0;
    while i < 64
        invariant
            0 <= i <= 64,
            forall|s: int, u: int|
                0 <= s < i ==> #[trigger] bit(masks[s], u) == bishop_relevant(s, u),
        decreases 64 - i,
    {
        masks[i] = bishop_mask_from(Square::new(i as u8));
        i += 1;
    }
    masks
}


/// Where a rook on `square` reaches, looked up in `tables`: the same squares
/// that `calculate_rook_attacks` finds by walking.
pub fn get_rook_attacks(tables: &AttackTables, square: Square, occupancy: Bitboard) -> (attack:
    Bitboard)
    ensures
        attack == rook_attacks_spec(occupancy, square.index()),
        forall|t: int| #[trigger] bit(attack, t) == rook_reach(occupancy, square.index(), t),
{
    tables.rook_attacks(square, occupancy)
}

/// Where a bishop on `square` reaches, looked up in `tables`: the same
/// squares that `calculate_bishop_attacks` finds by walking.
pub fn get_bishop_attacks(tables: &AttackTables, square: Square, occupancy: Bitboard) -> (attack:
    Bitboard)
    ensures
        attack == bishop_attacks_spec(occupancy, square.index()),
        forall|t: int| #[trigger] bit(attack, t) == bishop_reach(occupancy, square.index(), t),
{
    tables.bishop_attacks(square, occupancy)
}

} // verus!
