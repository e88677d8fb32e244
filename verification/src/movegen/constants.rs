//! Files, ranks and directions of the board, with squares numbered rank by
//! rank from a1 (0) to h8 (63), and the squares that castling involves.

use vstd::prelude::*;
use crate::bits::bit;
use crate::gamestate::board::{Bitboard, file_of, rank_of};

verus! {

/// The squares of the a-file.
pub const A_FILE: Bitboard = 0x0101010101010101;

/// The squares of the b-file.
pub const B_FILE: Bitboard = 0x0202020202020202;

/// The squares of the c-file.
pub const C_FILE: Bitboard = 0x0404040404040404;

/// The squares of the d-file.
pub const D_FILE: Bitboard = 0x0808080808080808;

/// The squares of the e-file.
pub const E_FILE: Bitboard = 0x1010101010101010;

/// The squares of the f-file.
pub const F_FILE: Bitboard = 0x2020202020202020;

/// The squares of the g-file.
pub const G_FILE: Bitboard = 0x4040404040404040;

/// The squares of the h-file.
pub const H_FILE: Bitboard = 0x8080808080808080;

/// The squares of the first rank.
pub const RANK_1: u64 = 0x00000000000000FF;

/// The squares of the second rank.
pub const RANK_2: u64 = 0x000000000000FF00;

/// The squares of the third rank.
pub const RANK_3: u64 = 0x0000000000FF0000;

/// The squares of the fourth rank.
pub const RANK_4: u64 = 0x00000000FF000000;

/// The squares of the fifth rank.
pub const RANK_5: u64 = 0x000000FF00000000;

/// The squares of the sixth rank.
pub const RANK_6: u64 = 0x0000FF0000000000;

/// The squares of the seventh rank.
pub const RANK_7: u64 = 0x00FF000000000000;

/// The squares of the eighth rank.
pub const RANK_8: u64 = 0xFF00000000000000;

/// The rank from which a pawn promotes with its next step, by side.
pub const CLEAR_7TH_OR_2ND_RANK: [u64; 2] = [RANK_7, RANK_2];

/// The squares outside the a-file. A piece that has moved east cannot stand
/// on the a-file: keeping only these squares drops what wrapped around.
pub const NOT_A_FILE: Bitboard = !A_FILE;

/// The squares outside the b-file.
pub const NOT_B_FILE: Bitboard = !B_FILE;

/// The squares outside the c-file.
pub const NOT_C_FILE: Bitboard = !C_FILE;

/// The squares outside the d-file.
pub const NOT_D_FILE: Bitboard = !D_FILE;

/// The squares outside the e-file.
pub const NOT_E_FILE: Bitboard = !E_FILE;

/// The squares outside the f-file.
pub const NOT_F_FILE: Bitboard = !F_FILE;

/// The squares outside the g-file.
pub const NOT_G_FILE: Bitboard = !G_FILE;

/// The squares outside the h-file.
pub const NOT_H_FILE: Bitboard = !H_FILE;

/// The squares outside the a-file and the b-file.
pub const NOT_AB_FILE: Bitboard = NOT_A_FILE & NOT_B_FILE;

/// The squares outside the g-file and the h-file.
pub const NOT_GH_FILE: Bitboard = NOT_G_FILE & NOT_H_FILE;

/// Knight step: two ranks up, one file east.
pub const NO_NO_EA: i32 = 17;

/// Knight step: one rank up, two files east.
pub const NO_EA_EA: i32 = 10;

/// Knight step: one rank down, two files east.
pub const SO_EA_EA: i32 = -6;

/// Knight step: two ranks down, one file east.
pub const SO_SO_EA: i32 = -15;

/// Knight step: two ranks down, one file west.
pub const SO_SO_WE: i32 = -17;

/// Knight step: one rank down, two files west.
pub const SO_WE_WE: i32 = -10;

/// Knight step: one rank up, two files west.
pub const NO_WE_WE: i32 = 6;

/// Knight step: two ranks up, one file west.
pub const NO_NO_WE: i32 = 15;

/// One rank up.
pub const NORTH: i32 = 8;

/// One rank up, one file east.
pub const NORTHEAST: i32 = 9;

/// One file east.
pub const EAST: i32 = 1;

/// One rank down, one file east.
pub const SOUTHEAST: i32 = -7;

/// One rank down.
pub const SOUTH: i32 = -8;

/// One rank down, one file west.
pub const SOUTHWEST: i32 = -9;

/// One file west.
pub const WEST: i32 = -1;

/// One rank up, one file west.
pub const NORTHWEST: i32 = 7;

/// Where the kings start, by side.
pub const CASTLING_KING_START_INDEX: [u8; 2] = [4, 60];

/// Where the king's-side rooks start, by side.
pub const CASTLING_ROOK_KINGSIDE_START_INDEX: [u8; 2] = [7, 63];

/// Where the queen's-side rooks start, by side.
pub const CASTLING_ROOK_QUEENSIDE_START_INDEX: [u8; 2] = [0, 56];

/// Where the king lands when castling on the king's side, by side.
pub const CASTLING_KING_KINGSIDE_END_INDEX: [u8; 2] = [6, 62];

/// Where the rook lands when castling on the king's side, by side.
pub const CASTLING_ROOK_KINGSIDE_END_INDEX: [u8; 2] = [5, 61];

/// Where the king lands when castling on the queen's side, by side.
pub const CASTLING_KING_QUEENSIDE_END_INDEX: [u8; 2] = [2, 58];

/// Where the rook lands when castling on the queen's side, by side.
pub const CASTLING_ROOK_QUEENSIDE_END_INDEX: [u8; 2] = [3, 59];

/// The squares between king and king's-side rook, by side.
pub const CASTLING_KINGSIDE_OCCUPANCY_MASK: [Bitboard; 2] = [
    (1 << 5 | 1 << 6),
    (1 << 61 | 1 << 62),
];

/// The squares between king and queen's-side rook, by side.
pub const CASTLING_QUEENSIDE_OCCUPANCY_MASK: [Bitboard; 2] = [
    (1 << 1 | 1 << 2 | 1 << 3),
    (1 << 57 | 1 << 58 | 1 << 59),
];

proof fn bv_castling_gaps(t: u64)
    by (bit_vector)
    requires
        t < 64,
    ensures
        (((1u64 << 5 | 1u64 << 6) >> t) & 1 == 1) == (t == 5 || t == 6),
        (((1u64 << 61 | 1u64 << 62) >> t) & 1 == 1) == (t == 61 || t == 62),
        (((1u64 << 1 | 1u64 << 2 | 1u64 << 3) >> t) & 1 == 1) == (t == 1 || t == 2 || t == 3),
        (((1u64 << 57 | 1u64 << 58 | 1u64 << 59) >> t) & 1 == 1) == (t == 57 || t == 58 || t
            == 59),
{
}

/// The castling masks hold the squares between the king and the rook.
pub proof fn lemma_castling_gaps()
    ensures
        forall|t: int| #[trigger]
            bit(CASTLING_KINGSIDE_OCCUPANCY_MASK[0], t) == (t == 5 || t == 6),
        forall|t: int| #[trigger]
            bit(CASTLING_KINGSIDE_OCCUPANCY_MASK[1], t) == (t == 61 || t == 62),
        forall|t: int| #[trigger]
            bit(CASTLING_QUEENSIDE_OCCUPANCY_MASK[0], t) == (t == 1 || t == 2 || t == 3),
        forall|t: int| #[trigger]
            bit(CASTLING_QUEENSIDE_OCCUPANCY_MASK[1], t) == (t == 57 || t == 58 || t == 59),
{
    assert forall|t: int| #[trigger]
        bit(CASTLING_KINGSIDE_OCCUPANCY_MASK[0], t) == (t == 5 || t == 6) by {
        if 0 <= t < 64 {
            bv_castling_gaps(t as u64);
        }
    }
    assert forall|t: int| #[trigger]
        bit(CASTLING_KINGSIDE_OCCUPANCY_MASK[1], t) == (t == 61 || t == 62) by {
        if 0 <= t < 64 {
            bv_castling_gaps(t as u64);
        }
    }
    assert forall|t: int| #[trigger]
        bit(CASTLING_QUEENSIDE_OCCUPANCY_MASK[0], t) == (t == 1 || t == 2 || t == 3) by {
        if 0 <= t < 64 {
            bv_castling_gaps(t as u64);
        }
    }
    assert forall|t: int| #[trigger]
        bit(CASTLING_QUEENSIDE_OCCUPANCY_MASK[1], t) == (t == 57 || t == 58 || t == 59) by {
        if 0 <= t < 64 {
            bv_castling_gaps(t as u64);
        }
    }
}

proof fn bv_files(t: u64)
    by (bit_vector)
    requires
        t < 64,
    ensures
        ((A_FILE >> t) & 1 == 1) == (t % 8 == 0),
        ((B_FILE >> t) & 1 == 1) == (t % 8 == 1),
        ((C_FILE >> t) & 1 == 1) == (t % 8 == 2),
        ((D_FILE >> t) & 1 == 1) == (t % 8 == 3),
        ((E_FILE >> t) & 1 == 1) == (t % 8 == 4),
        ((F_FILE >> t) & 1 == 1) == (t % 8 == 5),
        ((G_FILE >> t) & 1 == 1) == (t % 8 == 6),
        ((H_FILE >> t) & 1 == 1) == (t % 8 == 7),
        ((NOT_A_FILE >> t) & 1 == 1) == (t % 8 != 0),
        ((NOT_H_FILE >> t) & 1 == 1) == (t % 8 != 7),
        ((NOT_AB_FILE >> t) & 1 == 1) == (t % 8 >= 2),
        ((NOT_GH_FILE >> t) & 1 == 1) == (t % 8 <= 5),
{
}

proof fn bv_ranks(t: u64)
    by (bit_vector)
    requires
        t < 64,
    ensures
        ((RANK_1 >> t) & 1 == 1) == (t / 8 == 0),
        ((RANK_2 >> t) & 1 == 1) == (t / 8 == 1),
        ((RANK_3 >> t) & 1 == 1) == (t / 8 == 2),
        ((RANK_4 >> t) & 1 == 1) == (t / 8 == 3),
        ((RANK_5 >> t) & 1 == 1) == (t / 8 == 4),
        ((RANK_6 >> t) & 1 == 1) == (t / 8 == 5),
        ((RANK_7 >> t) & 1 == 1) == (t / 8 == 6),
        ((RANK_8 >> t) & 1 == 1) == (t / 8 == 7),
{
}

/// Each file constant holds the squares of its file; the `NOT_` constants
/// hold the squares outside the files they name.
pub proof fn lemma_file_masks()
    ensures
        forall|t: int| 0 <= t < 64 ==> #[trigger] bit(A_FILE, t) == (file_of(t) == 0),
        forall|t: int| 0 <= t < 64 ==> #[trigger] bit(B_FILE, t) == (file_of(t) == 1),
        forall|t: int| 0 <= t < 64 ==> #[trigger] bit(C_FILE, t) == (file_of(t) == 2),
        forall|t: int| 0 <= t < 64 ==> #[trigger] bit(D_FILE, t) == (file_of(t) == 3),
        forall|t: int| 0 <= t < 64 ==> #[trigger] bit(E_FILE, t) == (file_of(t) == 4),
        forall|t: int| 0 <= t < 64 ==> #[trigger] bit(F_FILE, t) == (file_of(t) == 5),
        forall|t: int| 0 <= t < 64 ==> #[trigger] bit(G_FILE, t) == (file_of(t) == 6),
        forall|t: int| 0 <= t < 64 ==> #[trigger] bit(H_FILE, t) == (file_of(t) == 7),
        forall|t: int| 0 <= t < 64 ==> #[trigger] bit(NOT_A_FILE, t) == (file_of(t) != 0),
        forall|t: int| 0 <= t < 64 ==> #[trigger] bit(NOT_H_FILE, t) == (file_of(t) != 7),
        forall|t: int| 0 <= t < 64 ==> #[trigger] bit(NOT_AB_FILE, t) == (file_of(t) >= 2),
        forall|t: int| 0 <= t < 64 ==> #[trigger] bit(NOT_GH_FILE, t) == (file_of(t) <= 5),
{
    assert forall|t: int| 0 <= t < 64 implies #[trigger] bit(A_FILE, t) == (file_of(t) == 0) by {
        bv_files(t as u64);
    }
    assert forall|t: int| 0 <= t < 64 implies #[trigger] bit(B_FILE, t) == (file_of(t) == 1) by {
        bv_files(t as u64);
    }
    assert forall|t: int| 0 <= t < 64 implies #[trigger] bit(C_FILE, t) == (file_of(t) == 2) by {
        bv_files(t as u64);
    }
    assert forall|t: int| 0 <= t < 64 implies #[trigger] bit(D_FILE, t) == (file_of(t) == 3) by {
        bv_files(t as u64);
    }
    assert forall|t: int| 0 <= t < 64 implies #[trigger] bit(E_FILE, t) == (file_of(t) == 4) by {
        bv_files(t as u64);
    }
    assert forall|t: int| 0 <= t < 64 implies #[trigger] bit(F_FILE, t) == (file_of(t) == 5) by {
        bv_files(t as u64);
    }
    assert forall|t: int| 0 <= t < 64 implies #[trigger] bit(G_FILE, t) == (file_of(t) == 6) by {
        bv_files(t as u64);
    }
    assert forall|t: int| 0 <= t < 64 implies #[trigger] bit(H_FILE, t) == (file_of(t) == 7) by {
        bv_files(t as u64);
    }
    assert forall|t: int| 0 <= t < 64 implies #[trigger] bit(NOT_A_FILE, t) == (file_of(t) != 0) by {
        bv_files(t as u64);
    }
    assert forall|t: int| 0 <= t < 64 implies #[trigger] bit(NOT_H_FILE, t) == (file_of(t) != 7) by {
        bv_files(t as u64);
    }
    assert forall|t: int| 0 <= t < 64 implies #[trigger] bit(NOT_AB_FILE, t) == (file_of(t) >= 2) by {
        bv_files(t as u64);
    }
    assert forall|t: int| 0 <= t < 64 implies #[trigger] bit(NOT_GH_FILE, t) == (file_of(t) <= 5) by {
        bv_files(t as u64);
    }
}

/// Each rank constant holds the squares of its rank.
pub proof fn lemma_rank_masks()
    ensures
        forall|t: int| 0 <= t < 64 ==> #[trigger] bit(RANK_1, t) == (rank_of(t) == 0),
        forall|t: int| 0 <= t < 64 ==> #[trigger] bit(RANK_2, t) == (rank_of(t) == 1),
        forall|t: int| 0 <= t < 64 ==> #[trigger] bit(RANK_3, t) == (rank_of(t) == 2),
        forall|t: int| 0 <= t < 64 ==> #[trigger] bit(RANK_4, t) == (rank_of(t) == 3),
        forall|t: int| 0 <= t < 64 ==> #[trigger] bit(RANK_5, t) == (rank_of(t) == 4),
        forall|t: int| 0 <= t < 64 ==> #[trigger] bit(RANK_6, t) == (rank_of(t) == 5),
        forall|t: int| 0 <= t < 64 ==> #[trigger] bit(RANK_7, t) == (rank_of(t) == 6),
        forall|t: int| 0 <= t < 64 ==> #[trigger] bit(RANK_8, t) == (rank_of(t) == 7),
{
    assert forall|t: int| 0 <= t < 64 implies #[trigger] bit(RANK_1, t) == (rank_of(t) == 0) by {
        bv_ranks(t as u64);
    }
    assert forall|t: int| 0 <= t < 64 implies #[trigger] bit(RANK_2, t) == (rank_of(t) == 1) by {
        bv_ranks(t as u64);
    }
    assert forall|t: int| 0 <= t < 64 implies #[trigger] bit(RANK_3, t) == (rank_of(t) == 2) by {
        bv_ranks(t as u64);
    }
    assert forall|t: int| 0 <= t < 64 implies #[trigger] bit(RANK_4, t) == (rank_of(t) == 3) by {
        bv_ranks(t as u64);
    }
    assert forall|t: int| 0 <= t < 64 implies #[trigger] bit(RANK_5, t) == (rank_of(t) == 4) by {
        bv_ranks(t as u64);
    }
    assert forall|t: int| 0 <= t < 64 implies #[trigger] bit(RANK_6, t) == (rank_of(t) == 5) by {
        bv_ranks(t as u64);
    }
    assert forall|t: int| 0 <= t < 64 implies #[trigger] bit(RANK_7, t) == (rank_of(t) == 6) by {
        bv_ranks(t as u64);
    }
    assert forall|t: int| 0 <= t < 64 implies #[trigger] bit(RANK_8, t) == (rank_of(t) == 7) by {
        bv_ranks(t as u64);
    }
}

} // verus!
