use vstd::prelude::*;

verus! {

/// Number of piece kinds of one side.
pub const PIECE_TYPES_NUM: usize = 6;

/// Number of sides.
pub const SIDE_NUM: usize = 2;

/// Number of files, and of ranks.
pub const BOARD_SIDE_LENGTH: usize = 8;

/// Number of squares.
pub const BOARD_NUM_OF_SQUARES: usize = 64;

/// Number of values a packed castling-rights byte can take.
pub const CASTLING_CONFIGURATIONS_NUM: usize = 16;

} // verus!
