//! The positional core of a chess engine.
//!
//! - [`bits`]: 64-bit words read as sets of positions, and the lemmas that
//!   say what each machine operation does to such a set.
//! - [`gamestate`]: squares, the board, castling rights, packed moves, the
//!   position, what a move does to it, and the hash of a position with its
//!   incremental update.
//! - [`movegen`]: attack tables, sliding attacks by walking and by lookup,
//!   and the generation of pseudo-legal moves.
//! - [`utils`]: reading a position from text.
//!
//! Nothing here is global: the attack tables and the hash keys are values
//! that are built once and handed to what needs them.

pub mod bits;
pub mod gamestate;
pub mod movegen;
pub mod utils;
