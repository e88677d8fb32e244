//! Reading positions from text.

pub mod fen;
