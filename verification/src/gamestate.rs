//! A position: the board, the side to move, the castling rights, the
//! en-passant file, the clocks and the hash of the position.

pub mod board;
pub mod castling_rights;
pub mod chess_move;
pub mod constants;
pub mod history;
pub mod zobrist;

use vstd::prelude::*;
use crate::bits::{bit, lemma_bit_test, lemma_bit_zero};
use crate::gamestate::board::{
    Board, PieceType, Side, Square, file_of, lemma_occupant, lemma_occupant_bit, lemma_with_piece,
    lemma_with_piece_valid, lemma_without_piece, lemma_without_piece_valid, occupant, occupied,
    spec_piece_index, valid_pieces, with_piece, without_piece,
};
use crate::gamestate::castling_rights::{CastlingRights, CastlingSide};
use crate::gamestate::chess_move::{Move, MoveFlags};
use crate::gamestate::zobrist::{
    Zobrist, ZobristKeys, incremental_hash, lemma_incremental_hash, spec_hash,
};
use crate::movegen::constants::{
    CASTLING_KING_START_INDEX, CASTLING_ROOK_KINGSIDE_END_INDEX, CASTLING_ROOK_KINGSIDE_START_INDEX,
    CASTLING_ROOK_QUEENSIDE_END_INDEX, CASTLING_ROOK_QUEENSIDE_START_INDEX,
};

verus! {

/// A position.
///
/// `en_passant` is zero when no pawn can be taken en passant; otherwise its
/// lowest set bit is the file of the pawn that has just advanced two ranks
/// (bit 0 for the a-file).
#[derive(Debug, Clone, Copy, PartialEq)]
pub struct Gamestate {
    pub board: Board,
    pub side_to_move: Side,
    pub castling_rights: CastlingRights,
    pub en_passant: u8,
    pub half_move_clock: u8,
    pub full_move_count: u8,
    pub zobrist_key: u64,
}

impl Gamestate {
    /// The position with the given parts.
    pub fn new(
        board: Board,
        side_to_move: Side,
        castling_rights: CastlingRights,
        en_passant: u8,
        half_move_clock: u8,
        full_move_count: u8,
        zobrist_key: u64,
    ) -> (game: Gamestate)
        ensures
            game == (Gamestate {
                board,
                side_to_move,
                castling_rights,
                en_passant,
                half_move_clock,
                full_move_count,
                zobrist_key,
            }),
    {
        Gamestate {
            board,
            side_to_move,
            castling_rights,
            en_passant,
            half_move_clock,
            full_move_count,
            zobrist_key,
        }
    }
}

/// Why a move cannot be applied to a position.
#[derive(Debug, Clone, Copy, PartialEq, Eq, Structural)]
pub enum MoveError {
    /// A piece that the move needs is missing: no piece of the side to move
    /// stands on the origin square, or it is not of the kind that makes such
    /// a move, or the rook to castle with is not on its square.
    MissingPiece,
    /// The move takes a piece, and no piece of the other side stands where
    /// it is taken.
    MissingCapture,
    /// A square on which the move puts a piece is occupied.
    Blocked,
}

/// What a move does to a position.
#[derive(Debug, Clone, Copy, PartialEq, Eq)]
pub struct MoveEffect {
    /// The side that moves.
    pub side: Side,
    /// The kind of the piece that leaves the origin square.
    pub mover: PieceType,
    /// The kind of the piece that arrives on the destination square.
    pub placed: PieceType,
    /// The origin square.
    pub from: u8,
    /// The destination square.
    pub to: u8,
    /// The kind of the piece of the other side that is taken, and its
    /// square.
    pub captured: Option<(PieceType, u8)>,
    /// When castling, the squares that the rook leaves and reaches.
    pub rook: Option<(u8, u8)>,
    /// The castling rights after the move.
    pub rights: CastlingRights,
    /// The en-passant value after the move.
    pub en_passant: u8,
}

/// The square on which the rook of `side` starts that castles on the king's
/// side (`kingside`) or the queen's side.
pub open spec fn castling_rook_start(side: Side, kingside: bool) -> int {
    match side {
        Side::White => if kingside {
            7
        } else {
            0
        },
        Side::Black => if kingside {
            63
        } else {
            56
        },
    }
}

/// The square that this rook reaches.
pub open spec fn castling_rook_end(side: Side, kingside: bool) -> int {
    match side {
        Side::White => if kingside {
            5
        } else {
            3
        },
        Side::Black => if kingside {
            61
        } else {
            59
        },
    }
}

/// The square of the pawn that a pawn of `side` takes en passant when it
/// lands on `to`: the square behind `to`.
pub open spec fn en_passant_victim(side: Side, to: int) -> int {
    match side {
        Side::White => to - 8,
        Side::Black => to + 8,
    }
}

/// The rights that are left when a piece leaves or reaches `square`: on the
/// starting square of a king, the side of that king loses its rights; on
/// the starting square of a rook, its side loses the right of that wing.
pub open spec fn rights_after_touch(rights: CastlingRights, square: int) -> CastlingRights {
    if square == castling_king_start(Side::White) {
        rights.spec_without(Side::White, CastlingSide::Both)
    } else if square == castling_rook_start(Side::White, true) {
        rights.spec_without(Side::White, CastlingSide::Kingside)
    } else if square == castling_rook_start(Side::White, false) {
        rights.spec_without(Side::White, CastlingSide::Queenside)
    } else if square == castling_king_start(Side::Black) {
        rights.spec_without(Side::Black, CastlingSide::Both)
    } else if square == castling_rook_start(Side::Black, true) {
        rights.spec_without(Side::Black, CastlingSide::Kingside)
    } else if square == castling_rook_start(Side::Black, false) {
        rights.spec_without(Side::Black, CastlingSide::Queenside)
    } else {
        rights
    }
}

/// The castling rights after a move of `side` from `from` to `to`: a side
/// that castles loses its rights, and so does whoever has a piece leave, or
/// loses a piece on, a starting square of king or rook.
pub open spec fn rights_after(
    rights: CastlingRights,
    side: Side,
    from: int,
    to: int,
    castles: bool,
) -> CastlingRights {
    let start = if castles {
        rights.spec_without(side, CastlingSide::Both)
    } else {
        rights
    };
    rights_after_touch(rights_after_touch(start, from), to)
}

/// What the move from `from` to `to` of kind `flags` does to the position
/// with piece bitboards `p`, side to move `side` and castling rights
/// `rights`, or why it cannot be applied.
///
/// The piece on `from` must belong to `side`. A move that takes a piece
/// needs a piece of the other side where it takes: on `to`, or, en passant,
/// a pawn behind `to`. Every other move needs `to` empty. Pawn moves (double
/// step, en passant, promotions) need a pawn on `from`; castling needs a
/// king on `from`, the rook of that wing on its starting square and the
/// rook's destination empty and other than `to`.
///
/// After the move the castling rights are `rights_after`, and the
/// en-passant value names the file of a pawn that has made a double step,
/// or is zero.
pub open spec fn effect_on(
    p: Seq<u64>,
    side: Side,
    rights: CastlingRights,
    from: int,
    to: int,
    flags: MoveFlags,
) -> Result<MoveEffect, MoveError> {
    let plain = MoveEffect {
        side,
        mover: PieceType::Pawn,
        placed: PieceType::Pawn,
        from: from as u8,
        to: to as u8,
        captured: None,
        rook: None,
        rights: rights_after(rights, side, from, to, flags.castles()),
        en_passant: 0,
    };
    match occupant(p, from) {
        None => Err(MoveError::MissingPiece),
        Some((pt, owner)) => if owner != side {
            Err(MoveError::MissingPiece)
        } else if flags != MoveFlags::Quiet && flags != MoveFlags::Capture && !flags.castles()
            && pt != PieceType::Pawn {
            Err(MoveError::MissingPiece)
        } else if flags.castles() && pt != PieceType::King {
            Err(MoveError::MissingPiece)
        } else if flags.castles() {
            let kingside = flags == MoveFlags::KingCastle;
            let rook_from = castling_rook_start(side, kingside);
            let rook_to = castling_rook_end(side, kingside);
            if !bit(p[spec_piece_index(PieceType::Rook, side)], rook_from) {
                Err(MoveError::MissingPiece)
            } else if occupied(p, to) || occupied(p, rook_to) || rook_to == to {
                Err(MoveError::Blocked)
            } else {
                Ok(
                    MoveEffect {
                        mover: pt,
                        placed: pt,
                        rook: Some((rook_from as u8, rook_to as u8)),
                        ..plain
                    },
                )
            }
        } else if flags == MoveFlags::EpCapture {
            let victim = en_passant_victim(side, to);
            if occupied(p, to) {
                Err(MoveError::Blocked)
            } else if !bit(p[spec_piece_index(PieceType::Pawn, side.other())], victim) {
                Err(MoveError::MissingCapture)
            } else {
                Ok(
                    MoveEffect {
                        mover: pt,
                        placed: pt,
                        captured: Some((PieceType::Pawn, victim as u8)),
                        ..plain
                    },
                )
            }
        } else {
            let placed = match flags.promotion_piece() {
                Some(promoted) => promoted,
                None => pt,
            };
            if flags.captures() {
                match occupant(p, to) {
                    Some((victim, victim_side)) => if victim_side == side {
                        Err(MoveError::MissingCapture)
                    } else {
                        Ok(
                            MoveEffect {
                                mover: pt,
                                placed,
                                captured: Some((victim, to as u8)),
                                ..plain
                            },
                        )
                    },
                    None => Err(MoveError::MissingCapture),
                }
            } else if occupied(p, to) {
                Err(MoveError::Blocked)
            } else {
                Ok(
                    MoveEffect {
                        mover: pt,
                        placed,
                        en_passant: if flags == MoveFlags::DoublePawnPush {
                            1u8 << (file_of(from) as u8)
                        } else {
                            0u8
                        },
                        ..plain
                    },
                )
            }
        },
    }
}

/// What `mv` does to `game`, or why it cannot be applied.
pub open spec fn effect_of(game: Gamestate, mv: Move) -> Result<MoveEffect, MoveError> {
    effect_on(
        game.board@,
        game.side_to_move,
        game.castling_rights,
        mv.spec_from(),
        mv.spec_to(),
        mv.spec_flags(),
    )
}

/// The twelve piece bitboards after the move with effect `e`: the taken
/// piece leaves its square, the moving piece leaves the origin, the arriving
/// piece stands on the destination, and a castling rook goes to its new
/// square.
pub open spec fn pieces_after(p: Seq<u64>, e: MoveEffect) -> Seq<u64> {
    let taken = match e.captured {
        Some((victim, square)) => without_piece(
            p,
            spec_piece_index(victim, e.side.other()),
            square as int,
        ),
        None => p,
    };
    let lifted = without_piece(taken, spec_piece_index(e.mover, e.side), e.from as int);
    let landed = with_piece(lifted, spec_piece_index(e.placed, e.side), e.to as int);
    match e.rook {
        Some((rook_from, rook_to)) => with_piece(
            without_piece(landed, spec_piece_index(PieceType::Rook, e.side), rook_from as int),
            spec_piece_index(PieceType::Rook, e.side),
            rook_to as int,
        ),
        None => landed,
    }
}

/// Takes from `rights` what is lost when a piece leaves or reaches
/// `square`.
fn touch_rights(rights: &mut CastlingRights, square: u8)
    ensures
        *final(rights) == rights_after_touch(*old(rights), square as int),
{
    if square == CASTLING_KING_START_INDEX[0] {
        rights.disable_side(Side::White);
    } else if square == CASTLING_ROOK_KINGSIDE_START_INDEX[0] {
        rights.disable_specific_right(Side::White, CastlingSide::Kingside);
    } else if square == CASTLING_ROOK_QUEENSIDE_START_INDEX[0] {
        rights.disable_specific_right(Side::White, CastlingSide::Queenside);
    } else if square == CASTLING_KING_START_INDEX[1] {
        rights.disable_side(Side::Black);
    } else if square == CASTLING_ROOK_KINGSIDE_START_INDEX[1] {
        rights.disable_specific_right(Side::Black, CastlingSide::Kingside);
    } else if square == CASTLING_ROOK_QUEENSIDE_START_INDEX[1] {
        rights.disable_specific_right(Side::Black, CastlingSide::Queenside);
    }
}

impl Gamestate {
    /// Works out what `mv` does to this position, or why it cannot be
    /// applied.
    pub fn analyse_move(&self, mv: Move) -> (r: Result<MoveEffect, MoveError>)
        ensures
            r == effect_of(*self, mv),
            r is Ok ==> {
                &&& r->Ok_0.from < 64
                &&& r->Ok_0.to < 64
                &&& r->Ok_0.from == mv.spec_from()
                &&& r->Ok_0.to == mv.spec_to()
                &&& r->Ok_0.side == self.side_to_move
                &&& (r->Ok_0.captured matches Some((_, square)) ==> square < 64)
                &&& (r->Ok_0.rook matches Some((rook_from, rook_to)) ==> rook_from < 64 && rook_to
                    < 64)
            },
    {
        let side: Side = self.side_to_move;
        let (from, to, flags) = mv.decode();
        let from_index: u8 = from.get_index() as u8;
        let to_index: u8 = to.get_index() as u8;
        let mut rights: CastlingRights = self.castling_rights;
        match flags {
            MoveFlags::KingCastle | MoveFlags::QueenCastle => {
                rights.disable_side(side);
            },
            _ => {},
        }
        touch_rights(&mut rights, from_index);
        touch_rights(&mut rights, to_index);
        let plain = MoveEffect {
            side,
            mover: PieceType::Pawn,
            placed: PieceType::Pawn,
            from: from_index,
            to: to_index,
            captured: None,
            rook: None,
            rights,
            en_passant: 0,
        };
        let (pt, owner) = match self.board.get_piece_at_square(from) {
            None => {
                return Err(MoveError::MissingPiece);
            },
            Some(piece) => piece,
        };
        if owner.to_index() != side.to_index() {
            return Err(MoveError::MissingPiece);
        }
        let is_pawn: bool = match pt {
            PieceType::Pawn => true,
            _ => false,
        };
        let is_king: bool = match pt {
            PieceType::King => true,
            _ => false,
        };
        match flags {
            MoveFlags::KingCastle | MoveFlags::QueenCastle => {
                if !is_king {
                    return Err(MoveError::MissingPiece);
                }
                let (rook_from_index, rook_to_index): (u8, u8) = match flags {
                    MoveFlags::KingCastle => (
                        CASTLING_ROOK_KINGSIDE_START_INDEX[side.to_index()],
                        CASTLING_ROOK_KINGSIDE_END_INDEX[side.to_index()],
                    ),
                    _ => (
                        CASTLING_ROOK_QUEENSIDE_START_INDEX[side.to_index()],
                        CASTLING_ROOK_QUEENSIDE_END_INDEX[side.to_index()],
                    ),
                };
                let rook_from: Square = Square::new(rook_from_index);
                let rook_to: Square = Square::new(rook_to_index);
                let rooks: u64 = self.board.get_bitboard_of(PieceType::Rook, side);
                proof {
                    lemma_bit_test(rooks, rook_from.index());
                }
                if rooks & rook_from.get_mask() == 0 {
                    return Err(MoveError::MissingPiece);
                }
                if self.board.is_square_occupied(to) || self.board.is_square_occupied(rook_to)
                    || rook_to_index == to_index {
                    return Err(MoveError::Blocked);
                }
                Ok(
                    MoveEffect {
                        mover: pt,
                        placed: pt,
                        rook: Some((rook_from_index, rook_to_index)),
                        ..plain
                    },
                )
            },
            MoveFlags::EpCapture => {
                if !is_pawn {
                    return Err(MoveError::MissingPiece);
                }
                if self.board.is_square_occupied(to) {
                    return Err(MoveError::Blocked);
                }
                let victim_index: u8 = match side {
                    Side::White => {
                        if to_index < 8 {
                            proof {
                                lemma_bit_zero();
                            }
                            return Err(MoveError::MissingCapture);
                        }
                        to_index - 8
                    },
                    Side::Black => {
                        if to_index >= 56 {
                            return Err(MoveError::MissingCapture);
                        }
                        to_index + 8
                    },
                };
                let victim: Square = Square::new(victim_index);
                let pawns: u64 = self.board.get_bitboard_of(PieceType::Pawn, side.opponent());
                proof {
                    lemma_bit_test(pawns, victim.index());
                }
                if pawns & victim.get_mask() == 0 {
                    return Err(MoveError::MissingCapture);
                }
                Ok(
                    MoveEffect {
                        mover: pt,
                        placed: pt,
                        captured: Some((PieceType::Pawn, victim_index)),
                        ..plain
                    },
                )
            },
            _ => {
                let needs_pawn: bool = match flags {
                    MoveFlags::Quiet | MoveFlags::Capture => false,
                    _ => true,
                };
                if needs_pawn && !is_pawn {
                    return Err(MoveError::MissingPiece);
                }
                let placed: PieceType = match flags.get_promotion_piece() {
                    Some(promoted) => promoted,
                    None => pt,
                };
                let takes: bool = match flags {
                    MoveFlags::Capture
                    | MoveFlags::KnightPromoCapture
                    | MoveFlags::BishopPromoCapture
                    | MoveFlags::RookPromoCapture
                    | MoveFlags::QueenPromoCapture => true,
                    _ => false,
                };
                if takes {
                    match self.board.get_piece_at_square(to) {
                        Some((victim, victim_side)) => {
                            if victim_side.to_index() == side.to_index() {
                                return Err(MoveError::MissingCapture);
                            }
                            Ok(
                                MoveEffect {
                                    mover: pt,
                                    placed,
                                    captured: Some((victim, to_index)),
                                    ..plain
                                },
                            )
                        },
                        None => Err(MoveError::MissingCapture),
                    }
                } else {
                    if self.board.is_square_occupied(to) {
                        return Err(MoveError::Blocked);
                    }
                    let en_passant: u8 = match flags {
                        MoveFlags::DoublePawnPush => 1u8 << from.get_file(),
                        _ => 0,
                    };
                    Ok(MoveEffect { mover: pt, placed, en_passant, ..plain })
                }
            },
        }
    }
}


/// Whether `side` has its king and the rook of the given wing on their
/// starting squares.
pub open spec fn castling_pieces_at_home(p: Seq<u64>, side: Side, kingside: bool) -> bool {
    bit(p[spec_piece_index(PieceType::King, side)], castling_king_start(side)) && bit(
        p[spec_piece_index(PieceType::Rook, side)],
        castling_rook_start(side, kingside),
    )
}

/// Whether the castling rights of `game` are backed by the board: a side
/// that may castle on a wing has its king and the rook of that wing on
/// their starting squares.
pub open spec fn castling_consistent(game: Gamestate) -> bool {
    let p = game.board@;
    let rights = game.castling_rights;
    &&& rights.spec_rights(Side::White).kingside() ==> castling_pieces_at_home(p, Side::White, true)
    &&& rights.spec_rights(Side::White).queenside() ==> castling_pieces_at_home(
        p,
        Side::White,
        false,
    )
    &&& rights.spec_rights(Side::Black).kingside() ==> castling_pieces_at_home(p, Side::Black, true)
    &&& rights.spec_rights(Side::Black).queenside() ==> castling_pieces_at_home(
        p,
        Side::Black,
        false,
    )
}

/// The square on which the king of `side` starts.
pub open spec fn castling_king_start(side: Side) -> int {
    match side {
        Side::White => 4,
        Side::Black => 60,
    }
}

/// What a move that can be applied finds on the board, and that it leaves
/// twelve disjoint bitboards.
pub proof fn lemma_effect_on(
    p: Seq<u64>,
    side: Side,
    rights: CastlingRights,
    from: int,
    to: int,
    flags: MoveFlags,
)
    requires
        valid_pieces(p),
        0 <= from < 64,
        0 <= to < 64,
        effect_on(p, side, rights, from, to, flags) is Ok,
    ensures
        ({
            let e = effect_on(p, side, rights, from, to, flags)->Ok_0;
            &&& e.side == side
            &&& e.from == from
            &&& e.to == to
            &&& bit(p[spec_piece_index(e.mover, side)], from)
            &&& (e.captured matches Some((victim, square)) ==> 0 <= square < 64 && bit(
                p[spec_piece_index(victim, side.other())],
                square as int,
            ) && (square == to || !occupied(p, to)))
            &&& (e.captured is None ==> !occupied(p, to))
            &&& (e.rook matches Some((rook_from, rook_to)) ==> 0 <= rook_from < 64 && 0 <= rook_to
                < 64 && e.mover == PieceType::King && e.placed == PieceType::King && bit(
                p[spec_piece_index(PieceType::Rook, side)],
                rook_from as int,
            ) && !occupied(p, rook_to as int) && rook_to != to && e.captured is None)
            &&& valid_pieces(pieces_after(p, e))
        }),
{
    let e = effect_on(p, side, rights, from, to, flags)->Ok_0;
    lemma_occupant_bit(p, from);
    if flags.captures() && flags != MoveFlags::EpCapture {
        lemma_occupant_bit(p, to);
    }
    lemma_pieces_after_valid(p, e);
}

/// A move that finds on the board what it needs leaves twelve disjoint
/// bitboards.
pub proof fn lemma_pieces_after_valid(p: Seq<u64>, e: MoveEffect)
    requires
        valid_pieces(p),
        e.from < 64,
        e.to < 64,
        bit(p[spec_piece_index(e.mover, e.side)], e.from as int),
        e.captured matches Some((victim, square)) ==> square < 64 && bit(
            p[spec_piece_index(victim, e.side.other())],
            square as int,
        ) && (square == e.to || !occupied(p, e.to as int)),
        e.captured is None ==> !occupied(p, e.to as int),
        e.rook matches Some((rook_from, rook_to)) ==> rook_from < 64 && rook_to < 64 && e.mover
            == PieceType::King && bit(
            p[spec_piece_index(PieceType::Rook, e.side)],
            rook_from as int,
        ) && !occupied(p, rook_to as int) && rook_to != e.to,
    ensures
        valid_pieces(pieces_after(p, e)),
{
    let side = e.side;
    let mover = spec_piece_index(e.mover, side);
    let placed = spec_piece_index(e.placed, side);
    let rook = spec_piece_index(PieceType::Rook, side);
    let taken = match e.captured {
        Some((victim, square)) => without_piece(
            p,
            spec_piece_index(victim, side.other()),
            square as int,
        ),
        None => p,
    };
    match e.captured {
        Some((victim, square)) => {
            let k = spec_piece_index(victim, side.other());
            lemma_without_piece(p, k, square as int);
            lemma_without_piece_valid(p, k, square as int);
            lemma_occupant(p, k, square as int);
        },
        None => {},
    }
    let lifted = without_piece(taken, mover, e.from as int);
    lemma_without_piece(taken, mover, e.from as int);
    lemma_without_piece_valid(taken, mover, e.from as int);
    lemma_occupant(p, mover, e.from as int);
    assert(!occupied(lifted, e.to as int)) by {
        if occupied(lifted, e.to as int) {
            let k = choose|k: int| 0 <= k < 12 && #[trigger] bit(lifted[k], e.to as int);
            assert(bit(taken[k], e.to as int));
            assert(bit(p[k], e.to as int));
            lemma_occupant(p, k, e.to as int);
        }
    }
    let landed = with_piece(lifted, placed, e.to as int);
    lemma_with_piece(lifted, placed, e.to as int);
    lemma_with_piece_valid(lifted, placed, e.to as int);
    match e.rook {
        Some((rook_from, rook_to)) => {
            let rook_lifted = without_piece(landed, rook, rook_from as int);
            lemma_without_piece(landed, rook, rook_from as int);
            lemma_without_piece_valid(landed, rook, rook_from as int);
            assert(!occupied(rook_lifted, rook_to as int)) by {
                if occupied(rook_lifted, rook_to as int) {
                    let k = choose|k: int| 0 <= k < 12 && #[trigger] bit(rook_lifted[k], rook_to as int);
                    assert(bit(landed[k], rook_to as int));
                    assert(bit(lifted[k], rook_to as int));
                    assert(bit(taken[k], rook_to as int));
                    assert(bit(p[k], rook_to as int));
                }
            }
            lemma_with_piece(rook_lifted, rook, rook_to as int);
            lemma_with_piece_valid(rook_lifted, rook, rook_to as int);
        },
        None => {},
    }
}

/// A move changes the board only on its own squares: the origin, the
/// destination, the square of the piece it takes and, when castling, the
/// two squares of the rook.
pub proof fn lemma_pieces_after_elsewhere(p: Seq<u64>, e: MoveEffect, k: int, t: int)
    requires
        p.len() == 12,
        0 <= k < 12,
        e.from < 64,
        e.to < 64,
        e.captured matches Some((_, square)) ==> square < 64,
        e.rook matches Some((rook_from, rook_to)) ==> rook_from < 64 && rook_to < 64,
        t != e.from,
        t != e.to,
        e.captured matches Some((_, square)) ==> t != square,
        e.rook matches Some((rook_from, rook_to)) ==> t != rook_from && t != rook_to,
    ensures
        pieces_after(p, e).len() == 12,
        bit(pieces_after(p, e)[k], t) == bit(p[k], t),
{
    let side = e.side;
    let taken = match e.captured {
        Some((victim, square)) => without_piece(
            p,
            spec_piece_index(victim, side.other()),
            square as int,
        ),
        None => p,
    };
    match e.captured {
        Some((victim, square)) => {
            lemma_without_piece(p, spec_piece_index(victim, side.other()), square as int);
        },
        None => {},
    }
    let lifted = without_piece(taken, spec_piece_index(e.mover, side), e.from as int);
    lemma_without_piece(taken, spec_piece_index(e.mover, side), e.from as int);
    let landed = with_piece(lifted, spec_piece_index(e.placed, side), e.to as int);
    lemma_with_piece(lifted, spec_piece_index(e.placed, side), e.to as int);
    match e.rook {
        Some((rook_from, rook_to)) => {
            let rook = spec_piece_index(PieceType::Rook, side);
            lemma_without_piece(landed, rook, rook_from as int);
            lemma_with_piece(without_piece(landed, rook, rook_from as int), rook, rook_to as int);
        },
        None => {},
    }
}

/// A move that can be applied leaves the castling rights backed by the
/// board: if they were before the move, they are after it.
pub proof fn lemma_castling_stays_consistent(game: Gamestate, mv: Move, next: Gamestate)
    requires
        game.board.well_formed(),
        game.castling_rights.well_formed(),
        mv.well_formed(),
        castling_consistent(game),
        effect_of(game, mv) is Ok,
        follows(game, effect_of(game, mv)->Ok_0, next),
    ensures
        castling_consistent(next),
{
    game.board.lemma_well_formed();
    mv.lemma_encode_decode();
    let p = game.board@;
    let side = game.side_to_move;
    let rights = game.castling_rights;
    let from = mv.spec_from();
    let to = mv.spec_to();
    let flags = mv.spec_flags();
    let e = effect_of(game, mv)->Ok_0;
    lemma_effect_on(p, side, rights, from, to, flags);
    let start = if flags.castles() {
        rights.spec_without(side, CastlingSide::Both)
    } else {
        rights
    };
    rights.lemma_without(side, CastlingSide::Both);
    lemma_rights_after_touch(start, from);
    lemma_rights_after_touch(rights_after_touch(start, from), to);
    assert(e.rights == rights_after(rights, side, from, to, flags.castles()));
    assert forall|s: Side, kingside: bool|
        (if kingside {
            e.rights.spec_rights(s).kingside()
        } else {
            e.rights.spec_rights(s).queenside()
        }) implies castling_pieces_at_home(next.board@, s, kingside) by {
        let king = spec_piece_index(PieceType::King, s);
        let rook = spec_piece_index(PieceType::Rook, s);
        assert(castling_pieces_at_home(p, s, kingside));
        match e.captured {
            Some((victim, square)) => {
                if square != to {
                    lemma_occupant(p, spec_piece_index(victim, side.other()), square as int);
                    lemma_occupant(p, king, castling_king_start(s));
                    lemma_occupant(p, rook, castling_rook_start(s, kingside));
                }
            },
            None => {},
        }
        lemma_pieces_after_elsewhere(p, e, king, castling_king_start(s));
        lemma_pieces_after_elsewhere(p, e, rook, castling_rook_start(s, kingside));
    }
}

/// What is left of the rights when a square is touched: a right goes when
/// the square is the starting square of its king or of its rook.
pub proof fn lemma_rights_after_touch(rights: CastlingRights, square: int)
    requires
        rights.well_formed(),
    ensures
        rights_after_touch(rights, square).well_formed(),
        forall|s: Side|
            #![trigger rights_after_touch(rights, square).spec_rights(s)]
            rights_after_touch(rights, square).spec_rights(s).kingside() == (rights.spec_rights(
                s,
            ).kingside() && square != castling_king_start(s) && square != castling_rook_start(
                s,
                true,
            )),
        forall|s: Side|
            #![trigger rights_after_touch(rights, square).spec_rights(s)]
            rights_after_touch(rights, square).spec_rights(s).queenside() == (rights.spec_rights(
                s,
            ).queenside() && square != castling_king_start(s) && square != castling_rook_start(
                s,
                false,
            )),
{
    rights.lemma_without(Side::White, CastlingSide::Both);
    rights.lemma_without(Side::White, CastlingSide::Kingside);
    rights.lemma_without(Side::White, CastlingSide::Queenside);
    rights.lemma_without(Side::Black, CastlingSide::Both);
    rights.lemma_without(Side::Black, CastlingSide::Kingside);
    rights.lemma_without(Side::Black, CastlingSide::Queenside);
}

/// A clock that has reached 255 stays there.
pub open spec fn tick(clock: u8) -> u8 {
    if clock < 255 {
        (clock + 1) as u8
    } else {
        255
    }
}

/// Whether `next` is what the move with effect `e` makes of `game`, the
/// hash aside: the pieces have moved, the other side is to move, the rights
/// and the en-passant value are those of `e`, the half-move clock restarts
/// after a pawn move or a capture and advances otherwise, and the full-move
/// count advances after a move of black.
pub open spec fn follows(game: Gamestate, e: MoveEffect, next: Gamestate) -> bool {
    &&& next.board@ == pieces_after(game.board@, e)
    &&& next.side_to_move == game.side_to_move.other()
    &&& next.castling_rights == e.rights
    &&& next.en_passant == e.en_passant
    &&& next.half_move_clock == (if e.mover == PieceType::Pawn || e.captured is Some {
        0u8
    } else {
        tick(game.half_move_clock)
    })
    &&& next.full_move_count == (if game.side_to_move == Side::Black {
        tick(game.full_move_count)
    } else {
        game.full_move_count
    })
}

/// The incremental update gives the hash of the position after the move:
/// if the hash of `game` is right, `mv` can be applied to `game` and `next`
/// is what it makes of `game`, then `incremental_hash` is the hash of
/// `next`.
pub proof fn lemma_incremental_update(keys: ZobristKeys, game: Gamestate, mv: Move, next: Gamestate)
    requires
        game.board.well_formed(),
        mv.well_formed(),
        game.zobrist_key == spec_hash(keys, game),
        effect_of(game, mv) is Ok,
        follows(game, effect_of(game, mv)->Ok_0, next),
    ensures
        incremental_hash(
            keys,
            game.zobrist_key,
            game.castling_rights.spec_bits(),
            game.en_passant,
            effect_of(game, mv)->Ok_0,
        ) == spec_hash(keys, next),
{
    game.board.lemma_well_formed();
    mv.lemma_encode_decode();
    lemma_incremental_hash(
        keys,
        game.board@,
        game.side_to_move,
        game.castling_rights,
        game.en_passant,
        mv.spec_from(),
        mv.spec_to(),
        mv.spec_flags(),
    );
}

impl Gamestate {
    /// The position after `mv`, with its hash updated from the hash of this
    /// position, or why `mv` cannot be applied.
    pub fn apply_move(&self, keys: &ZobristKeys, mv: Move) -> (r: Result<Gamestate, MoveError>)
        ensures
            match effect_of(*self, mv) {
                Ok(e) => r is Ok && follows(*self, e, r->Ok_0) && r->Ok_0.zobrist_key
                    == incremental_hash(
                    *keys,
                    self.zobrist_key,
                    self.castling_rights.spec_bits(),
                    self.en_passant,
                    e,
                ),
                Err(error) => r == Err::<Gamestate, MoveError>(error),
            },
            r is Ok && self.zobrist_key == spec_hash(*keys, *self) ==> r->Ok_0.zobrist_key
                == spec_hash(*keys, r->Ok_0),
    {
        let effect: MoveEffect = match self.analyse_move(mv) {
            Ok(effect) => effect,
            Err(error) => {
                return Err(error);
            },
        };
        let side: Side = effect.side;
        let from: Square = Square::new(effect.from);
        let to: Square = Square::new(effect.to);
        let ghost p = self.board@;
        proof {
            use_type_invariant(&self.board);
            use_type_invariant(mv);
            self.board.lemma_well_formed();
            mv.lemma_encode_decode();
            lemma_effect_on(
                p,
                self.side_to_move,
                self.castling_rights,
                mv.spec_from(),
                mv.spec_to(),
                mv.spec_flags(),
            );
        }
        let mut board: Board = self.board;
        let mut captured: bool = false;
        match effect.captured {
            Some((victim, square)) => {
                board.remove_piece_at_square(Square::new(square), victim, side.opponent());
                captured = true;
                proof {
                    let k = spec_piece_index(victim, side.other());
                    lemma_without_piece(p, k, square as int);
                    lemma_occupant(p, k, square as int);
                }
            },
            None => {},
        }
        let ghost taken = board@;
        proof {
            lemma_occupant(p, spec_piece_index(effect.mover, side), effect.from as int);
        }
        board.remove_piece_at_square(from, effect.mover, side);
        let ghost lifted = board@;
        proof {
            lemma_without_piece(taken, spec_piece_index(effect.mover, side), effect.from as int);
            if occupied(lifted, effect.to as int) {
                let k = choose|k: int| 0 <= k < 12 && #[trigger] bit(lifted[k], effect.to as int);
                assert(bit(taken[k], effect.to as int));
                assert(bit(p[k], effect.to as int));
                lemma_occupant(p, k, effect.to as int);
            }
        }
        board.place_piece_at_square(to, effect.placed, side);
        let ghost landed = board@;
        match effect.rook {
            Some((rook_from, rook_to)) => {
                proof {
                    lemma_with_piece(lifted, spec_piece_index(effect.placed, side), effect.to as int);
                }
                board.remove_piece_at_square(Square::new(rook_from), PieceType::Rook, side);
                proof {
                    let rook_lifted = board@;
                    lemma_without_piece(
                        landed,
                        spec_piece_index(PieceType::Rook, side),
                        rook_from as int,
                    );
                    if occupied(rook_lifted, rook_to as int) {
                        let k = choose|k: int| 0 <= k < 12 && #[trigger] bit(rook_lifted[k], rook_to as int);
                        assert(bit(landed[k], rook_to as int));
                        assert(bit(lifted[k], rook_to as int));
                        assert(bit(taken[k], rook_to as int));
                        assert(bit(p[k], rook_to as int));
                    }
                }
                board.place_piece_at_square(Square::new(rook_to), PieceType::Rook, side);
            },
            None => {},
        }
        let restart: bool = captured || match effect.mover {
            PieceType::Pawn => true,
            _ => false,
        };
        let half_move_clock: u8 = if restart {
            0
        } else if self.half_move_clock < 255 {
            self.half_move_clock + 1
        } else {
            255
        };
        let full_move_count: u8 = match side {
            Side::White => self.full_move_count,
            Side::Black => if self.full_move_count < 255 {
                self.full_move_count + 1
            } else {
                255
            },
        };
        let zobrist_key: u64 = Zobrist::updated_hash(keys, self, &effect);
        let next = Gamestate {
            board,
            side_to_move: side.opponent(),
            castling_rights: effect.rights,
            en_passant: effect.en_passant,
            half_move_clock,
            full_move_count,
            zobrist_key,
        };
        proof {
            if self.zobrist_key == spec_hash(*keys, *self) {
                lemma_incremental_update(*keys, *self, mv, next);
            }
        }
        Ok(next)
    }
}

} // verus!
