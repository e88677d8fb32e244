//! Pseudo-legal move generation: the moves that obey how the pieces move
//! and what stands on the board, whether or not they leave the own king in
//! check.

pub mod constants;
pub mod laws;
pub mod magic_bitboards;
pub mod masks;
pub mod sliders;
pub mod tables;

use vstd::prelude::*;
use crate::bits::{bit, lemma_bit_and, lemma_bit_test, lemma_zero_iff_empty, pop_lowest};
use crate::gamestate::{Gamestate, castling_king_start, en_passant_victim};
use crate::gamestate::board::{
    Bitboard, PieceType, Side, Square, file_of, occupied, rank_of, side_union, spec_piece_index,
    square_at,
};
use crate::gamestate::castling_rights::CastlingRights;
use crate::gamestate::chess_move::{Move, MoveFlags};
use crate::gamestate::zobrist::{en_passant_file, get_en_passant_file};
use crate::movegen::constants::{
    CASTLING_KINGSIDE_OCCUPANCY_MASK, CASTLING_KING_KINGSIDE_END_INDEX,
    CASTLING_KING_QUEENSIDE_END_INDEX, CASTLING_KING_START_INDEX, CASTLING_QUEENSIDE_OCCUPANCY_MASK,
    CLEAR_7TH_OR_2ND_RANK, lemma_castling_gaps,
};
use crate::movegen::masks::{
    home_rank, king_attacks_spec, knight_attacks_spec, pawn_attacks_spec, pawn_double_push_spec,
    pawn_push_spec,
};
use crate::movegen::sliders::{bishop_attacks_spec, queen_attacks_spec, rook_attacks_spec};
use crate::movegen::tables::AttackTables;

verus! {

/// The occupied squares of a board with piece bitboards `p`.
pub open spec fn all_occupied(p: Seq<u64>) -> u64 {
    side_union(p, 0) | side_union(p, 1)
}

/// The moves of kind `flags` from `from` to the squares of `targets` below
/// `n`, in ascending order of the destination.
pub open spec fn moves_to_below(from: int, targets: u64, flags: MoveFlags, n: int) -> Seq<Move>
    decreases n,
{
    if n <= 0 {
        Seq::empty()
    } else if bit(targets, n - 1) {
        moves_to_below(from, targets, flags, n - 1).push(Move::spec_encode(from, n - 1, flags))
    } else {
        moves_to_below(from, targets, flags, n - 1)
    }
}

/// The moves of kind `flags` from `from` to the squares of `targets`, in
/// ascending order of the destination.
pub open spec fn moves_to(from: int, targets: u64, flags: MoveFlags) -> Seq<Move> {
    moves_to_below(from, targets, flags, 64)
}

/// The four promotions from `from` to `to`: to a knight, a bishop, a rook
/// and a queen, in this order.
pub open spec fn promotions(from: int, to: int, capture: bool) -> Seq<Move> {
    if capture {
        seq![
            Move::spec_encode(from, to, MoveFlags::KnightPromoCapture),
            Move::spec_encode(from, to, MoveFlags::BishopPromoCapture),
            Move::spec_encode(from, to, MoveFlags::RookPromoCapture),
            Move::spec_encode(from, to, MoveFlags::QueenPromoCapture),
        ]
    } else {
        seq![
            Move::spec_encode(from, to, MoveFlags::KnightPromotion),
            Move::spec_encode(from, to, MoveFlags::BishopPromotion),
            Move::spec_encode(from, to, MoveFlags::RookPromotion),
            Move::spec_encode(from, to, MoveFlags::QueenPromotion),
        ]
    }
}

/// The promotions from `from` to the squares of `targets` below `n`, in
/// ascending order of the destination.
pub open spec fn promotions_to_below(from: int, targets: u64, capture: bool, n: int) -> Seq<Move>
    decreases n,
{
    if n <= 0 {
        Seq::empty()
    } else if bit(targets, n - 1) {
        promotions_to_below(from, targets, capture, n - 1) + promotions(from, n - 1, capture)
    } else {
        promotions_to_below(from, targets, capture, n - 1)
    }
}

/// The promotions from `from` to the squares of `targets`.
pub open spec fn promotions_to(from: int, targets: u64, capture: bool) -> Seq<Move> {
    promotions_to_below(from, targets, capture, 64)
}

/// The classes in which the moves of the pieces are generated.
#[derive(Debug, Clone, Copy, PartialEq, Eq)]
pub enum MoveClass {
    /// Single and double steps of pawns that do not promote.
    PawnPushes,
    /// Moves of the pieces of a kind (other than pawns) to empty squares.
    Quiet(PieceType),
    /// Steps of pawns to the last rank.
    PromotionPushes,
    /// Captures, also en passant, by pawns that do not promote.
    PawnCaptures,
    /// Captures by the pieces of a kind (other than pawns).
    Captures(PieceType),
    /// Captures by pawns on the last rank.
    PromotionCaptures,
}

/// The rank from which the pawns of `side` promote with their next move, as
/// a set.
pub open spec fn promotion_rank_mask(side: Side) -> u64 {
    CLEAR_7TH_OR_2ND_RANK[side.index()]
}

/// The squares from which the moves of `class` start.
pub open spec fn sources(p: Seq<u64>, side: Side, class: MoveClass) -> u64 {
    match class {
        MoveClass::PawnPushes | MoveClass::PawnCaptures => p[spec_piece_index(
            PieceType::Pawn,
            side,
        )] & !promotion_rank_mask(side),
        MoveClass::PromotionPushes | MoveClass::PromotionCaptures => p[spec_piece_index(
            PieceType::Pawn,
            side,
        )] & promotion_rank_mask(side),
        MoveClass::Quiet(pt) | MoveClass::Captures(pt) => p[spec_piece_index(pt, side)],
    }
}

/// The squares that a piece of kind `pt` on `s` reaches when the occupied
/// squares are `occupancy`. Pawns are not handled here.
pub open spec fn attacks_spec(pt: PieceType, occupancy: u64, s: int) -> u64 {
    match pt {
        PieceType::Pawn => 0,
        PieceType::Knight => knight_attacks_spec(s),
        PieceType::Bishop => bishop_attacks_spec(occupancy, s),
        PieceType::Rook => rook_attacks_spec(occupancy, s),
        PieceType::Queen => queen_attacks_spec(occupancy, s),
        PieceType::King => king_attacks_spec(s),
    }
}

/// The rank on which a pawn of `side` lands when it takes en passant.
pub open spec fn en_passant_rank(side: Side) -> int {
    match side {
        Side::White => 5,
        Side::Black => 2,
    }
}

/// The square on which a pawn of `side` lands when it takes en passant, as a
/// set: the square of the en-passant file behind the pawn of the other side,
/// if that pawn is there and the square is empty. Empty when the en-passant
/// value is zero.
pub open spec fn en_passant_target(p: Seq<u64>, side: Side, en_passant: u8) -> u64 {
    if en_passant == 0 {
        0
    } else {
        let t = square_at(en_passant_file(en_passant), en_passant_rank(side));
        if !occupied(p, t) && bit(
            p[spec_piece_index(PieceType::Pawn, side.other())],
            en_passant_victim(side, t),
        ) {
            1u64 << (t as u64)
        } else {
            0
        }
    }
}

/// The moves of `class` that the piece of `side` on `s` has.
pub open spec fn moves_at(p: Seq<u64>, side: Side, en_passant: u8, class: MoveClass, s: int) -> Seq<
    Move,
> {
    let occupancy = all_occupied(p);
    let theirs = side_union(p, side.other().index());
    match class {
        MoveClass::PawnPushes => {
            let single = pawn_push_spec(side, s) & !occupancy;
            moves_to(s, single, MoveFlags::Quiet) + (if single != 0 && rank_of(s) == home_rank(
                side,
            ) {
                moves_to(
                    s,
                    pawn_double_push_spec(side, file_of(s)) & !occupancy,
                    MoveFlags::DoublePawnPush,
                )
            } else {
                Seq::empty()
            })
        },
        MoveClass::Quiet(pt) => moves_to(
            s,
            attacks_spec(pt, occupancy, s) & !occupancy,
            MoveFlags::Quiet,
        ),
        MoveClass::PromotionPushes => promotions_to(s, pawn_push_spec(side, s) & !occupancy, false),
        MoveClass::PawnCaptures => moves_to(
            s,
            pawn_attacks_spec(side, s) & theirs,
            MoveFlags::Capture,
        ) + moves_to(
            s,
            pawn_attacks_spec(side, s) & en_passant_target(p, side, en_passant),
            MoveFlags::EpCapture,
        ),
        MoveClass::Captures(pt) => moves_to(
            s,
            attacks_spec(pt, occupancy, s) & theirs,
            MoveFlags::Capture,
        ),
        MoveClass::PromotionCaptures => promotions_to(s, pawn_attacks_spec(side, s) & theirs, true),
    }
}

/// The moves of `class` of the pieces of `side` on squares below `n`, in
/// ascending order of the origin.
pub open spec fn class_moves_below(
    p: Seq<u64>,
    side: Side,
    en_passant: u8,
    class: MoveClass,
    n: int,
) -> Seq<Move>
    decreases n,
{
    if n <= 0 {
        Seq::empty()
    } else if bit(sources(p, side, class), n - 1) {
        class_moves_below(p, side, en_passant, class, n - 1) + moves_at(
            p,
            side,
            en_passant,
            class,
            n - 1,
        )
    } else {
        class_moves_below(p, side, en_passant, class, n - 1)
    }
}

/// The moves of `class` of the pieces of `side`.
pub open spec fn class_moves(p: Seq<u64>, side: Side, en_passant: u8, class: MoveClass) -> Seq<
    Move,
> {
    class_moves_below(p, side, en_passant, class, 64)
}

/// The square on which the king of `side` starts.
pub open spec fn king_start(side: Side) -> int {
    castling_king_start(side)
}

/// The square that the king of `side` reaches when castling on the king\'s
/// side (`kingside`) or the queen\'s side.
pub open spec fn king_castling_end(side: Side, kingside: bool) -> int {
    match side {
        Side::White => if kingside {
            6
        } else {
            2
        },
        Side::Black => if kingside {
            62
        } else {
            58
        },
    }
}

/// Whether the squares strictly between the starting squares of the king of
/// `side` and of its rook on the given wing are all empty.
pub open spec fn castling_gap_empty(p: Seq<u64>, side: Side, kingside: bool) -> bool {
    let base = king_start(side) - 4;
    if kingside {
        !occupied(p, base + 5) && !occupied(p, base + 6)
    } else {
        !occupied(p, base + 1) && !occupied(p, base + 2) && !occupied(p, base + 3)
    }
}

/// The castling moves of `side`: on each wing, one move of the king from
/// its starting square if `rights` allows castling on that wing and the
/// squares between king and rook are empty. Whether king and rook stand on
/// their starting squares is not looked at.
pub open spec fn castling_moves(p: Seq<u64>, side: Side, rights: CastlingRights) -> Seq<Move> {
    (if rights.spec_rights(side).kingside() && castling_gap_empty(p, side, true) {
        seq![Move::spec_encode(king_start(side), king_castling_end(side, true), MoveFlags::KingCastle)]
    } else {
        Seq::empty()
    }) + (if rights.spec_rights(side).queenside() && castling_gap_empty(p, side, false) {
        seq![
            Move::spec_encode(king_start(side), king_castling_end(side, false), MoveFlags::QueenCastle),
        ]
    } else {
        Seq::empty()
    })
}

/// The moves of the pieces of `side`, class by class: first the moves to
/// empty squares, then the captures.
pub open spec fn piece_moves(p: Seq<u64>, side: Side, en_passant: u8) -> Seq<Move> {
    class_moves(p, side, en_passant, MoveClass::PawnPushes) + class_moves(
        p,
        side,
        en_passant,
        MoveClass::Quiet(PieceType::Knight),
    ) + class_moves(p, side, en_passant, MoveClass::Quiet(PieceType::Bishop)) + class_moves(
        p,
        side,
        en_passant,
        MoveClass::Quiet(PieceType::Rook),
    ) + class_moves(p, side, en_passant, MoveClass::Quiet(PieceType::Queen)) + class_moves(
        p,
        side,
        en_passant,
        MoveClass::Quiet(PieceType::King),
    ) + class_moves(p, side, en_passant, MoveClass::PromotionPushes) + class_moves(
        p,
        side,
        en_passant,
        MoveClass::PawnCaptures,
    ) + class_moves(p, side, en_passant, MoveClass::Captures(PieceType::Knight)) + class_moves(
        p,
        side,
        en_passant,
        MoveClass::Captures(PieceType::Bishop),
    ) + class_moves(p, side, en_passant, MoveClass::Captures(PieceType::Rook)) + class_moves(
        p,
        side,
        en_passant,
        MoveClass::Captures(PieceType::Queen),
    ) + class_moves(p, side, en_passant, MoveClass::Captures(PieceType::King)) + class_moves(
        p,
        side,
        en_passant,
        MoveClass::PromotionCaptures,
    )
}

/// The pseudo-legal moves of the side to move in `game`: the moves of its
/// pieces, then its castling moves.
pub open spec fn pseudo_legal_moves(game: Gamestate) -> Seq<Move> {
    piece_moves(game.board@, game.side_to_move, game.en_passant) + castling_moves(
        game.board@,
        game.side_to_move,
        game.castling_rights,
    )
}

/// Squares that `targets` does not hold contribute no move.
pub proof fn lemma_moves_to_skip(from: int, targets: u64, flags: MoveFlags, lo: int, hi: int)
    requires
        0 <= lo <= hi,
        forall|j: int| lo <= j < hi ==> !bit(targets, j),
    ensures
        moves_to_below(from, targets, flags, hi) == moves_to_below(from, targets, flags, lo),
    decreases hi - lo,
{
    if lo < hi {
        lemma_moves_to_skip(from, targets, flags, lo, hi - 1);
    }
}

/// Squares that `targets` does not hold contribute no promotion.
pub proof fn lemma_promotions_to_skip(from: int, targets: u64, capture: bool, lo: int, hi: int)
    requires
        0 <= lo <= hi,
        forall|j: int| lo <= j < hi ==> !bit(targets, j),
    ensures
        promotions_to_below(from, targets, capture, hi) == promotions_to_below(
            from,
            targets,
            capture,
            lo,
        ),
    decreases hi - lo,
{
    if lo < hi {
        lemma_promotions_to_skip(from, targets, capture, lo, hi - 1);
    }
}

/// Squares that are no source of `class` contribute no move.
pub proof fn lemma_class_moves_skip(
    p: Seq<u64>,
    side: Side,
    en_passant: u8,
    class: MoveClass,
    lo: int,
    hi: int,
)
    requires
        0 <= lo <= hi,
        forall|j: int| lo <= j < hi ==> !bit(sources(p, side, class), j),
    ensures
        class_moves_below(p, side, en_passant, class, hi) == class_moves_below(
            p,
            side,
            en_passant,
            class,
            lo,
        ),
    decreases hi - lo,
{
    if lo < hi {
        lemma_class_moves_skip(p, side, en_passant, class, lo, hi - 1);
    }
}

/// Appends the moves of kind `flags` from `from` to the squares of
/// `targets`.
fn push_moves(moves: &mut Vec<Move>, from: Square, targets: Bitboard, flags: MoveFlags)
    ensures
        final(moves)@ == old(moves)@ + moves_to(from.index(), targets, flags),
{
    let mut rest: u64 = targets;
    let ghost mut lo: int = 0;
    let ghost start = moves@;
    let ghost s = from.index();
    assert(moves@ =~= start + moves_to_below(s, targets, flags, 0));
    while rest != 0
        invariant
            0 <= lo <= 64,
            s == from.index(),
            forall|i: int| #[trigger] bit(rest, i) == (bit(targets, i) && i >= lo),
            moves@ == start + moves_to_below(s, targets, flags, lo),
        decreases 64 - lo,
    {
        let t: u8 = pop_lowest(&mut rest);
        proof {
            assert(bit(targets, t as int) && t >= lo);
            assert forall|j: int| lo <= j < t implies !bit(targets, j) by {
                assert(!bit(rest, j) || j == t);
            }
            lemma_moves_to_skip(s, targets, flags, lo, t as int);
            lo = t + 1;
        }
        moves.push(Move::encode(from, Square::new(t), flags));
        assert(moves@ =~= start + moves_to_below(s, targets, flags, lo));
    }
    proof {
        lemma_zero_iff_empty(rest);
        assert forall|j: int| lo <= j < 64 implies !bit(targets, j) by {
            assert(!bit(rest, j));
        }
        lemma_moves_to_skip(s, targets, flags, lo, 64);
    }
}

/// Appends the promotions from `from` to the squares of `targets`.
fn push_promotions(moves: &mut Vec<Move>, from: Square, targets: Bitboard, capture: bool)
    ensures
        final(moves)@ == old(moves)@ + promotions_to(from.index(), targets, capture),
{
    let mut rest: u64 = targets;
    let ghost mut lo: int = 0;
    let ghost start = moves@;
    let ghost s = from.index();
    assert(moves@ =~= start + promotions_to_below(s, targets, capture, 0));
    while rest != 0
        invariant
            0 <= lo <= 64,
            s == from.index(),
            forall|i: int| #[trigger] bit(rest, i) == (bit(targets, i) && i >= lo),
            moves@ == start + promotions_to_below(s, targets, capture, lo),
        decreases 64 - lo,
    {
        let t: u8 = pop_lowest(&mut rest);
        proof {
            assert(bit(targets, t as int) && t >= lo);
            assert forall|j: int| lo <= j < t implies !bit(targets, j) by {
                assert(!bit(rest, j) || j == t);
            }
            lemma_promotions_to_skip(s, targets, capture, lo, t as int);
            lo = t + 1;
        }
        let to: Square = Square::new(t);
        if capture {
            moves.push(Move::encode(from, to, MoveFlags::KnightPromoCapture));
            moves.push(Move::encode(from, to, MoveFlags::BishopPromoCapture));
            moves.push(Move::encode(from, to, MoveFlags::RookPromoCapture));
            moves.push(Move::encode(from, to, MoveFlags::QueenPromoCapture));
        } else {
            moves.push(Move::encode(from, to, MoveFlags::KnightPromotion));
            moves.push(Move::encode(from, to, MoveFlags::BishopPromotion));
            moves.push(Move::encode(from, to, MoveFlags::RookPromotion));
            moves.push(Move::encode(from, to, MoveFlags::QueenPromotion));
        }
        assert(moves@ =~= start + promotions_to_below(s, targets, capture, lo));
    }
    proof {
        lemma_zero_iff_empty(rest);
        assert forall|j: int| lo <= j < 64 implies !bit(targets, j) by {
            assert(!bit(rest, j));
        }
        lemma_promotions_to_skip(s, targets, capture, lo, 64);
    }
}

/// Where a piece of kind `pt` on `square` reaches.
fn piece_attacks(tables: &AttackTables, pt: PieceType, square: Square, occupancy: Bitboard) -> (attacks:
    Bitboard)
    ensures
        attacks == attacks_spec(pt, occupancy, square.index()),
{
    match pt {
        PieceType::Pawn => 0,
        PieceType::Knight => tables.knight_attacks(square),
        PieceType::Bishop => tables.bishop_attacks(square, occupancy),
        PieceType::Rook => tables.rook_attacks(square, occupancy),
        PieceType::Queen => tables.queen_attacks(square, occupancy),
        PieceType::King => tables.king_attacks(square),
    }
}

/// The square on which a pawn of the side to move lands when it takes en
/// passant, as a set.
fn en_passant_target_of(game: &Gamestate) -> (target: Bitboard)
    ensures
        target == en_passant_target(game.board@, game.side_to_move, game.en_passant),
{
    if game.en_passant == 0 {
        return 0;
    }
    let side: Side = game.side_to_move;
    let file: u8 = get_en_passant_file(game.en_passant);
    let (to_index, victim_index): (u8, u8) = match side {
        Side::White => (40 + file, 32 + file),
        Side::Black => (16 + file, 24 + file),
    };
    let to: Square = Square::new(to_index);
    let victim: Square = Square::new(victim_index);
    let pawns: u64 = game.board.get_bitboard_of(PieceType::Pawn, side.opponent());
    proof {
        lemma_bit_test(pawns, victim.index());
    }
    if !game.board.is_square_occupied(to) && pawns & victim.get_mask() != 0 {
        to.get_mask()
    } else {
        0
    }
}

/// Appends the moves of `class` that the piece on `square` has.
fn push_moves_at(
    game: &Gamestate,
    tables: &AttackTables,
    moves: &mut Vec<Move>,
    class: MoveClass,
    square: Square,
    target: Bitboard,
)
    requires
        target == en_passant_target(game.board@, game.side_to_move, game.en_passant),
    ensures
        final(moves)@ == old(moves)@ + moves_at(
            game.board@,
            game.side_to_move,
            game.en_passant,
            class,
            square.index(),
        ),
{
    let side: Side = game.side_to_move;
    let occupancy: u64 = game.board.get_combined_occupancy();
    let theirs: u64 = game.board.get_occupancy(side.opponent());
    let ghost start = moves@;
    let ghost s = square.index();
    match class {
        MoveClass::PawnPushes => {
            let single: u64 = tables.pawn_single_push(side, square) & !occupancy;
            push_moves(moves, square, single, MoveFlags::Quiet);
            let home: u8 = match side {
                Side::White => 1,
                Side::Black => 6,
            };
            if single != 0 && square.get_rank() == home {
                let double: u64 = tables.pawn_double_push(side, square.get_file()) & !occupancy;
                push_moves(moves, square, double, MoveFlags::DoublePawnPush);
                assert(moves@ =~= start + (moves_to(s, single, MoveFlags::Quiet) + moves_to(
                    s,
                    double,
                    MoveFlags::DoublePawnPush,
                )));
            } else {
                assert(moves@ =~= start + (moves_to(s, single, MoveFlags::Quiet) + Seq::<
                    Move,
                >::empty()));
            }
        },
        MoveClass::Quiet(pt) => {
            let attacks: u64 = piece_attacks(tables, pt, square, occupancy);
            push_moves(moves, square, attacks & !occupancy, MoveFlags::Quiet);
        },
        MoveClass::PromotionPushes => {
            let single: u64 = tables.pawn_single_push(side, square) & !occupancy;
            push_promotions(moves, square, single, false);
        },
        MoveClass::PawnCaptures => {
            let attacks: u64 = tables.pawn_attacks(side, square);
            push_moves(moves, square, attacks & theirs, MoveFlags::Capture);
            push_moves(moves, square, attacks & target, MoveFlags::EpCapture);
            assert(moves@ =~= start + (moves_to(s, attacks & theirs, MoveFlags::Capture) + moves_to(
                s,
                attacks & target,
                MoveFlags::EpCapture,
            )));
        },
        MoveClass::Captures(pt) => {
            let attacks: u64 = piece_attacks(tables, pt, square, occupancy);
            push_moves(moves, square, attacks & theirs, MoveFlags::Capture);
        },
        MoveClass::PromotionCaptures => {
            let attacks: u64 = tables.pawn_attacks(side, square);
            push_promotions(moves, square, attacks & theirs, true);
        },
    }
}

/// The squares from which the moves of `class` start.
fn sources_of(game: &Gamestate, class: MoveClass) -> (squares: Bitboard)
    ensures
        squares == sources(game.board@, game.side_to_move, class),
{
    let side: Side = game.side_to_move;
    let promotion_rank: u64 = CLEAR_7TH_OR_2ND_RANK[side.to_index()];
    match class {
        MoveClass::PawnPushes | MoveClass::PawnCaptures => game.board.get_bitboard_of(
            PieceType::Pawn,
            side,
        ) & !promotion_rank,
        MoveClass::PromotionPushes | MoveClass::PromotionCaptures => game.board.get_bitboard_of(
            PieceType::Pawn,
            side,
        ) & promotion_rank,
        MoveClass::Quiet(pt) | MoveClass::Captures(pt) => game.board.get_bitboard_of(pt, side),
    }
}

/// Appends the moves of `class` of the side to move.
fn push_class_moves(
    game: &Gamestate,
    tables: &AttackTables,
    moves: &mut Vec<Move>,
    class: MoveClass,
)
    ensures
        final(moves)@ == old(moves)@ + class_moves(
            game.board@,
            game.side_to_move,
            game.en_passant,
            class,
        ),
{
    let origins: u64 = sources_of(game, class);
    let target: u64 = en_passant_target_of(game);
    let mut rest: u64 = origins;
    let ghost mut lo: int = 0;
    let ghost start = moves@;
    let ghost p = game.board@;
    let ghost side = game.side_to_move;
    let ghost ep = game.en_passant;
    assert(moves@ =~= start + class_moves_below(p, side, ep, class, 0));
    while rest != 0
        invariant
            0 <= lo <= 64,
            p == game.board@,
            side == game.side_to_move,
            ep == game.en_passant,
            origins == sources(p, side, class),
            target == en_passant_target(p, side, ep),
            forall|i: int| #[trigger] bit(rest, i) == (bit(origins, i) && i >= lo),
            moves@ == start + class_moves_below(p, side, ep, class, lo),
        decreases 64 - lo,
    {
        let t: u8 = pop_lowest(&mut rest);
        proof {
            assert(bit(origins, t as int) && t >= lo);
            assert forall|j: int| lo <= j < t implies !bit(origins, j) by {
                assert(!bit(rest, j) || j == t);
            }
            lemma_class_moves_skip(p, side, ep, class, lo, t as int);
            lo = t + 1;
        }
        push_moves_at(game, tables, moves, class, Square::new(t), target);
        assert(moves@ =~= start + class_moves_below(p, side, ep, class, lo));
    }
    proof {
        lemma_zero_iff_empty(rest);
        assert forall|j: int| lo <= j < 64 implies !bit(origins, j) by {
            assert(!bit(rest, j));
        }
        lemma_class_moves_skip(p, side, ep, class, lo, 64);
    }
}


/// Generates the pseudo-legal moves of the side to move in a position.
pub struct MoveGen<'a> {
    game: &'a Gamestate,
    tables: &'a AttackTables,
    moves: Vec<Move>,
}

impl<'a> MoveGen<'a> {
    /// The position that the generator looks at.
    pub closed spec fn spec_game(&self) -> Gamestate {
        *self.game
    }

    /// The moves that the generator has collected.
    pub closed spec fn spec_moves(&self) -> Seq<Move> {
        self.moves@
    }

    /// A generator for `game` that looks attacks up in `tables`.
    pub fn new(game: &'a Gamestate, tables: &'a AttackTables) -> (generator: MoveGen<'a>)
        ensures
            generator.spec_game() == *game,
            generator.spec_moves() == Seq::<Move>::empty(),
    {
        MoveGen { game, tables, moves: Vec::new() }
    }

    /// The pseudo-legal moves of the side to move: for each piece the moves
    /// that its kind allows on the board as it is, and the castling moves
    /// that the rights and the squares between king and rook allow. The same
    /// position gives the same moves in the same order.
    pub fn generate_moves(&mut self) -> (moves: Vec<Move>)
        ensures
            moves@ == pseudo_legal_moves(old(self).spec_game()),
            final(self).spec_moves() == moves@,
            final(self).spec_game() == old(self).spec_game(),
    {
        self.moves.clear();
        self.generate_pawn_pushes();
        self.generate_knight_quiet_moves();
        self.generate_bishop_quiet_moves();
        self.generate_rook_quiet_moves();
        self.generate_queen_quiet_moves();
        self.generate_king_quiet_moves();
        self.generete_promotion_quiet_moves();
        self.generate_pawn_capture_moves();
        self.generate_knight_capture_moves();
        self.generate_bishop_capture_moves();
        self.generate_rook_capture_moves();
        self.generate_queen_capture_moves();
        self.generate_king_capture_moves();
        self.generate_promotion_capture_moves();
        proof {
            let g = self.spec_game();
            assert(self.moves@ =~= piece_moves(g.board@, g.side_to_move, g.en_passant));
        }
        self.generate_castling_moves();
        let mut moves: Vec<Move> = Vec::new();
        let mut i: usize = 0;
        while i < self.moves.len()
            invariant
                0 <= i <= self.moves@.len(),
                moves@ == self.moves@.subrange(0, i as int),
            decreases self.moves@.len() - i,
        {
            moves.push(self.moves[i]);
            assert(moves@ =~= self.moves@.subrange(0, i + 1));
            i += 1;
        }
        assert(moves@ =~= self.moves@);
        moves
    }

    fn generate_class(&mut self, class: MoveClass)
        ensures
            final(self).spec_game() == old(self).spec_game(),
            final(self).spec_moves() == old(self).spec_moves() + class_moves(
                old(self).spec_game().board@,
                old(self).spec_game().side_to_move,
                old(self).spec_game().en_passant,
                class,
            ),
    {
        push_class_moves(self.game, self.tables, &mut self.moves, class);
    }

    fn generate_pawn_pushes(&mut self)
        ensures
            final(self).spec_game() == old(self).spec_game(),
            final(self).spec_moves() == old(self).spec_moves() + class_moves(
                old(self).spec_game().board@,
                old(self).spec_game().side_to_move,
                old(self).spec_game().en_passant,
                MoveClass::PawnPushes,
            ),
    {
        self.generate_class(MoveClass::PawnPushes);
    }

    fn generate_knight_quiet_moves(&mut self)
        ensures
            final(self).spec_game() == old(self).spec_game(),
            final(self).spec_moves() == old(self).spec_moves() + class_moves(
                old(self).spec_game().board@,
                old(self).spec_game().side_to_move,
                old(self).spec_game().en_passant,
                MoveClass::Quiet(PieceType::Knight),
            ),
    {
        self.generate_class(MoveClass::Quiet(PieceType::Knight));
    }

    fn generate_bishop_quiet_moves(&mut self)
        ensures
            final(self).spec_game() == old(self).spec_game(),
            final(self).spec_moves() == old(self).spec_moves() + class_moves(
                old(self).spec_game().board@,
                old(self).spec_game().side_to_move,
                old(self).spec_game().en_passant,
                MoveClass::Quiet(PieceType::Bishop),
            ),
    {
        self.generate_class(MoveClass::Quiet(PieceType::Bishop));
    }

    fn generate_rook_quiet_moves(&mut self)
        ensures
            final(self).spec_game() == old(self).spec_game(),
            final(self).spec_moves() == old(self).spec_moves() + class_moves(
                old(self).spec_game().board@,
                old(self).spec_game().side_to_move,
                old(self).spec_game().en_passant,
                MoveClass::Quiet(PieceType::Rook),
            ),
    {
        self.generate_class(MoveClass::Quiet(PieceType::Rook));
    }

    fn generate_queen_quiet_moves(&mut self)
        ensures
            final(self).spec_game() == old(self).spec_game(),
            final(self).spec_moves() == old(self).spec_moves() + class_moves(
                old(self).spec_game().board@,
                old(self).spec_game().side_to_move,
                old(self).spec_game().en_passant,
                MoveClass::Quiet(PieceType::Queen),
            ),
    {
        self.generate_class(MoveClass::Quiet(PieceType::Queen));
    }

    fn generate_king_quiet_moves(&mut self)
        ensures
            final(self).spec_game() == old(self).spec_game(),
            final(self).spec_moves() == old(self).spec_moves() + class_moves(
                old(self).spec_game().board@,
                old(self).spec_game().side_to_move,
                old(self).spec_game().en_passant,
                MoveClass::Quiet(PieceType::King),
            ),
    {
        self.generate_class(MoveClass::Quiet(PieceType::King));
    }

    fn generete_promotion_quiet_moves(&mut self)
        ensures
            final(self).spec_game() == old(self).spec_game(),
            final(self).spec_moves() == old(self).spec_moves() + class_moves(
                old(self).spec_game().board@,
                old(self).spec_game().side_to_move,
                old(self).spec_game().en_passant,
                MoveClass::PromotionPushes,
            ),
    {
        self.generate_class(MoveClass::PromotionPushes);
    }

    fn generate_pawn_capture_moves(&mut self)
        ensures
            final(self).spec_game() == old(self).spec_game(),
            final(self).spec_moves() == old(self).spec_moves() + class_moves(
                old(self).spec_game().board@,
                old(self).spec_game().side_to_move,
                old(self).spec_game().en_passant,
                MoveClass::PawnCaptures,
            ),
    {
        self.generate_class(MoveClass::PawnCaptures);
    }

    fn generate_knight_capture_moves(&mut self)
        ensures
            final(self).spec_game() == old(self).spec_game(),
            final(self).spec_moves() == old(self).spec_moves() + class_moves(
                old(self).spec_game().board@,
                old(self).spec_game().side_to_move,
                old(self).spec_game().en_passant,
                MoveClass::Captures(PieceType::Knight),
            ),
    {
        self.generate_class(MoveClass::Captures(PieceType::Knight));
    }

    fn generate_bishop_capture_moves(&mut self)
        ensures
            final(self).spec_game() == old(self).spec_game(),
            final(self).spec_moves() == old(self).spec_moves() + class_moves(
                old(self).spec_game().board@,
                old(self).spec_game().side_to_move,
                old(self).spec_game().en_passant,
                MoveClass::Captures(PieceType::Bishop),
            ),
    {
        self.generate_class(MoveClass::Captures(PieceType::Bishop));
    }

    fn generate_rook_capture_moves(&mut self)
        ensures
            final(self).spec_game() == old(self).spec_game(),
            final(self).spec_moves() == old(self).spec_moves() + class_moves(
                old(self).spec_game().board@,
                old(self).spec_game().side_to_move,
                old(self).spec_game().en_passant,
                MoveClass::Captures(PieceType::Rook),
            ),
    {
        self.generate_class(MoveClass::Captures(PieceType::Rook));
    }

    fn generate_queen_capture_moves(&mut self)
        ensures
            final(self).spec_game() == old(self).spec_game(),
            final(self).spec_moves() == old(self).spec_moves() + class_moves(
                old(self).spec_game().board@,
                old(self).spec_game().side_to_move,
                old(self).spec_game().en_passant,
                MoveClass::Captures(PieceType::Queen),
            ),
    {
        self.generate_class(MoveClass::Captures(PieceType::Queen));
    }

    fn generate_king_capture_moves(&mut self)
        ensures
            final(self).spec_game() == old(self).spec_game(),
            final(self).spec_moves() == old(self).spec_moves() + class_moves(
                old(self).spec_game().board@,
                old(self).spec_game().side_to_move,
                old(self).spec_game().en_passant,
                MoveClass::Captures(PieceType::King),
            ),
    {
        self.generate_class(MoveClass::Captures(PieceType::King));
    }

    fn generate_promotion_capture_moves(&mut self)
        ensures
            final(self).spec_game() == old(self).spec_game(),
            final(self).spec_moves() == old(self).spec_moves() + class_moves(
                old(self).spec_game().board@,
                old(self).spec_game().side_to_move,
                old(self).spec_game().en_passant,
                MoveClass::PromotionCaptures,
            ),
    {
        self.generate_class(MoveClass::PromotionCaptures);
    }

    /// Appends the castling moves. The rights are trusted: whether king and
    /// rook stand on their starting squares is not looked at, only whether
    /// the squares between them are empty.
    fn generate_castling_moves(&mut self)
        ensures
            final(self).spec_game() == old(self).spec_game(),
            final(self).spec_moves() == old(self).spec_moves() + castling_moves(
                old(self).spec_game().board@,
                old(self).spec_game().side_to_move,
                old(self).spec_game().castling_rights,
            ),
    {
        let rights: CastlingRights = self.game.castling_rights;
        let side: Side = self.game.side_to_move;
        let ghost start = self.moves@;
        let ghost p = self.game.board@;
        if !rights.can_castle(side) {
            assert(self.moves@ =~= start + castling_moves(p, side, rights));
            return ;
        }
        let combined_occupancy: u64 = self.game.board.get_combined_occupancy();
        let king_start: u8 = CASTLING_KING_START_INDEX[side.to_index()];
        proof {
            lemma_castling_gaps();
        }
        if rights.can_castle_kingside(side) {
            let gap: u64 = CASTLING_KINGSIDE_OCCUPANCY_MASK[side.to_index()];
            let empty_mask: u64 = gap & combined_occupancy;
            proof {
                lemma_bit_and(gap, combined_occupancy);
                lemma_zero_iff_empty(empty_mask);
                let base = king_start - 4;
                if castling_gap_empty(p, side, true) {
                    assert forall|i: int| 0 <= i < 64 implies !bit(empty_mask, i) by {
                    }
                } else {
                    assert(bit(empty_mask, base + 5) || bit(empty_mask, base + 6));
                }
            }
            if empty_mask == 0 {
                let king_end: u8 = CASTLING_KING_KINGSIDE_END_INDEX[side.to_index()];
                self.moves.push(
                    Move::encode(
                        Square::new(king_start),
                        Square::new(king_end),
                        MoveFlags::KingCastle,
                    ),
                );
            }
        }
        let ghost middle = self.moves@;
        if rights.can_castle_queenside(side) {
            let gap: u64 = CASTLING_QUEENSIDE_OCCUPANCY_MASK[side.to_index()];
            let empty_mask: u64 = gap & combined_occupancy;
            proof {
                lemma_bit_and(gap, combined_occupancy);
                lemma_zero_iff_empty(empty_mask);
                let base = king_start - 4;
                if castling_gap_empty(p, side, false) {
                    assert forall|i: int| 0 <= i < 64 implies !bit(empty_mask, i) by {
                    }
                } else {
                    assert(bit(empty_mask, base + 1) || bit(empty_mask, base + 2) || bit(
                        empty_mask,
                        base + 3,
                    ));
                }
            }
            if empty_mask == 0 {
                let king_end: u8 = CASTLING_KING_QUEENSIDE_END_INDEX[side.to_index()];
                self.moves.push(
                    Move::encode(
                        Square::new(king_start),
                        Square::new(king_end),
                        MoveFlags::QueenCastle,
                    ),
                );
            }
        }
        assert(self.moves@ =~= start + castling_moves(p, side, rights));
    }
}

} // verus!
