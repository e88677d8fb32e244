//! What holds of the generated moves: which moves are generated, that
//! they can be applied, and that the incremental hash update is right for
//! them.

use vstd::prelude::*;
use vstd::std_specs::bits::axiom_u8_trailing_zeros;
use crate::bits::{
    bit, lemma_bit_and, lemma_bit_not, lemma_bit_or, lemma_bit_single, lemma_bit_zero,
    lemma_zero_iff_empty,
};
use crate::gamestate::{
    Gamestate, castling_consistent, castling_pieces_at_home, effect_of, effect_on,
    en_passant_victim, follows, lemma_incremental_update,
};
use crate::gamestate::board::{
    PieceType, Side, file_of, lemma_occupant, lemma_occupied_sides, lemma_side_union, occupied,
    rank_of, side_occupied, side_union, spec_piece_index, square_at, valid_pieces,
};
use crate::gamestate::castling_rights::CastlingRights;
use crate::gamestate::chess_move::{Move, MoveFlags};
use crate::gamestate::zobrist::{ZobristKeys, en_passant_file, incremental_hash, spec_hash};
use crate::movegen::{
    MoveClass, all_occupied, attacks_spec, castling_moves, class_moves, class_moves_below,
    en_passant_rank, en_passant_target, king_castling_end, king_start, moves_at, moves_to,
    moves_to_below, piece_moves, promotion_rank_mask, promotions, promotions_to_below,
    pseudo_legal_moves, sources,
};
use crate::movegen::constants::lemma_rank_masks;
use crate::movegen::masks::{
    forward, home_rank, king_reach, knight_reach, last_rank, lemma_attack_sets, pawn_attack_reach,
    pawn_attacks_spec, pawn_double_push_spec, pawn_push_spec,
};
use crate::movegen::sliders::{bishop_reach, lemma_slider_attack_sets, queen_reach, rook_reach};

verus! {

/// Whether `m` is a move that can be applied to the position with piece
/// bitboards `p`, side to move `side` and castling rights `rights`.
pub open spec fn applies(p: Seq<u64>, side: Side, rights: CastlingRights, m: Move) -> bool {
    &&& m.well_formed()
    &&& effect_on(p, side, rights, m.spec_from(), m.spec_to(), m.spec_flags()) is Ok
}

/// If the move to each square of `targets` can be applied, every move of
/// the list can.
pub proof fn lemma_moves_to_apply(
    p: Seq<u64>,
    side: Side,
    rights: CastlingRights,
    from: int,
    targets: u64,
    flags: MoveFlags,
    n: int,
)
    requires
        n <= 64,
        forall|t: int|
            0 <= t < 64 && bit(targets, t) ==> applies(
                p,
                side,
                rights,
                #[trigger] Move::spec_encode(from, t, flags),
            ),
    ensures
        forall|j: int|
            0 <= j < moves_to_below(from, targets, flags, n).len() ==> applies(
                p,
                side,
                rights,
                #[trigger] moves_to_below(from, targets, flags, n)[j],
            ),
    decreases n,
{
    if n > 0 {
        lemma_moves_to_apply(p, side, rights, from, targets, flags, n - 1);
        let before = moves_to_below(from, targets, flags, n - 1);
        let all = moves_to_below(from, targets, flags, n);
        if bit(targets, n - 1) {
            assert(all == before.push(Move::spec_encode(from, n - 1, flags)));
            assert forall|j: int| 0 <= j < all.len() implies applies(
                p,
                side,
                rights,
                #[trigger] all[j],
            ) by {
                if j < before.len() {
                    assert(all[j] == before[j]);
                } else {
                    assert(all[j] == Move::spec_encode(from, n - 1, flags));
                }
            }
        } else {
            assert(all == before);
        }
    }
}

/// If the promotions to each square of `targets` can be applied, every move
/// of the list can.
pub proof fn lemma_promotions_to_apply(
    p: Seq<u64>,
    side: Side,
    rights: CastlingRights,
    from: int,
    targets: u64,
    capture: bool,
    n: int,
)
    requires
        n <= 64,
        forall|t: int, j: int|
            0 <= t < 64 && bit(targets, t) && 0 <= j < 4 ==> applies(
                p,
                side,
                rights,
                #[trigger] promotions(from, t, capture)[j],
            ),
    ensures
        forall|j: int|
            0 <= j < promotions_to_below(from, targets, capture, n).len() ==> applies(
                p,
                side,
                rights,
                #[trigger] promotions_to_below(from, targets, capture, n)[j],
            ),
    decreases n,
{
    if n > 0 {
        lemma_promotions_to_apply(p, side, rights, from, targets, capture, n - 1);
        let all = promotions_to_below(from, targets, capture, n);
        if bit(targets, n - 1) {
            let before = promotions_to_below(from, targets, capture, n - 1);
            let here = promotions(from, n - 1, capture);
            assert(all == before + here);
            assert(here.len() == 4);
            assert forall|j: int| 0 <= j < all.len() implies applies(
                p,
                side,
                rights,
                #[trigger] all[j],
            ) by {
                if j >= before.len() {
                    assert(all[j] == here[j - before.len()]);
                    assert(applies(p, side, rights, promotions(from, n - 1, capture)[j - before.len()]));
                } else {
                    assert(all[j] == before[j]);
                }
            }
        } else {
            assert(all == promotions_to_below(from, targets, capture, n - 1));
        }
    }
}

/// If the moves from each source of `class` can be applied, every move of
/// the class can.
pub proof fn lemma_class_moves_apply(
    p: Seq<u64>,
    side: Side,
    en_passant: u8,
    rights: CastlingRights,
    class: MoveClass,
    n: int,
)
    requires
        n <= 64,
        forall|s: int, j: int|
            0 <= s < 64 && bit(sources(p, side, class), s) && 0 <= j < moves_at(
                p,
                side,
                en_passant,
                class,
                s,
            ).len() ==> applies(p, side, rights, #[trigger] moves_at(p, side, en_passant, class, s)[j]),
    ensures
        forall|j: int|
            0 <= j < class_moves_below(p, side, en_passant, class, n).len() ==> applies(
                p,
                side,
                rights,
                #[trigger] class_moves_below(p, side, en_passant, class, n)[j],
            ),
    decreases n,
{
    if n > 0 {
        lemma_class_moves_apply(p, side, en_passant, rights, class, n - 1);
        let all = class_moves_below(p, side, en_passant, class, n);
        if bit(sources(p, side, class), n - 1) {
            let before = class_moves_below(p, side, en_passant, class, n - 1);
            let here = moves_at(p, side, en_passant, class, n - 1);
            assert(all == before + here);
            assert forall|j: int| 0 <= j < all.len() implies applies(
                p,
                side,
                rights,
                #[trigger] all[j],
            ) by {
                if j >= before.len() {
                    assert(all[j] == here[j - before.len()]);
                    assert(applies(
                        p,
                        side,
                        rights,
                        moves_at(p, side, en_passant, class, n - 1)[j - before.len()],
                    ));
                } else {
                    assert(all[j] == before[j]);
                }
            }
        } else {
            assert(all == class_moves_below(p, side, en_passant, class, n - 1));
        }
    }
}

/// What the occupancy sets of a board with disjoint bitboards hold.
pub proof fn lemma_occupancy_sets(p: Seq<u64>, side: Side)
    requires
        valid_pieces(p),
    ensures
        forall|t: int| #[trigger] bit(all_occupied(p), t) == occupied(p, t),
        forall|t: int|
            0 <= t < 64 ==> #[trigger] bit(!all_occupied(p), t) == !occupied(p, t),
        forall|t: int| #[trigger]
            bit(side_union(p, side.other().index()), t) == side_occupied(
                p,
                side.other().index(),
                t,
            ),
{
    lemma_side_union(p, 0);
    lemma_side_union(p, 1);
    lemma_bit_or(side_union(p, 0), side_union(p, 1));
    lemma_bit_not(all_occupied(p));
    assert forall|t: int| #[trigger] bit(all_occupied(p), t) == occupied(p, t) by {
        lemma_occupied_sides(p, t);
    }
}

/// A move to an empty square by the piece of the side to move on `s` can be
/// applied, whatever its kind among the quiet ones, if the piece is of the
/// kind that the move needs.
pub proof fn lemma_quiet_applies(
    p: Seq<u64>,
    side: Side,
    rights: CastlingRights,
    pt: PieceType,
    s: int,
    t: int,
    flags: MoveFlags,
)
    requires
        valid_pieces(p),
        0 <= s < 64,
        0 <= t < 64,
        bit(p[spec_piece_index(pt, side)], s),
        !occupied(p, t),
        !flags.captures(),
        !flags.castles(),
        flags != MoveFlags::Quiet ==> pt == PieceType::Pawn,
    ensures
        applies(p, side, rights, Move::spec_encode(s, t, flags)),
{
    Move::lemma_decode_encode(s, t, flags);
    lemma_occupant(p, spec_piece_index(pt, side), s);
}

/// A move that takes the piece of the other side on `t` by the piece of the
/// side to move on `s` can be applied, if the piece is of the kind that the
/// move needs.
pub proof fn lemma_capture_applies(
    p: Seq<u64>,
    side: Side,
    rights: CastlingRights,
    pt: PieceType,
    s: int,
    t: int,
    flags: MoveFlags,
)
    requires
        valid_pieces(p),
        0 <= s < 64,
        0 <= t < 64,
        bit(p[spec_piece_index(pt, side)], s),
        side_occupied(p, side.other().index(), t),
        flags.captures(),
        flags != MoveFlags::EpCapture,
        flags != MoveFlags::Capture ==> pt == PieceType::Pawn,
    ensures
        applies(p, side, rights, Move::spec_encode(s, t, flags)),
{
    Move::lemma_decode_encode(s, t, flags);
    lemma_occupant(p, spec_piece_index(pt, side), s);
    let o = side.other().index();
    let k = choose|k: int| o * 6 <= k < o * 6 + 6 && #[trigger] bit(p[k], t);
    lemma_occupant(p, k, t);
}

/// The moves that the generator gives for the piece on a source square can
/// be applied.
pub proof fn lemma_moves_at_apply(
    p: Seq<u64>,
    side: Side,
    en_passant: u8,
    rights: CastlingRights,
    class: MoveClass,
    s: int,
)
    requires
        valid_pieces(p),
        0 <= s < 64,
        bit(sources(p, side, class), s),
    ensures
        forall|j: int|
            0 <= j < moves_at(p, side, en_passant, class, s).len() ==> applies(
                p,
                side,
                rights,
                #[trigger] moves_at(p, side, en_passant, class, s)[j],
            ),
{
    let occupancy = all_occupied(p);
    let theirs = side_union(p, side.other().index());
    let pawns = p[spec_piece_index(PieceType::Pawn, side)];
    lemma_occupancy_sets(p, side);
    lemma_attack_sets(side, s);
    lemma_attack_sets(side, file_of(s));
    lemma_slider_attack_sets(occupancy, s);
    lemma_bit_and(pawns, promotion_rank_mask(side));
    lemma_bit_and(pawns, !promotion_rank_mask(side));
    lemma_bit_zero();
    match class {
        MoveClass::PawnPushes => {
            let single = pawn_push_spec(side, s) & !occupancy;
            let double = pawn_double_push_spec(side, file_of(s)) & !occupancy;
            lemma_bit_and(pawn_push_spec(side, s), !occupancy);
            lemma_bit_and(pawn_double_push_spec(side, file_of(s)), !occupancy);
            assert forall|t: int| 0 <= t < 64 && bit(single, t) implies applies(
                p,
                side,
                rights,
                #[trigger] Move::spec_encode(s, t, MoveFlags::Quiet),
            ) by {
                lemma_quiet_applies(p, side, rights, PieceType::Pawn, s, t, MoveFlags::Quiet);
            }
            lemma_moves_to_apply(p, side, rights, s, single, MoveFlags::Quiet, 64);
            assert forall|t: int| 0 <= t < 64 && bit(double, t) implies applies(
                p,
                side,
                rights,
                #[trigger] Move::spec_encode(s, t, MoveFlags::DoublePawnPush),
            ) by {
                lemma_quiet_applies(
                    p,
                    side,
                    rights,
                    PieceType::Pawn,
                    s,
                    t,
                    MoveFlags::DoublePawnPush,
                );
            }
            lemma_moves_to_apply(p, side, rights, s, double, MoveFlags::DoublePawnPush, 64);
        },
        MoveClass::Quiet(pt) => {
            let targets = attacks_spec(pt, occupancy, s) & !occupancy;
            lemma_bit_and(attacks_spec(pt, occupancy, s), !occupancy);
            assert forall|t: int| 0 <= t < 64 && bit(targets, t) implies applies(
                p,
                side,
                rights,
                #[trigger] Move::spec_encode(s, t, MoveFlags::Quiet),
            ) by {
                lemma_quiet_applies(p, side, rights, pt, s, t, MoveFlags::Quiet);
            }
            lemma_moves_to_apply(p, side, rights, s, targets, MoveFlags::Quiet, 64);
        },
        MoveClass::PromotionPushes => {
            let single = pawn_push_spec(side, s) & !occupancy;
            lemma_bit_and(pawn_push_spec(side, s), !occupancy);
            assert forall|t: int, j: int|
                0 <= t < 64 && bit(single, t) && 0 <= j < 4 implies applies(
                p,
                side,
                rights,
                #[trigger] promotions(s, t, false)[j],
            ) by {
                lemma_quiet_applies(
                    p,
                    side,
                    rights,
                    PieceType::Pawn,
                    s,
                    t,
                    MoveFlags::KnightPromotion,
                );
                lemma_quiet_applies(
                    p,
                    side,
                    rights,
                    PieceType::Pawn,
                    s,
                    t,
                    MoveFlags::BishopPromotion,
                );
                lemma_quiet_applies(
                    p,
                    side,
                    rights,
                    PieceType::Pawn,
                    s,
                    t,
                    MoveFlags::RookPromotion,
                );
                lemma_quiet_applies(
                    p,
                    side,
                    rights,
                    PieceType::Pawn,
                    s,
                    t,
                    MoveFlags::QueenPromotion,
                );
            }
            lemma_promotions_to_apply(p, side, rights, s, single, false, 64);
        },
        MoveClass::PawnCaptures => {
            let attacks = pawn_attacks_spec(side, s);
            let target = en_passant_target(p, side, en_passant);
            lemma_bit_and(attacks, theirs);
            lemma_bit_and(attacks, target);
            assert forall|t: int| 0 <= t < 64 && bit(attacks & theirs, t) implies applies(
                p,
                side,
                rights,
                #[trigger] Move::spec_encode(s, t, MoveFlags::Capture),
            ) by {
                lemma_capture_applies(p, side, rights, PieceType::Pawn, s, t, MoveFlags::Capture);
            }
            lemma_moves_to_apply(p, side, rights, s, attacks & theirs, MoveFlags::Capture, 64);
            assert forall|t: int| 0 <= t < 64 && bit(attacks & target, t) implies applies(
                p,
                side,
                rights,
                #[trigger] Move::spec_encode(s, t, MoveFlags::EpCapture),
            ) by {
                Move::lemma_decode_encode(s, t, MoveFlags::EpCapture);
                lemma_occupant(p, spec_piece_index(PieceType::Pawn, side), s);
                if en_passant != 0 {
                    let e = square_at(en_passant_file(en_passant), en_passant_rank(side));
                    axiom_u8_trailing_zeros(en_passant);
                    lemma_bit_single(e);
                }
            }
            lemma_moves_to_apply(p, side, rights, s, attacks & target, MoveFlags::EpCapture, 64);
            let first = moves_to(s, attacks & theirs, MoveFlags::Capture);
            let second = moves_to(s, attacks & target, MoveFlags::EpCapture);
            assert forall|j: int| 0 <= j < (first + second).len() implies applies(
                p,
                side,
                rights,
                #[trigger] (first + second)[j],
            ) by {
                if j >= first.len() {
                    assert((first + second)[j] == second[j - first.len()]);
                }
            }
        },
        MoveClass::Captures(pt) => {
            let targets = attacks_spec(pt, occupancy, s) & theirs;
            lemma_bit_and(attacks_spec(pt, occupancy, s), theirs);
            assert forall|t: int| 0 <= t < 64 && bit(targets, t) implies applies(
                p,
                side,
                rights,
                #[trigger] Move::spec_encode(s, t, MoveFlags::Capture),
            ) by {
                lemma_capture_applies(p, side, rights, pt, s, t, MoveFlags::Capture);
            }
            lemma_moves_to_apply(p, side, rights, s, targets, MoveFlags::Capture, 64);
        },
        MoveClass::PromotionCaptures => {
            let targets = pawn_attacks_spec(side, s) & theirs;
            lemma_bit_and(pawn_attacks_spec(side, s), theirs);
            assert forall|t: int, j: int|
                0 <= t < 64 && bit(targets, t) && 0 <= j < 4 implies applies(
                p,
                side,
                rights,
                #[trigger] promotions(s, t, true)[j],
            ) by {
                lemma_capture_applies(
                    p,
                    side,
                    rights,
                    PieceType::Pawn,
                    s,
                    t,
                    MoveFlags::KnightPromoCapture,
                );
                lemma_capture_applies(
                    p,
                    side,
                    rights,
                    PieceType::Pawn,
                    s,
                    t,
                    MoveFlags::BishopPromoCapture,
                );
                lemma_capture_applies(
                    p,
                    side,
                    rights,
                    PieceType::Pawn,
                    s,
                    t,
                    MoveFlags::RookPromoCapture,
                );
                lemma_capture_applies(
                    p,
                    side,
                    rights,
                    PieceType::Pawn,
                    s,
                    t,
                    MoveFlags::QueenPromoCapture,
                );
            }
            lemma_promotions_to_apply(p, side, rights, s, targets, true, 64);
        },
    }
    if class == MoveClass::PawnPushes {
        let single = pawn_push_spec(side, s) & !occupancy;
        let double = pawn_double_push_spec(side, file_of(s)) & !occupancy;
        let first = moves_to(s, single, MoveFlags::Quiet);
        let second = if single != 0 && rank_of(s) == home_rank(side) {
            moves_to(s, double, MoveFlags::DoublePawnPush)
        } else {
            Seq::empty()
        };
        assert forall|j: int| 0 <= j < (first + second).len() implies applies(
            p,
            side,
            rights,
            #[trigger] (first + second)[j],
        ) by {
            if j >= first.len() {
                assert((first + second)[j] == second[j - first.len()]);
            }
        }
    }
}

/// The moves of a class can be applied.
pub proof fn lemma_class_applies(
    p: Seq<u64>,
    side: Side,
    en_passant: u8,
    rights: CastlingRights,
    class: MoveClass,
)
    requires
        valid_pieces(p),
    ensures
        forall|j: int|
            0 <= j < class_moves(p, side, en_passant, class).len() ==> applies(
                p,
                side,
                rights,
                #[trigger] class_moves(p, side, en_passant, class)[j],
            ),
{
    assert forall|s: int, j: int|
        0 <= s < 64 && bit(sources(p, side, class), s) && 0 <= j < moves_at(
            p,
            side,
            en_passant,
            class,
            s,
        ).len() implies applies(
        p,
        side,
        rights,
        #[trigger] moves_at(p, side, en_passant, class, s)[j],
    ) by {
        lemma_moves_at_apply(p, side, en_passant, rights, class, s);
    }
    lemma_class_moves_apply(p, side, en_passant, rights, class, 64);
}

/// If every move of two lists can be applied, every move of the two
/// together can.
pub proof fn lemma_concat_applies(
    p: Seq<u64>,
    side: Side,
    rights: CastlingRights,
    first: Seq<Move>,
    second: Seq<Move>,
)
    requires
        forall|j: int| 0 <= j < first.len() ==> applies(p, side, rights, #[trigger] first[j]),
        forall|j: int| 0 <= j < second.len() ==> applies(p, side, rights, #[trigger] second[j]),
    ensures
        forall|j: int|
            0 <= j < (first + second).len() ==> applies(p, side, rights, #[trigger] (first + second)[j]),
{
    assert forall|j: int| 0 <= j < (first + second).len() implies applies(
        p,
        side,
        rights,
        #[trigger] (first + second)[j],
    ) by {
        if j >= first.len() {
            assert((first + second)[j] == second[j - first.len()]);
        } else {
            assert((first + second)[j] == first[j]);
        }
    }
}

/// Every generated move can be applied to the position it was generated
/// from, provided the castling rights of the position are backed by its
/// board.
pub proof fn lemma_generated_moves_apply(game: Gamestate, i: int)
    requires
        game.board.well_formed(),
        castling_consistent(game),
        0 <= i < pseudo_legal_moves(game).len(),
    ensures
        pseudo_legal_moves(game)[i].well_formed(),
        effect_of(game, pseudo_legal_moves(game)[i]) is Ok,
{
    game.board.lemma_well_formed();
    let p = game.board@;
    let side = game.side_to_move;
    let ep = game.en_passant;
    let rights = game.castling_rights;
    let c0 = class_moves(p, side, ep, MoveClass::PawnPushes);
    let c1 = class_moves(p, side, ep, MoveClass::Quiet(PieceType::Knight));
    let c2 = class_moves(p, side, ep, MoveClass::Quiet(PieceType::Bishop));
    let c3 = class_moves(p, side, ep, MoveClass::Quiet(PieceType::Rook));
    let c4 = class_moves(p, side, ep, MoveClass::Quiet(PieceType::Queen));
    let c5 = class_moves(p, side, ep, MoveClass::Quiet(PieceType::King));
    let c6 = class_moves(p, side, ep, MoveClass::PromotionPushes);
    let c7 = class_moves(p, side, ep, MoveClass::PawnCaptures);
    let c8 = class_moves(p, side, ep, MoveClass::Captures(PieceType::Knight));
    let c9 = class_moves(p, side, ep, MoveClass::Captures(PieceType::Bishop));
    let c10 = class_moves(p, side, ep, MoveClass::Captures(PieceType::Rook));
    let c11 = class_moves(p, side, ep, MoveClass::Captures(PieceType::Queen));
    let c12 = class_moves(p, side, ep, MoveClass::Captures(PieceType::King));
    let c13 = class_moves(p, side, ep, MoveClass::PromotionCaptures);
    lemma_class_applies(p, side, ep, rights, MoveClass::PawnPushes);
    lemma_class_applies(p, side, ep, rights, MoveClass::Quiet(PieceType::Knight));
    lemma_class_applies(p, side, ep, rights, MoveClass::Quiet(PieceType::Bishop));
    lemma_class_applies(p, side, ep, rights, MoveClass::Quiet(PieceType::Rook));
    lemma_class_applies(p, side, ep, rights, MoveClass::Quiet(PieceType::Queen));
    lemma_class_applies(p, side, ep, rights, MoveClass::Quiet(PieceType::King));
    lemma_class_applies(p, side, ep, rights, MoveClass::PromotionPushes);
    lemma_class_applies(p, side, ep, rights, MoveClass::PawnCaptures);
    lemma_class_applies(p, side, ep, rights, MoveClass::Captures(PieceType::Knight));
    lemma_class_applies(p, side, ep, rights, MoveClass::Captures(PieceType::Bishop));
    lemma_class_applies(p, side, ep, rights, MoveClass::Captures(PieceType::Rook));
    lemma_class_applies(p, side, ep, rights, MoveClass::Captures(PieceType::Queen));
    lemma_class_applies(p, side, ep, rights, MoveClass::Captures(PieceType::King));
    lemma_class_applies(p, side, ep, rights, MoveClass::PromotionCaptures);
    lemma_concat_applies(p, side, rights, c0, c1);
    lemma_concat_applies(p, side, rights, c0 + c1, c2);
    lemma_concat_applies(p, side, rights, c0 + c1 + c2, c3);
    lemma_concat_applies(p, side, rights, c0 + c1 + c2 + c3, c4);
    lemma_concat_applies(p, side, rights, c0 + c1 + c2 + c3 + c4, c5);
    lemma_concat_applies(p, side, rights, c0 + c1 + c2 + c3 + c4 + c5, c6);
    lemma_concat_applies(p, side, rights, c0 + c1 + c2 + c3 + c4 + c5 + c6, c7);
    lemma_concat_applies(p, side, rights, c0 + c1 + c2 + c3 + c4 + c5 + c6 + c7, c8);
    lemma_concat_applies(p, side, rights, c0 + c1 + c2 + c3 + c4 + c5 + c6 + c7 + c8, c9);
    lemma_concat_applies(p, side, rights, c0 + c1 + c2 + c3 + c4 + c5 + c6 + c7 + c8 + c9, c10);
    lemma_concat_applies(
        p,
        side,
        rights,
        c0 + c1 + c2 + c3 + c4 + c5 + c6 + c7 + c8 + c9 + c10,
        c11,
    );
    lemma_concat_applies(
        p,
        side,
        rights,
        c0 + c1 + c2 + c3 + c4 + c5 + c6 + c7 + c8 + c9 + c10 + c11,
        c12,
    );
    lemma_concat_applies(
        p,
        side,
        rights,
        c0 + c1 + c2 + c3 + c4 + c5 + c6 + c7 + c8 + c9 + c10 + c11 + c12,
        c13,
    );
    lemma_castling_applies(game);
    lemma_concat_applies(p, side, rights, piece_moves(p, side, ep), castling_moves(p, side, rights));
    assert(applies(p, side, rights, pseudo_legal_moves(game)[i]));
}

/// For every generated move, the incremental update gives the hash of the
/// position after the move: if the hash of `game` is right and its castling
/// rights are backed by its board, and `next` is what the `i`-th generated
/// move makes of `game`, then `incremental_hash` is the hash of `next`.
pub proof fn lemma_generated_move_hash(keys: ZobristKeys, game: Gamestate, i: int, next: Gamestate)
    requires
        game.board.well_formed(),
        castling_consistent(game),
        game.zobrist_key == spec_hash(keys, game),
        0 <= i < pseudo_legal_moves(game).len(),
        effect_of(game, pseudo_legal_moves(game)[i]) matches Ok(e) ==> follows(game, e, next),
    ensures
        effect_of(game, pseudo_legal_moves(game)[i]) matches Ok(e) && incremental_hash(
            keys,
            game.zobrist_key,
            game.castling_rights.spec_bits(),
            game.en_passant,
            e,
        ) == spec_hash(keys, next),
{
    lemma_generated_moves_apply(game, i);
    lemma_incremental_update(keys, game, pseudo_legal_moves(game)[i], next);
}

/// The castling moves that the generator gives can be applied, provided the
/// castling rights of the position are backed by its board.
pub proof fn lemma_castling_applies(game: Gamestate)
    requires
        game.board.well_formed(),
        castling_consistent(game),
    ensures
        forall|j: int|
            0 <= j < castling_moves(
                game.board@,
                game.side_to_move,
                game.castling_rights,
            ).len() ==> applies(
                game.board@,
                game.side_to_move,
                game.castling_rights,
                #[trigger] castling_moves(
                    game.board@,
                    game.side_to_move,
                    game.castling_rights,
                )[j],
            ),
{
    game.board.lemma_well_formed();
    let p = game.board@;
    let side = game.side_to_move;
    let rights = game.castling_rights;
    let from = king_start(side);
    let king = spec_piece_index(PieceType::King, side);
    Move::lemma_decode_encode(from, king_castling_end(side, true), MoveFlags::KingCastle);
    Move::lemma_decode_encode(from, king_castling_end(side, false), MoveFlags::QueenCastle);
    if rights.spec_rights(side).kingside() {
        assert(castling_pieces_at_home(p, side, true));
        lemma_occupant(p, king, from);
    }
    if rights.spec_rights(side).queenside() {
        assert(castling_pieces_at_home(p, side, false));
        lemma_occupant(p, king, from);
    }
}


/// The moves of the list are the moves to the squares of `targets` below
/// `n`.
pub proof fn lemma_moves_to_contains(from: int, targets: u64, flags: MoveFlags, n: int, m: Move)
    requires
        0 <= n <= 64,
    ensures
        moves_to_below(from, targets, flags, n).contains(m) <==> exists|t: int|
            0 <= t < n && bit(targets, t) && m == #[trigger] Move::spec_encode(from, t, flags),
    decreases n,
{
    let all = moves_to_below(from, targets, flags, n);
    if n > 0 {
        lemma_moves_to_contains(from, targets, flags, n - 1, m);
        let before = moves_to_below(from, targets, flags, n - 1);
        let last = Move::spec_encode(from, n - 1, flags);
        if bit(targets, n - 1) {
            assert(all == before.push(last));
            if all.contains(m) {
                let i = choose|i: int| 0 <= i < all.len() && all[i] == m;
                if i < before.len() {
                    assert(before[i] == m);
                    assert(before.contains(m));
                } else {
                    assert(m == last);
                }
            }
            if before.contains(m) {
                let i = choose|i: int| 0 <= i < before.len() && before[i] == m;
                assert(all[i] == m);
            }
            if m == last {
                assert(all[before.len() as int] == m);
            }
        } else {
            assert(all == before);
        }
    }
}

/// A move is in two lists put together when it is in one of them.
pub proof fn lemma_concat_contains(first: Seq<Move>, second: Seq<Move>, m: Move)
    ensures
        (first + second).contains(m) <==> first.contains(m) || second.contains(m),
{
    let all = first + second;
    if all.contains(m) {
        let i = choose|i: int| 0 <= i < all.len() && all[i] == m;
        if i < first.len() {
            assert(first[i] == m);
        } else {
            assert(second[i - first.len()] == m);
        }
    }
    if first.contains(m) {
        let i = choose|i: int| 0 <= i < first.len() && first[i] == m;
        assert(all[i] == m);
    }
    if second.contains(m) {
        let i = choose|i: int| 0 <= i < second.len() && second[i] == m;
        assert(all[first.len() + i] == m);
    }
}

/// The moves of a class are the moves from its sources.
pub proof fn lemma_class_moves_contains(
    p: Seq<u64>,
    side: Side,
    en_passant: u8,
    class: MoveClass,
    n: int,
    m: Move,
)
    requires
        0 <= n <= 64,
    ensures
        class_moves_below(p, side, en_passant, class, n).contains(m) <==> exists|s: int|
            0 <= s < n && bit(sources(p, side, class), s) && (#[trigger] moves_at(
                p,
                side,
                en_passant,
                class,
                s,
            )).contains(m),
    decreases n,
{
    let all = class_moves_below(p, side, en_passant, class, n);
    if n > 0 {
        lemma_class_moves_contains(p, side, en_passant, class, n - 1, m);
        let before = class_moves_below(p, side, en_passant, class, n - 1);
        let here = moves_at(p, side, en_passant, class, n - 1);
        if bit(sources(p, side, class), n - 1) {
            assert(all == before + here);
            lemma_concat_contains(before, here, m);
            if here.contains(m) {
                assert(moves_at(p, side, en_passant, class, n - 1).contains(m));
            }
        } else {
            assert(all == before);
        }
    }
}

/// Whether a piece of kind `pt` on `s` reaches `t` when the occupied squares
/// are `occupancy`. Pawns are not handled here.
pub open spec fn piece_reach(pt: PieceType, occupancy: u64, s: int, t: int) -> bool {
    match pt {
        PieceType::Pawn => false,
        PieceType::Knight => knight_reach(s, t),
        PieceType::Bishop => bishop_reach(occupancy, s, t),
        PieceType::Rook => rook_reach(occupancy, s, t),
        PieceType::Queen => queen_reach(occupancy, s, t),
        PieceType::King => king_reach(s, t),
    }
}

/// The attack set of a piece holds the squares that the piece reaches.
pub proof fn lemma_attacks_spec(pt: PieceType, occupancy: u64, s: int)
    ensures
        forall|t: int| #[trigger]
            bit(attacks_spec(pt, occupancy, s), t) == piece_reach(pt, occupancy, s, t),
{
    lemma_attack_sets(Side::White, s);
    lemma_slider_attack_sets(occupancy, s);
    lemma_bit_zero();
}

/// A move of a piece other than a pawn to an empty square is generated
/// exactly when a piece of its kind of the side to move stands on its
/// origin and reaches its destination, and the destination is empty.
pub proof fn lemma_quiet_moves(p: Seq<u64>, side: Side, en_passant: u8, pt: PieceType, m: Move)
    requires
        valid_pieces(p),
    ensures
        class_moves(p, side, en_passant, MoveClass::Quiet(pt)).contains(m) <==> exists|
            s: int,
            t: int,
        |
            0 <= s < 64 && 0 <= t < 64 && bit(p[spec_piece_index(pt, side)], s) && piece_reach(
                pt,
                all_occupied(p),
                s,
                t,
            ) && !occupied(p, t) && m == #[trigger] Move::spec_encode(s, t, MoveFlags::Quiet),
{
    let class = MoveClass::Quiet(pt);
    let occupancy = all_occupied(p);
    lemma_class_moves_contains(p, side, en_passant, class, 64, m);
    lemma_occupancy_sets(p, side);
    assert forall|s: int| 0 <= s < 64 implies (moves_at(p, side, en_passant, class, s).contains(m)
        <==> exists|t: int|
        0 <= t < 64 && piece_reach(pt, occupancy, s, t) && !occupied(p, t) && m
            == #[trigger] Move::spec_encode(s, t, MoveFlags::Quiet)) by {
        let targets = attacks_spec(pt, occupancy, s) & !occupancy;
        lemma_attacks_spec(pt, occupancy, s);
        lemma_bit_and(attacks_spec(pt, occupancy, s), !occupancy);
        lemma_moves_to_contains(s, targets, MoveFlags::Quiet, 64, m);
        if moves_at(p, side, en_passant, class, s).contains(m) {
            let t = choose|t: int|
                0 <= t < 64 && bit(targets, t) && m == #[trigger] Move::spec_encode(
                    s,
                    t,
                    MoveFlags::Quiet,
                );
            assert(piece_reach(pt, occupancy, s, t) && !occupied(p, t));
        }
        if exists|t: int|
            0 <= t < 64 && piece_reach(pt, occupancy, s, t) && !occupied(p, t) && m
                == #[trigger] Move::spec_encode(s, t, MoveFlags::Quiet) {
            let t = choose|t: int|
                0 <= t < 64 && piece_reach(pt, occupancy, s, t) && !occupied(p, t) && m
                    == #[trigger] Move::spec_encode(s, t, MoveFlags::Quiet);
            assert(bit(targets, t));
        }
    }
    if class_moves(p, side, en_passant, class).contains(m) {
        let s = choose|s: int|
            0 <= s < 64 && bit(sources(p, side, class), s) && (#[trigger] moves_at(
                p,
                side,
                en_passant,
                class,
                s,
            )).contains(m);
        let t = choose|t: int|
            0 <= t < 64 && piece_reach(pt, occupancy, s, t) && !occupied(p, t) && m
                == #[trigger] Move::spec_encode(s, t, MoveFlags::Quiet);
        assert(m == Move::spec_encode(s, t, MoveFlags::Quiet));
    }
    if exists|s: int, t: int|
        0 <= s < 64 && 0 <= t < 64 && bit(p[spec_piece_index(pt, side)], s) && piece_reach(
            pt,
            occupancy,
            s,
            t,
        ) && !occupied(p, t) && m == #[trigger] Move::spec_encode(s, t, MoveFlags::Quiet) {
        let (s, t) = choose|s: int, t: int|
            0 <= s < 64 && 0 <= t < 64 && bit(p[spec_piece_index(pt, side)], s) && piece_reach(
                pt,
                occupancy,
                s,
                t,
            ) && !occupied(p, t) && m == #[trigger] Move::spec_encode(s, t, MoveFlags::Quiet);
        assert(m == Move::spec_encode(s, t, MoveFlags::Quiet));
        assert(moves_at(p, side, en_passant, class, s).contains(m));
    }
}

/// A capture by a piece other than a pawn is generated exactly when a
/// piece of its kind of the side to move stands on its origin and reaches
/// its destination, and a piece of the other side stands there.
pub proof fn lemma_capture_moves(p: Seq<u64>, side: Side, en_passant: u8, pt: PieceType, m: Move)
    requires
        valid_pieces(p),
    ensures
        class_moves(p, side, en_passant, MoveClass::Captures(pt)).contains(m) <==> exists|
            s: int,
            t: int,
        |
            0 <= s < 64 && 0 <= t < 64 && bit(p[spec_piece_index(pt, side)], s) && piece_reach(
                pt,
                all_occupied(p),
                s,
                t,
            ) && side_occupied(p, side.other().index(), t) && m == #[trigger] Move::spec_encode(
                s,
                t,
                MoveFlags::Capture,
            ),
{
    let class = MoveClass::Captures(pt);
    let occupancy = all_occupied(p);
    let theirs = side_union(p, side.other().index());
    let o = side.other().index();
    lemma_class_moves_contains(p, side, en_passant, class, 64, m);
    lemma_occupancy_sets(p, side);
    assert forall|s: int| 0 <= s < 64 implies (moves_at(p, side, en_passant, class, s).contains(m)
        <==> exists|t: int|
        0 <= t < 64 && piece_reach(pt, occupancy, s, t) && side_occupied(p, o, t) && m
            == #[trigger] Move::spec_encode(s, t, MoveFlags::Capture)) by {
        let targets = attacks_spec(pt, occupancy, s) & theirs;
        lemma_attacks_spec(pt, occupancy, s);
        lemma_bit_and(attacks_spec(pt, occupancy, s), theirs);
        lemma_moves_to_contains(s, targets, MoveFlags::Capture, 64, m);
        if moves_at(p, side, en_passant, class, s).contains(m) {
            let t = choose|t: int|
                0 <= t < 64 && bit(targets, t) && m == #[trigger] Move::spec_encode(
                    s,
                    t,
                    MoveFlags::Capture,
                );
            assert(piece_reach(pt, occupancy, s, t) && side_occupied(p, o, t));
        }
        if exists|t: int|
            0 <= t < 64 && piece_reach(pt, occupancy, s, t) && side_occupied(p, o, t) && m
                == #[trigger] Move::spec_encode(s, t, MoveFlags::Capture) {
            let t = choose|t: int|
                0 <= t < 64 && piece_reach(pt, occupancy, s, t) && side_occupied(p, o, t) && m
                    == #[trigger] Move::spec_encode(s, t, MoveFlags::Capture);
            assert(bit(targets, t));
        }
    }
    if class_moves(p, side, en_passant, class).contains(m) {
        let s = choose|s: int|
            0 <= s < 64 && bit(sources(p, side, class), s) && (#[trigger] moves_at(
                p,
                side,
                en_passant,
                class,
                s,
            )).contains(m);
        let t = choose|t: int|
            0 <= t < 64 && piece_reach(pt, occupancy, s, t) && side_occupied(p, o, t) && m
                == #[trigger] Move::spec_encode(s, t, MoveFlags::Capture);
        assert(m == Move::spec_encode(s, t, MoveFlags::Capture));
    }
    if exists|s: int, t: int|
        0 <= s < 64 && 0 <= t < 64 && bit(p[spec_piece_index(pt, side)], s) && piece_reach(
            pt,
            occupancy,
            s,
            t,
        ) && side_occupied(p, o, t) && m == #[trigger] Move::spec_encode(s, t, MoveFlags::Capture) {
        let (s, t) = choose|s: int, t: int|
            0 <= s < 64 && 0 <= t < 64 && bit(p[spec_piece_index(pt, side)], s) && piece_reach(
                pt,
                occupancy,
                s,
                t,
            ) && side_occupied(p, o, t) && m == #[trigger] Move::spec_encode(
                s,
                t,
                MoveFlags::Capture,
            );
        assert(m == Move::spec_encode(s, t, MoveFlags::Capture));
        assert(moves_at(p, side, en_passant, class, s).contains(m));
    }
}


/// The pawns that promote with their next step are the sources of the two
/// promotion classes, the other pawns those of the other two pawn classes.
pub proof fn lemma_pawn_sources(p: Seq<u64>, side: Side, s: int)
    requires
        0 <= s < 64,
    ensures
        bit(sources(p, side, MoveClass::PawnPushes), s) == (bit(
            p[spec_piece_index(PieceType::Pawn, side)],
            s,
        ) && rank_of(s) + forward(side) != last_rank(side)),
        bit(sources(p, side, MoveClass::PromotionPushes), s) == (bit(
            p[spec_piece_index(PieceType::Pawn, side)],
            s,
        ) && rank_of(s) + forward(side) == last_rank(side)),
        sources(p, side, MoveClass::PawnCaptures) == sources(p, side, MoveClass::PawnPushes),
        sources(p, side, MoveClass::PromotionCaptures) == sources(
            p,
            side,
            MoveClass::PromotionPushes,
        ),
{
    let pawns = p[spec_piece_index(PieceType::Pawn, side)];
    lemma_rank_masks();
    lemma_bit_not(promotion_rank_mask(side));
    lemma_bit_and(pawns, promotion_rank_mask(side));
    lemma_bit_and(pawns, !promotion_rank_mask(side));
}


/// The promotions of the list are the promotions to the squares of
/// `targets` below `n`.
pub proof fn lemma_promotions_to_contains(
    from: int,
    targets: u64,
    capture: bool,
    n: int,
    m: Move,
)
    requires
        0 <= n <= 64,
    ensures
        promotions_to_below(from, targets, capture, n).contains(m) <==> exists|t: int|
            0 <= t < n && bit(targets, t) && (#[trigger] promotions(from, t, capture)).contains(m),
    decreases n,
{
    let all = promotions_to_below(from, targets, capture, n);
    if n > 0 {
        lemma_promotions_to_contains(from, targets, capture, n - 1, m);
        let before = promotions_to_below(from, targets, capture, n - 1);
        let here = promotions(from, n - 1, capture);
        if bit(targets, n - 1) {
            assert(all == before + here);
            lemma_concat_contains(before, here, m);
            if here.contains(m) {
                assert(promotions(from, n - 1, capture).contains(m));
            }
        } else {
            assert(all == before);
        }
    }
}

/// The square `n` ranks ahead of `s` for a pawn of `side`.
pub open spec fn ahead(side: Side, s: int, n: int) -> int {
    match side {
        Side::White => s + 8 * n,
        Side::Black => s - 8 * n,
    }
}

/// Whether a pawn of `side` that does not promote with its next step stands
/// on `s`.
pub open spec fn plain_pawn_on(p: Seq<u64>, side: Side, s: int) -> bool {
    0 <= s < 64 && bit(p[spec_piece_index(PieceType::Pawn, side)], s) && rank_of(s) + forward(side)
        != last_rank(side)
}

/// Whether a pawn of `side` that promotes with its next step stands on `s`.
pub open spec fn promoting_pawn_on(p: Seq<u64>, side: Side, s: int) -> bool {
    0 <= s < 64 && bit(p[spec_piece_index(PieceType::Pawn, side)], s) && rank_of(s) + forward(side)
        == last_rank(side)
}

/// Whether `m` is the step of the pawn on `s` to the empty square ahead, or
/// its double step from the home rank over an empty square to an empty
/// square.
pub open spec fn is_push_from(p: Seq<u64>, side: Side, s: int, m: Move) -> bool {
    let one = ahead(side, s, 1);
    let two = ahead(side, s, 2);
    0 <= one < 64 && !occupied(p, one) && (m == Move::spec_encode(s, one, MoveFlags::Quiet) || (
    rank_of(s) == home_rank(side) && !occupied(p, two) && m == Move::spec_encode(
        s,
        two,
        MoveFlags::DoublePawnPush,
    )))
}

/// The moves that the generator gives a pawn that does not promote are its
/// step to the empty square ahead and, from the home rank, its double step
/// over an empty square to an empty square.
pub proof fn lemma_pawn_pushes_at(p: Seq<u64>, side: Side, en_passant: u8, s: int, m: Move)
    requires
        valid_pieces(p),
        0 <= s < 64,
    ensures
        moves_at(p, side, en_passant, MoveClass::PawnPushes, s).contains(m) <==> is_push_from(
            p,
            side,
            s,
            m,
        ),
{
    let occupancy = all_occupied(p);
    let single = pawn_push_spec(side, s) & !occupancy;
    let double = pawn_double_push_spec(side, file_of(s)) & !occupancy;
    let one = ahead(side, s, 1);
    let two = ahead(side, s, 2);
    lemma_occupancy_sets(p, side);
    lemma_attack_sets(side, s);
    lemma_attack_sets(side, file_of(s));
    lemma_bit_and(pawn_push_spec(side, s), !occupancy);
    lemma_bit_and(pawn_double_push_spec(side, file_of(s)), !occupancy);
    lemma_zero_iff_empty(single);
    assert forall|t: int| bit(single, t) == (t == one && 0 <= one < 64 && !occupied(p, one)) by {
    }
    assert forall|t: int|
        rank_of(s) == home_rank(side) implies bit(double, t) == (t == two && !occupied(p, two)) by {
    }
    if 0 <= one < 64 && !occupied(p, one) {
        assert(bit(single, one));
    }
    let first = moves_to(s, single, MoveFlags::Quiet);
    let second = if single != 0 && rank_of(s) == home_rank(side) {
        moves_to(s, double, MoveFlags::DoublePawnPush)
    } else {
        Seq::empty()
    };
    lemma_concat_contains(first, second, m);
    lemma_moves_to_contains(s, single, MoveFlags::Quiet, 64, m);
    lemma_moves_to_contains(s, double, MoveFlags::DoublePawnPush, 64, m);
    if first.contains(m) {
        let t = choose|t: int|
            0 <= t < 64 && bit(single, t) && m == #[trigger] Move::spec_encode(
                s,
                t,
                MoveFlags::Quiet,
            );
        assert(t == one);
    }
    if second.contains(m) {
        let t = choose|t: int|
            0 <= t < 64 && bit(double, t) && m == #[trigger] Move::spec_encode(
                s,
                t,
                MoveFlags::DoublePawnPush,
            );
        assert(t == two);
    }
    if is_push_from(p, side, s, m) {
        if m == Move::spec_encode(s, one, MoveFlags::Quiet) {
            assert(first.contains(m));
        } else {
            assert(bit(double, two));
            assert(second.contains(m));
        }
    }
}

/// A pawn push is generated exactly for the pawns of the side to move that
/// do not promote: the step to the empty square ahead and, from the home
/// rank, the double step over an empty square to an empty square.
pub proof fn lemma_pawn_push_moves(p: Seq<u64>, side: Side, en_passant: u8, m: Move)
    requires
        valid_pieces(p),
    ensures
        class_moves(p, side, en_passant, MoveClass::PawnPushes).contains(m) <==> exists|s: int|
            plain_pawn_on(p, side, s) && #[trigger] is_push_from(p, side, s, m),
{
    let class = MoveClass::PawnPushes;
    lemma_class_moves_contains(p, side, en_passant, class, 64, m);
    if class_moves(p, side, en_passant, class).contains(m) {
        let s = choose|s: int|
            0 <= s < 64 && bit(sources(p, side, class), s) && (#[trigger] moves_at(
                p,
                side,
                en_passant,
                class,
                s,
            )).contains(m);
        lemma_pawn_sources(p, side, s);
        lemma_pawn_pushes_at(p, side, en_passant, s, m);
        assert(plain_pawn_on(p, side, s) && is_push_from(p, side, s, m));
    }
    if exists|s: int| plain_pawn_on(p, side, s) && #[trigger] is_push_from(p, side, s, m) {
        let s = choose|s: int| plain_pawn_on(p, side, s) && #[trigger] is_push_from(p, side, s, m);
        lemma_pawn_sources(p, side, s);
        lemma_pawn_pushes_at(p, side, en_passant, s, m);
        assert(moves_at(p, side, en_passant, class, s).contains(m));
    }
}

/// A promotion by a step is generated exactly for the pawns of the side to
/// move that promote with their next step and have the square ahead empty:
/// the four promotions to that square.
pub proof fn lemma_promotion_push_moves(p: Seq<u64>, side: Side, en_passant: u8, m: Move)
    requires
        valid_pieces(p),
    ensures
        class_moves(p, side, en_passant, MoveClass::PromotionPushes).contains(m) <==> exists|
            s: int,
        |
            promoting_pawn_on(p, side, s) && !occupied(p, ahead(side, s, 1)) && (
            #[trigger] promotions(s, ahead(side, s, 1), false)).contains(m),
{
    let class = MoveClass::PromotionPushes;
    let occupancy = all_occupied(p);
    lemma_class_moves_contains(p, side, en_passant, class, 64, m);
    lemma_occupancy_sets(p, side);
    assert forall|s: int| 0 <= s < 64 implies (bit(sources(p, side, class), s)
        == promoting_pawn_on(p, side, s)) && (promoting_pawn_on(p, side, s) ==> (moves_at(
        p,
        side,
        en_passant,
        class,
        s,
    ).contains(m) == (!occupied(p, ahead(side, s, 1)) && promotions(
        s,
        ahead(side, s, 1),
        false,
    ).contains(m)))) by {
        lemma_pawn_sources(p, side, s);
        let single = pawn_push_spec(side, s) & !occupancy;
        let one = ahead(side, s, 1);
        lemma_attack_sets(side, s);
        lemma_bit_and(pawn_push_spec(side, s), !occupancy);
        lemma_promotions_to_contains(s, single, false, 64, m);
        if promoting_pawn_on(p, side, s) {
            assert(0 <= one < 64);
            assert forall|t: int| bit(single, t) == (t == one && !occupied(p, one)) by {
            }
            if moves_at(p, side, en_passant, class, s).contains(m) {
                let t = choose|t: int|
                    0 <= t < 64 && bit(single, t) && (#[trigger] promotions(s, t, false)).contains(
                        m,
                    );
                assert(t == one);
            }
            if !occupied(p, one) && promotions(s, one, false).contains(m) {
                assert(bit(single, one));
            }
        }
    }
    if class_moves(p, side, en_passant, class).contains(m) {
        let s = choose|s: int|
            0 <= s < 64 && bit(sources(p, side, class), s) && (#[trigger] moves_at(
                p,
                side,
                en_passant,
                class,
                s,
            )).contains(m);
        assert(promoting_pawn_on(p, side, s));
        assert(promotions(s, ahead(side, s, 1), false).contains(m));
    }
    if exists|s: int|
        promoting_pawn_on(p, side, s) && !occupied(p, ahead(side, s, 1)) && (#[trigger] promotions(
            s,
            ahead(side, s, 1),
            false,
        )).contains(m) {
        let s = choose|s: int|
            promoting_pawn_on(p, side, s) && !occupied(p, ahead(side, s, 1)) && (
            #[trigger] promotions(s, ahead(side, s, 1), false)).contains(m);
        assert(moves_at(p, side, en_passant, class, s).contains(m));
    }
}

/// Whether a pawn of `side` on `s` may take en passant on `t`: `t` is the
/// square of the en-passant file on the rank where such a capture lands, it
/// is empty, and a pawn of the other side stands behind it.
pub open spec fn en_passant_open(p: Seq<u64>, side: Side, en_passant: u8, t: int) -> bool {
    en_passant != 0 && t == square_at(en_passant_file(en_passant), en_passant_rank(side))
        && !occupied(p, t) && bit(
        p[spec_piece_index(PieceType::Pawn, side.other())],
        en_passant_victim(side, t),
    )
}

/// Whether `m` is a capture by the pawn on `s`: of a piece of the other
/// side on `t`, or en passant on `t`.
pub open spec fn is_pawn_capture(
    p: Seq<u64>,
    side: Side,
    en_passant: u8,
    s: int,
    t: int,
    m: Move,
) -> bool {
    pawn_attack_reach(side, s, t) && ((side_occupied(p, side.other().index(), t) && m
        == Move::spec_encode(s, t, MoveFlags::Capture)) || (en_passant_open(
        p,
        side,
        en_passant,
        t,
    ) && m == Move::spec_encode(s, t, MoveFlags::EpCapture)))
}

/// The captures that the generator gives a pawn that does not promote are
/// those of the pieces of the other side that it attacks, and the capture
/// en passant where the position allows one.
pub proof fn lemma_pawn_captures_at(p: Seq<u64>, side: Side, en_passant: u8, s: int, m: Move)
    requires
        valid_pieces(p),
        0 <= s < 64,
    ensures
        moves_at(p, side, en_passant, MoveClass::PawnCaptures, s).contains(m) <==> exists|t: int|
            #[trigger] is_pawn_capture(p, side, en_passant, s, t, m),
{
    let theirs = side_union(p, side.other().index());
    let o = side.other().index();
    let target = en_passant_target(p, side, en_passant);
    let attacks = pawn_attacks_spec(side, s);
    lemma_occupancy_sets(p, side);
    lemma_bit_zero();
    if en_passant != 0 {
        axiom_u8_trailing_zeros(en_passant);
        lemma_bit_single(square_at(en_passant_file(en_passant), en_passant_rank(side)));
    }
    assert forall|t: int| bit(target, t) == en_passant_open(p, side, en_passant, t) by {
    }
    lemma_attack_sets(side, s);
    lemma_bit_and(attacks, theirs);
    lemma_bit_and(attacks, target);
    let first = moves_to(s, attacks & theirs, MoveFlags::Capture);
    let second = moves_to(s, attacks & target, MoveFlags::EpCapture);
    lemma_concat_contains(first, second, m);
    lemma_moves_to_contains(s, attacks & theirs, MoveFlags::Capture, 64, m);
    lemma_moves_to_contains(s, attacks & target, MoveFlags::EpCapture, 64, m);
    if first.contains(m) {
        let t = choose|t: int|
            0 <= t < 64 && bit(attacks & theirs, t) && m == #[trigger] Move::spec_encode(
                s,
                t,
                MoveFlags::Capture,
            );
        assert(is_pawn_capture(p, side, en_passant, s, t, m));
    }
    if second.contains(m) {
        let t = choose|t: int|
            0 <= t < 64 && bit(attacks & target, t) && m == #[trigger] Move::spec_encode(
                s,
                t,
                MoveFlags::EpCapture,
            );
        assert(is_pawn_capture(p, side, en_passant, s, t, m));
    }
    if exists|t: int| #[trigger] is_pawn_capture(p, side, en_passant, s, t, m) {
        let t = choose|t: int| #[trigger] is_pawn_capture(p, side, en_passant, s, t, m);
        if side_occupied(p, o, t) && m == Move::spec_encode(s, t, MoveFlags::Capture) {
            assert(bit(attacks & theirs, t));
            assert(first.contains(m));
        } else {
            assert(bit(attacks & target, t));
            assert(second.contains(m));
        }
    }
}

/// A pawn capture without promotion is generated exactly for the pawns of
/// the side to move that do not promote and the squares they attack: a
/// capture where a piece of the other side stands, a capture en passant
/// where the position allows one.
pub proof fn lemma_pawn_capture_moves(p: Seq<u64>, side: Side, en_passant: u8, m: Move)
    requires
        valid_pieces(p),
    ensures
        class_moves(p, side, en_passant, MoveClass::PawnCaptures).contains(m) <==> exists|
            s: int,
            t: int,
        |
            plain_pawn_on(p, side, s) && #[trigger] is_pawn_capture(p, side, en_passant, s, t, m),
{
    let class = MoveClass::PawnCaptures;
    lemma_class_moves_contains(p, side, en_passant, class, 64, m);
    if class_moves(p, side, en_passant, class).contains(m) {
        let s = choose|s: int|
            0 <= s < 64 && bit(sources(p, side, class), s) && (#[trigger] moves_at(
                p,
                side,
                en_passant,
                class,
                s,
            )).contains(m);
        lemma_pawn_sources(p, side, s);
        lemma_pawn_captures_at(p, side, en_passant, s, m);
        let t = choose|t: int| #[trigger] is_pawn_capture(p, side, en_passant, s, t, m);
        assert(plain_pawn_on(p, side, s) && is_pawn_capture(p, side, en_passant, s, t, m));
    }
    if exists|s: int, t: int|
        plain_pawn_on(p, side, s) && #[trigger] is_pawn_capture(p, side, en_passant, s, t, m) {
        let (s, t) = choose|s: int, t: int|
            plain_pawn_on(p, side, s) && #[trigger] is_pawn_capture(p, side, en_passant, s, t, m);
        lemma_pawn_sources(p, side, s);
        lemma_pawn_captures_at(p, side, en_passant, s, m);
        assert(is_pawn_capture(p, side, en_passant, s, t, m));
        assert(moves_at(p, side, en_passant, class, s).contains(m));
    }
}

/// Whether `m` is one of the four promotions of the pawn on `s` that takes
/// the piece of the other side on `t`.
pub open spec fn is_promotion_capture(p: Seq<u64>, side: Side, s: int, t: int, m: Move) -> bool {
    pawn_attack_reach(side, s, t) && side_occupied(p, side.other().index(), t) && promotions(
        s,
        t,
        true,
    ).contains(m)
}

/// The captures that the generator gives a pawn that promotes are the four
/// promotions onto each piece of the other side that it attacks.
pub proof fn lemma_promotion_captures_at(p: Seq<u64>, side: Side, en_passant: u8, s: int, m: Move)
    requires
        valid_pieces(p),
        0 <= s < 64,
    ensures
        moves_at(p, side, en_passant, MoveClass::PromotionCaptures, s).contains(m) <==> exists|
            t: int,
        | #[trigger] is_promotion_capture(p, side, s, t, m),
{
    let theirs = side_union(p, side.other().index());
    let o = side.other().index();
    let attacks = pawn_attacks_spec(side, s);
    lemma_occupancy_sets(p, side);
    lemma_attack_sets(side, s);
    lemma_bit_and(attacks, theirs);
    lemma_promotions_to_contains(s, attacks & theirs, true, 64, m);
    if moves_at(p, side, en_passant, MoveClass::PromotionCaptures, s).contains(m) {
        let t = choose|t: int|
            0 <= t < 64 && bit(attacks & theirs, t) && (#[trigger] promotions(s, t, true)).contains(
                m,
            );
        assert(is_promotion_capture(p, side, s, t, m));
    }
    if exists|t: int| #[trigger] is_promotion_capture(p, side, s, t, m) {
        let t = choose|t: int| #[trigger] is_promotion_capture(p, side, s, t, m);
        assert(bit(attacks & theirs, t));
        assert(promotions(s, t, true).contains(m));
    }
}

/// A promotion by capture is generated exactly for the pawns of the side
/// to move that promote with their next step and the pieces of the other
/// side that they attack: the four promotions to that square.
pub proof fn lemma_promotion_capture_moves(p: Seq<u64>, side: Side, en_passant: u8, m: Move)
    requires
        valid_pieces(p),
    ensures
        class_moves(p, side, en_passant, MoveClass::PromotionCaptures).contains(m) <==> exists|
            s: int,
            t: int,
        | promoting_pawn_on(p, side, s) && #[trigger] is_promotion_capture(p, side, s, t, m),
{
    let class = MoveClass::PromotionCaptures;
    lemma_class_moves_contains(p, side, en_passant, class, 64, m);
    if class_moves(p, side, en_passant, class).contains(m) {
        let s = choose|s: int|
            0 <= s < 64 && bit(sources(p, side, class), s) && (#[trigger] moves_at(
                p,
                side,
                en_passant,
                class,
                s,
            )).contains(m);
        lemma_pawn_sources(p, side, s);
        lemma_promotion_captures_at(p, side, en_passant, s, m);
        let t = choose|t: int| #[trigger] is_promotion_capture(p, side, s, t, m);
        assert(promoting_pawn_on(p, side, s) && is_promotion_capture(p, side, s, t, m));
    }
    if exists|s: int, t: int|
        promoting_pawn_on(p, side, s) && #[trigger] is_promotion_capture(p, side, s, t, m) {
        let (s, t) = choose|s: int, t: int|
            promoting_pawn_on(p, side, s) && #[trigger] is_promotion_capture(p, side, s, t, m);
        lemma_pawn_sources(p, side, s);
        lemma_promotion_captures_at(p, side, en_passant, s, m);
        assert(is_promotion_capture(p, side, s, t, m));
        assert(moves_at(p, side, en_passant, class, s).contains(m));
    }
}

} // verus!
