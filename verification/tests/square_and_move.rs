use rusty_chess_engine::gamestate::board::{PieceType, Side, Square};
use rusty_chess_engine::gamestate::castling_rights::{CastlingRights, CastlingSide};
use rusty_chess_engine::gamestate::chess_move::{Move, MoveFlags};

const ALL_FLAGS: [MoveFlags; 14] = [
    MoveFlags::Quiet,
    MoveFlags::DoublePawnPush,
    MoveFlags::KingCastle,
    MoveFlags::QueenCastle,
    MoveFlags::Capture,
    MoveFlags::EpCapture,
    MoveFlags::KnightPromotion,
    MoveFlags::BishopPromotion,
    MoveFlags::RookPromotion,
    MoveFlags::QueenPromotion,
    MoveFlags::KnightPromoCapture,
    MoveFlags::BishopPromoCapture,
    MoveFlags::RookPromoCapture,
    MoveFlags::QueenPromoCapture,
];

#[test]
fn square_index_round_trip_for_every_square() {
    for i in 0u8..64 {
        assert_eq!(Square::new(i).get_index(), i as usize);
        assert_eq!(Square::from_index(i).unwrap().get_index(), i as usize);
    }
}

#[test]
fn square_from_index_rejects_out_of_range() {
    assert!(Square::from_index(64).is_none());
    assert!(Square::from_index(200).is_none());
    assert!(Square::from_index(255).is_none());
}

#[test]
fn square_file_rank_round_trip_for_every_pair() {
    for file in 0u8..8 {
        for rank in 0u8..8 {
            let sq = Square::new_from_file_rank(file, rank).unwrap();
            assert_eq!(sq.get_index(), (rank * 8 + file) as usize);
            assert_eq!(sq.get_file_rank(), (file, rank));
            assert_eq!(sq.get_file(), file);
            assert_eq!(sq.get_rank(), rank);
        }
    }
}

#[test]
fn square_file_rank_rejects_out_of_range() {
    assert!(Square::new_from_file_rank(8, 7).is_none());
    assert!(Square::new_from_file_rank(7, 8).is_none());
    assert!(Square::new_from_file_rank(255, 255).is_none());
}

#[test]
fn square_algebraic_round_trip_for_every_square() {
    for i in 0u8..64 {
        let sq = Square::new(i);
        let text = sq.to_algebraic_notation();
        assert_eq!(text.len(), 2);
        assert_eq!(Square::new_from_algebraic_notation(&text), Some(sq));
    }
    assert_eq!(Square::new(28).to_algebraic_notation(), "e4");
    assert_eq!(Square::new(7).to_algebraic_notation(), "h1");
    assert_eq!(Square::new(56).to_algebraic_notation(), "a8");
}

#[test]
fn square_algebraic_reads_two_characters_only() {
    assert!(Square::new_from_algebraic_notation("").is_none());
    assert!(Square::new_from_algebraic_notation("e").is_none());
    assert!(Square::new_from_algebraic_notation("4e").is_none());
    assert!(Square::new_from_algebraic_notation("E4").is_none());
    assert_eq!(Square::new_from_algebraic_notation("e4xyz").unwrap().get_index(), 28);
}

#[test]
fn square_mask_is_single_bit() {
    for i in 0u8..64 {
        assert_eq!(Square::new(i).get_mask(), 1u64 << i);
    }
}

#[test]
fn squares_from_bitboard_are_ascending_and_complete() {
    assert!(Square::get_squares_from_bitboard(0).is_empty());
    let all = Square::get_squares_from_bitboard(u64::MAX);
    assert_eq!(all.len(), 64);
    for (i, sq) in all.iter().enumerate() {
        assert_eq!(sq.get_index(), i);
    }
    let some = Square::get_squares_from_bitboard(0x8000_0000_0000_0101);
    let indices: Vec<usize> = some.iter().map(|s| s.get_index()).collect();
    assert_eq!(indices, vec![0, 8, 63]);
}

#[test]
fn piece_type_from_u8_and_index() {
    let kinds = [
        PieceType::Pawn,
        PieceType::Knight,
        PieceType::Bishop,
        PieceType::Rook,
        PieceType::Queen,
        PieceType::King,
    ];
    for (i, kind) in kinds.iter().enumerate() {
        assert_eq!(PieceType::from_u8(i as u8), *kind);
        assert_eq!(kind.to_index(), i);
    }
    assert_eq!(Side::White.to_index(), 0);
    assert_eq!(Side::Black.to_index(), 1);
    assert_eq!(Side::White.opponent(), Side::Black);
    assert_eq!(Side::Black.opponent(), Side::White);
}

#[test]
fn move_decode_of_encode_is_identity() {
    for from in 0u8..64 {
        for to in 0u8..64 {
            for flags in ALL_FLAGS.iter() {
                let m = Move::encode(Square::new(from), Square::new(to), *flags);
                let (f, t, k) = m.decode();
                assert_eq!(f.get_index(), from as usize);
                assert_eq!(t.get_index(), to as usize);
                assert_eq!(k, *flags);
                assert_eq!(m.get_from_square().get_index(), from as usize);
                assert_eq!(m.get_to_square().get_index(), to as usize);
                assert_eq!(m.get_flags(), *flags);
            }
        }
    }
}

#[test]
fn move_bits_are_packed_as_documented() {
    let m = Move::encode(Square::new(12), Square::new(28), MoveFlags::DoublePawnPush);
    assert_eq!(m.as_u16(), 12 + 28 * 64 + 4096);
    let m = Move::encode(Square::new(63), Square::new(63), MoveFlags::QueenPromoCapture);
    assert_eq!(m.as_u16(), 0xFFFF);
    let m = Move::encode(Square::new(0), Square::new(0), MoveFlags::Quiet);
    assert_eq!(m.as_u16(), 0);
    let m = Move::encode(Square::new(4), Square::new(6), MoveFlags::KingCastle);
    assert_eq!(m.as_u16(), 4 + 6 * 64 + 2 * 4096);
}

#[test]
fn move_flag_codes() {
    let codes: [u8; 14] = [0, 1, 2, 3, 4, 5, 8, 9, 10, 11, 12, 13, 14, 15];
    for (flags, code) in ALL_FLAGS.iter().zip(codes.iter()) {
        assert_eq!(flags.to_u8(), *code);
        assert_eq!(MoveFlags::from_u8(*code), *flags);
    }
}

#[test]
fn move_classification() {
    for flags in ALL_FLAGS.iter() {
        let m = Move::encode(Square::new(10), Square::new(20), *flags);
        let code = flags.to_u8();
        assert_eq!(m.is_quiet(), code == 0);
        assert_eq!(m.is_castle(), code == 2 || code == 3);
        assert_eq!(m.is_capture(), code == 4 || code == 5 || code >= 12);
        assert_eq!(m.is_ep_capture(), code == 5);
        assert_eq!(m.is_promotion(), code >= 8);
        assert_eq!(m.is_promo_capture(), code >= 12);
    }
}

#[test]
fn promotion_pieces() {
    assert_eq!(MoveFlags::Quiet.get_promotion_piece(), None);
    assert_eq!(MoveFlags::Capture.get_promotion_piece(), None);
    assert_eq!(MoveFlags::EpCapture.get_promotion_piece(), None);
    assert_eq!(MoveFlags::KingCastle.get_promotion_piece(), None);
    assert_eq!(MoveFlags::KnightPromotion.get_promotion_piece(), Some(PieceType::Knight));
    assert_eq!(MoveFlags::BishopPromotion.get_promotion_piece(), Some(PieceType::Bishop));
    assert_eq!(MoveFlags::RookPromotion.get_promotion_piece(), Some(PieceType::Rook));
    assert_eq!(MoveFlags::QueenPromotion.get_promotion_piece(), Some(PieceType::Queen));
    assert_eq!(MoveFlags::KnightPromoCapture.get_promotion_piece(), Some(PieceType::Knight));
    assert_eq!(MoveFlags::BishopPromoCapture.get_promotion_piece(), Some(PieceType::Bishop));
    assert_eq!(MoveFlags::RookPromoCapture.get_promotion_piece(), Some(PieceType::Rook));
    assert_eq!(MoveFlags::QueenPromoCapture.get_promotion_piece(), Some(PieceType::Queen));
}

#[test]
fn castling_rights_start_empty() {
    let rights = CastlingRights::new();
    assert_eq!(rights.as_u8(), 0);
    assert_eq!(rights.get_rights(Side::White), CastlingSide::Neither);
    assert_eq!(rights.get_rights(Side::Black), CastlingSide::Neither);
    assert!(!rights.can_castle(Side::White));
    assert!(!rights.can_castle(Side::Black));
}

#[test]
fn castling_rights_set_and_get_by_side() {
    let mut rights = CastlingRights::new();
    rights.set_rights(Side::White, CastlingSide::Kingside);
    assert_eq!(rights.as_u8(), 0b0001);
    assert_eq!(rights.get_rights(Side::White), CastlingSide::Kingside);
    assert_eq!(rights.get_rights(Side::Black), CastlingSide::Neither);

    rights.set_rights(Side::Black, CastlingSide::Queenside);
    assert_eq!(rights.as_u8(), 0b1001);
    assert_eq!(rights.get_rights(Side::Black), CastlingSide::Queenside);
    assert_eq!(rights.get_rights(Side::White), CastlingSide::Kingside);

    rights.set_rights(Side::White, CastlingSide::Queenside);
    assert_eq!(rights.as_u8(), 0b1011);
    assert_eq!(rights.get_rights(Side::White), CastlingSide::Both);

    rights.set_rights(Side::Black, CastlingSide::Both);
    assert_eq!(rights.as_u8(), 0b1111);
    assert!(rights.can_castle_kingside(Side::Black));
    assert!(rights.can_castle_queenside(Side::Black));
    assert!(rights.can_castle(Side::Black));
}

#[test]
fn castling_rights_disable() {
    let mut rights = CastlingRights::from_u8(0b1111).unwrap();
    rights.disable_specific_right(Side::White, CastlingSide::Kingside);
    assert_eq!(rights.as_u8(), 0b1110);
    assert_eq!(rights.get_rights(Side::White), CastlingSide::Queenside);
    assert!(!rights.can_castle_kingside(Side::White));
    assert!(rights.can_castle_queenside(Side::White));

    rights.disable_specific_right(Side::Black, CastlingSide::Queenside);
    assert_eq!(rights.as_u8(), 0b0110);

    rights.disable_specific_right(Side::Black, CastlingSide::Neither);
    assert_eq!(rights.as_u8(), 0b0110);

    rights.disable_side(Side::White);
    assert_eq!(rights.as_u8(), 0b0100);
    assert_eq!(rights.get_rights(Side::White), CastlingSide::Neither);
    assert_eq!(rights.get_rights(Side::Black), CastlingSide::Kingside);

    rights.disable_side(Side::Black);
    assert_eq!(rights.as_u8(), 0);

    let mut rights = CastlingRights::from_u8(0b1010).unwrap();
    rights.clear_all();
    assert_eq!(rights.as_u8(), 0);
}

#[test]
fn castling_rights_packed_value_is_checked() {
    for bits in 0u8..16 {
        assert_eq!(CastlingRights::from_u8(bits).unwrap().as_u8(), bits);
    }
    assert!(CastlingRights::from_u8(16).is_none());
    assert!(CastlingRights::from_u8(0xFF).is_none());
}

#[test]
fn castling_side_codes() {
    assert_eq!(CastlingSide::from_u8(0), CastlingSide::Neither);
    assert_eq!(CastlingSide::from_u8(1), CastlingSide::Kingside);
    assert_eq!(CastlingSide::from_u8(2), CastlingSide::Queenside);
    assert_eq!(CastlingSide::from_u8(3), CastlingSide::Both);
    assert_eq!(CastlingSide::Both.to_u8(), 3);
}

#[test]
fn move_kind_names() {
    let names = [
        "Quiet",
        "Double Pawn Push",
        "King Castle",
        "Queen Castle",
        "Capture",
        "En Passant Capture",
        "Knight Promotion",
        "Bishop Promotion",
        "Rook Promotion",
        "Queen Promotion",
        "Knight Promotion Capture",
        "Bishop Promotion Capture",
        "Rook Promotion Capture",
        "Queen Promotion Capture",
    ];
    for (flags, name) in ALL_FLAGS.iter().zip(names.iter()) {
        assert_eq!(flags.name(), *name);
    }
}
