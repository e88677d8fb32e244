use rusty_chess_engine::gamestate::board::{Board, PieceType, Side, Square};
use rusty_chess_engine::gamestate::castling_rights::{CastlingRights, CastlingSide};
use rusty_chess_engine::gamestate::chess_move::{Move, MoveFlags};
use rusty_chess_engine::gamestate::zobrist::{
    castling_keys_from, en_passant_keys_from, side_keys_from, Zobrist, ZobristKeys, SEED,
};
use rusty_chess_engine::gamestate::{Gamestate, MoveError};
use rusty_chess_engine::movegen::tables::AttackTables;
use rusty_chess_engine::movegen::MoveGen;

fn board_from(placement: &str) -> Board {
    let mut board = Board::default();
    let mut rank: u8 = 7;
    let mut file: u8 = 0;
    for ch in placement.chars() {
        if ch == '/' {
            rank -= 1;
            file = 0;
        } else if let Some(skip) = ch.to_digit(10) {
            file += skip as u8;
        } else {
            let side = if ch.is_ascii_uppercase() { Side::White } else { Side::Black };
            let kind = match ch.to_ascii_uppercase() {
                'P' => PieceType::Pawn,
                'N' => PieceType::Knight,
                'B' => PieceType::Bishop,
                'R' => PieceType::Rook,
                'Q' => PieceType::Queen,
                'K' => PieceType::King,
                _ => panic!("unknown piece"),
            };
            let square = Square::new_from_file_rank(file, rank).unwrap();
            board.place_piece_at_square(square, kind, side);
            file += 1;
        }
    }
    board
}

fn keys() -> ZobristKeys {
    let mut pieces = Vec::new();
    for i in 0u64..768 {
        pieces.push((i + 1).wrapping_mul(0x9E3779B97F4A7C15));
    }
    let mut sides = [0u64; 2];
    for i in 0u64..2 {
        sides[i as usize] = (i + 1000).wrapping_mul(0xC2B2AE3D27D4EB4F);
    }
    let mut castling = [0u64; 16];
    for i in 0u64..16 {
        castling[i as usize] = (i + 2000).wrapping_mul(0x165667B19E3779F9);
    }
    let mut en_passant = [0u64; 8];
    for i in 0u64..8 {
        en_passant[i as usize] = (i + 3000).wrapping_mul(0x27D4EB2F165667C5);
    }
    ZobristKeys::from_parts(pieces, sides, castling, en_passant).unwrap()
}

fn position(placement: &str, side: Side, rights: u8, ep_file: Option<u8>) -> Gamestate {
    let board = board_from(placement);
    let en_passant = match ep_file {
        Some(file) => 1u8 << file,
        None => 0,
    };
    let mut game = Gamestate::new(
        board,
        side,
        CastlingRights::from_u8(rights).unwrap(),
        en_passant,
        0,
        1,
        0,
    );
    game.zobrist_key = Zobrist::hash(&keys(), &game);
    game
}

fn generate(game: &Gamestate, tables: &AttackTables) -> Vec<Move> {
    MoveGen::new(game, tables).generate_moves()
}

fn sorted_codes(moves: &[Move]) -> Vec<u16> {
    let mut codes: Vec<u16> = moves.iter().map(|m| m.as_u16()).collect();
    codes.sort();
    codes
}

fn check_position(
    placement: &str,
    side: Side,
    rights: u8,
    ep_file: Option<u8>,
    expected_moves: &[u16],
    expected_hash: u64,
    expected_successors: u64,
) {
    let tables = AttackTables::new();
    let keys = keys();
    let game = position(placement, side, rights, ep_file);
    assert_eq!(game.zobrist_key, expected_hash);
    let moves = generate(&game, &tables);
    assert_eq!(sorted_codes(&moves), expected_moves.to_vec());
    let mut successors = 0u64;
    for m in moves.iter() {
        let predicted = Zobrist::incremental_update(&keys, &game, *m).unwrap();
        let next = game.apply_move(&keys, *m).unwrap();
        assert_eq!(next.zobrist_key, predicted);
        assert_eq!(Zobrist::hash(&keys, &next), predicted);
        assert_eq!(next.side_to_move, side.opponent());
        successors ^= predicted;
    }
    assert_eq!(successors, expected_successors);
}

#[test]
fn moves_and_hashes_start() {
    check_position(
        "rnbqkbnr/pppppppp/8/8/8/8/PPPPPPPP/RNBQKBNR",
        Side::White,
        15,
        None,
        &[1025, 1032, 1097, 1153, 1162, 1227, 1292, 1350, 1357, 1422, 1478, 1487, 5640, 5705, 5770, 5835, 5900, 5965, 6030, 6095],
        0x4b353a1e6fa57dd3,
        0x9a97449501021a00,
    );
}

#[test]
fn moves_and_hashes_castle() {
    check_position(
        "4k3/8/8/8/8/8/8/4K2R",
        Side::White,
        1,
        None,
        &[196, 324, 327, 391, 708, 772, 836, 967, 1479, 1991, 2503, 3015, 3527, 4039, 8580],
        0x4a9a6932d8c1088b,
        0x8114bc458aa72c1,
    );
}

#[test]
fn moves_and_hashes_castle_both() {
    check_position(
        "r3k2r/8/8/8/8/8/8/R3K2R",
        Side::White,
        15,
        None,
        &[64, 128, 192, 196, 324, 327, 391, 512, 708, 772, 836, 967, 1024, 1479, 1536, 1991, 2048, 2503, 2560, 3015, 3072, 3527, 8580, 12420, 19968, 20423],
        0x6f0952a920505c55,
        0xfa15ea77b1e98422,
    );
}

#[test]
fn moves_and_hashes_castle_black() {
    check_position(
        "r3k2r/8/8/8/8/8/8/R3K2R",
        Side::Black,
        15,
        None,
        &[568, 1023, 1080, 1535, 1592, 2047, 2104, 2559, 2616, 3071, 3128, 3324, 3388, 3452, 3583, 3704, 3768, 3832, 3836, 3964, 3967, 4031, 12220, 16060, 16440, 16895],
        0xaa5a816a086b672a,
        0x715e000039d4e857,
    );
}

#[test]
fn moves_and_hashes_promo() {
    check_position(
        "8/4P3/8/8/8/8/8/8",
        Side::White,
        0,
        None,
        &[36660, 40756, 44852, 48948],
        0x4f82a89842072a8d,
        0x89267105fc1a1068,
    );
}

#[test]
fn moves_and_hashes_promo_capture() {
    check_position(
        "3r1n2/4P3/8/8/8/8/8/8",
        Side::White,
        0,
        None,
        &[36660, 40756, 44852, 48948, 52980, 53108, 57076, 57204, 61172, 61300, 65268, 65396],
        0xa84e12e8b3a184df,
        0xcaa7950ff0142078,
    );
}

#[test]
fn moves_and_hashes_ep() {
    check_position(
        "8/8/8/3pP3/8/8/8/8",
        Side::White,
        0,
        Some(3),
        &[2852, 23268],
        0x490cbebb9c8baead,
        0x902253a948ba060b,
    );
}

#[test]
fn moves_and_hashes_ep_black() {
    check_position(
        "8/8/8/8/4Pp2/8/8/8",
        Side::Black,
        0,
        Some(4),
        &[1373, 21789],
        0x883c1b05a64a13a1,
        0xf2a16a62898b66d9,
    );
}

#[test]
fn moves_and_hashes_kiwipete() {
    check_position(
        "r3k2r/p1ppqpb1/bn2pnp1/3PN3/1p2P3/2N2Q1p/PPPBBPPP/R3K2R",
        Side::White,
        15,
        None,
        &[64, 82, 128, 139, 192, 196, 204, 210, 324, 327, 332, 391, 1032, 1097, 1228, 1237, 1252, 1291, 1301, 1422, 1429, 1554, 1676, 1700, 1867, 1877, 1941, 1956, 2124, 2130, 2389, 2443, 2517, 2724, 2787, 3019, 5640, 6030, 8580, 12420, 17870, 17877, 18956, 19235, 19285, 19364, 19684, 19812],
        0xdd3750f50345585b,
        0xce5548f4792f800d,
    );
}

#[test]
fn moves_and_hashes_kiwipete_black() {
    check_position(
        "r3k2r/p1ppqpb1/bn2pnp1/3PN3/1p2P3/2N2Q1p/PPPBBPPP/R3K2R",
        Side::Black,
        15,
        None,
        &[1113, 1256, 1577, 1704, 1705, 1965, 2047, 2152, 2228, 2478, 2541, 2559, 2738, 2803, 2804, 3062, 3071, 3176, 3565, 3583, 3704, 3752, 3753, 3768, 3828, 3832, 3836, 3956, 3958, 3964, 3967, 4013, 4031, 6322, 12220, 16060, 17192, 17303, 17561, 18221, 18665, 18668, 18669],
        0x186483362b7e6324,
        0x82d683f6357e10d9,
    );
}

#[test]
fn moves_and_hashes_black_promo() {
    check_position(
        "8/8/8/8/8/8/3p4/2R1N3",
        Side::Black,
        0,
        None,
        &[32971, 37067, 41163, 45259, 49291, 49419, 53387, 53515, 57483, 57611, 61579, 61707],
        0x8f7ad74f833c0f86,
        0x96b222000f1ce010,
    );
}

#[test]
fn starting_position_has_twenty_moves() {
    let tables = AttackTables::new();
    let game = position("rnbqkbnr/pppppppp/8/8/8/8/PPPPPPPP/RNBQKBNR", Side::White, 15, None);
    let moves = generate(&game, &tables);
    assert_eq!(moves.len(), 20);
    let mut single = 0;
    let mut double = 0;
    let mut knight = 0;
    for m in moves.iter() {
        assert!(!m.is_capture());
        assert!(!m.is_castle());
        assert!(!m.is_promotion());
        let piece = game.board.get_piece_at_square(m.get_from_square()).unwrap();
        match (piece.0, m.get_flags()) {
            (PieceType::Pawn, MoveFlags::Quiet) => single += 1,
            (PieceType::Pawn, MoveFlags::DoublePawnPush) => double += 1,
            (PieceType::Knight, MoveFlags::Quiet) => knight += 1,
            _ => panic!("no such move in the starting position"),
        }
    }
    assert_eq!((single, double, knight), (8, 8, 4));
}

#[test]
fn kingside_castle_is_generated_once() {
    let tables = AttackTables::new();
    let game = position("8/8/8/8/8/8/8/4K2R", Side::White, 1, None);
    let moves = generate(&game, &tables);
    let castles: Vec<&Move> = moves.iter().filter(|m| m.is_castle()).collect();
    assert_eq!(castles.len(), 1);
    assert_eq!(castles[0].get_flags(), MoveFlags::KingCastle);
    assert_eq!(castles[0].get_from_square().to_algebraic_notation(), "e1");
    assert_eq!(castles[0].get_to_square().to_algebraic_notation(), "g1");
    assert_eq!(moves.len(), 5 + 9 + 1);
}

#[test]
fn castle_needs_right_and_empty_squares() {
    let tables = AttackTables::new();
    let no_right = position("8/8/8/8/8/8/8/4K2R", Side::White, 12, None);
    assert!(generate(&no_right, &tables).iter().all(|m| !m.is_castle()));
    let other_wing = position("8/8/8/8/8/8/8/1N2K2R", Side::White, 2, None);
    assert!(generate(&other_wing, &tables).iter().all(|m| !m.is_castle()));
    let blocked = position("8/8/8/8/8/8/8/4KB1R", Side::White, 1, None);
    assert!(generate(&blocked, &tables).iter().all(|m| !m.is_castle()));
    let blocked = position("8/8/8/8/8/8/8/4K1nR", Side::White, 1, None);
    assert!(generate(&blocked, &tables).iter().all(|m| !m.is_castle()));
    let queenside_blocked = position("8/8/8/8/8/8/8/RN2K3", Side::White, 2, None);
    assert!(generate(&queenside_blocked, &tables).iter().all(|m| !m.is_castle()));
    let queenside = position("8/8/8/8/8/8/8/R3K3", Side::White, 2, None);
    let moves = generate(&queenside, &tables);
    let castles: Vec<&Move> = moves.iter().filter(|m| m.is_castle()).collect();
    assert_eq!(castles.len(), 1);
    assert_eq!(castles[0].as_u16(), 4 + 2 * 64 + 3 * 4096);
    let other_side = position("r3k2r/8/8/8/8/8/8/8", Side::Black, 3, None);
    assert!(generate(&other_side, &tables).iter().all(|m| !m.is_castle()));
}

#[test]
fn castle_does_not_look_for_king_and_rook() {
    let tables = AttackTables::new();
    let game = position("8/8/8/8/8/8/8/8", Side::White, 3, None);
    let moves = generate(&game, &tables);
    assert_eq!(sorted_codes(&moves), vec![4 + 6 * 64 + 2 * 4096, 4 + 2 * 64 + 3 * 4096]);
    let keys = keys();
    for m in moves.iter() {
        assert_eq!(game.apply_move(&keys, *m), Err(MoveError::MissingPiece));
    }
}

#[test]
fn pawn_on_seventh_promotes_four_ways() {
    let tables = AttackTables::new();
    let game = position("8/4P3/8/8/8/8/8/8", Side::White, 0, None);
    let moves = generate(&game, &tables);
    assert_eq!(moves.len(), 4);
    let kinds: Vec<MoveFlags> = moves.iter().map(|m| m.get_flags()).collect();
    assert_eq!(
        kinds,
        vec![
            MoveFlags::KnightPromotion,
            MoveFlags::BishopPromotion,
            MoveFlags::RookPromotion,
            MoveFlags::QueenPromotion,
        ]
    );
    for m in moves.iter() {
        assert!(!m.is_quiet());
        assert!(m.is_promotion());
        assert_eq!(m.get_from_square().to_algebraic_notation(), "e7");
        assert_eq!(m.get_to_square().to_algebraic_notation(), "e8");
    }
}

#[test]
fn blocked_pawn_has_no_push() {
    let tables = AttackTables::new();
    let game = position("8/8/8/8/8/4n3/4P3/8", Side::White, 0, None);
    assert!(generate(&game, &tables).is_empty());
    let game = position("8/8/8/8/4n3/8/4P3/8", Side::White, 0, None);
    let moves = generate(&game, &tables);
    assert_eq!(sorted_codes(&moves), vec![12 + 20 * 64]);
    let game = position("4n3/4P3/8/8/8/8/8/8", Side::White, 0, None);
    assert!(generate(&game, &tables).is_empty());
}

#[test]
fn double_push_only_from_home_rank() {
    let tables = AttackTables::new();
    let game = position("8/8/8/8/8/4P3/8/8", Side::White, 0, None);
    let moves = generate(&game, &tables);
    assert_eq!(sorted_codes(&moves), vec![20 + 28 * 64]);
    let game = position("8/4p3/8/8/8/8/8/8", Side::Black, 0, None);
    let moves = generate(&game, &tables);
    assert_eq!(sorted_codes(&moves), vec![52 + 44 * 64, 52 + 36 * 64 + 4096]);
}

#[test]
fn en_passant_needs_the_pawn_behind_the_target() {
    let tables = AttackTables::new();
    let game = position("8/8/8/3pP3/8/8/8/8", Side::White, 0, Some(3));
    let moves = generate(&game, &tables);
    let ep: Vec<&Move> = moves.iter().filter(|m| m.is_ep_capture()).collect();
    assert_eq!(ep.len(), 1);
    assert_eq!(ep[0].as_u16(), 36 + 43 * 64 + 5 * 4096);
    let no_file = position("8/8/8/3pP3/8/8/8/8", Side::White, 0, None);
    assert!(generate(&no_file, &tables).iter().all(|m| !m.is_ep_capture()));
    let other_file = position("8/8/8/3pP3/8/8/8/8", Side::White, 0, Some(5));
    assert!(generate(&other_file, &tables).iter().all(|m| !m.is_ep_capture()));
    let no_pawn = position("8/8/8/3nP3/8/8/8/8", Side::White, 0, Some(3));
    assert!(generate(&no_pawn, &tables).iter().all(|m| !m.is_ep_capture()));
}

#[test]
fn en_passant_removes_the_pawn_behind() {
    let keys = keys();
    let game = position("8/8/8/3pP3/8/8/8/8", Side::White, 0, Some(3));
    let m = Move::encode(Square::new(36), Square::new(43), MoveFlags::EpCapture);
    let next = game.apply_move(&keys, m).unwrap();
    assert_eq!(next.board.get_piece_at_square(Square::new(35)), None);
    assert_eq!(next.board.get_piece_at_square(Square::new(36)), None);
    assert_eq!(
        next.board.get_piece_at_square(Square::new(43)),
        Some((PieceType::Pawn, Side::White))
    );
    assert_eq!(next.en_passant, 0);
    assert_eq!(next.zobrist_key, Zobrist::hash(&keys, &next));
}

#[test]
fn generation_is_repeatable() {
    let tables = AttackTables::new();
    let game = position(
        "r3k2r/p1ppqpb1/bn2pnp1/3PN3/1p2P3/2N2Q1p/PPPBBPPP/R3K2R",
        Side::White,
        15,
        None,
    );
    let mut generator = MoveGen::new(&game, &tables);
    let first = generator.generate_moves();
    let second = generator.generate_moves();
    assert_eq!(first, second);
    assert_eq!(generate(&game, &tables), first);
}

#[test]
fn quiet_moves_come_before_captures() {
    let tables = AttackTables::new();
    let game = position("8/8/8/8/8/2p5/8/1N6", Side::White, 0, None);
    let moves = generate(&game, &tables);
    let codes: Vec<u16> = moves.iter().map(|m| m.as_u16()).collect();
    assert_eq!(codes, vec![1 + 11 * 64, 1 + 16 * 64, 1 + 18 * 64 + 4 * 4096]);
}

#[test]
fn hash_is_xor_of_the_keys() {
    let keys = keys();
    let key = |square: u64, piece: u64| (square * 12 + piece + 1).wrapping_mul(0x9E3779B97F4A7C15);
    let side = |i: u64| (i + 1000).wrapping_mul(0xC2B2AE3D27D4EB4F);
    let castling = |i: u64| (i + 2000).wrapping_mul(0x165667B19E3779F9);
    let file = |i: u64| (i + 3000).wrapping_mul(0x27D4EB2F165667C5);

    let empty = position("8/8/8/8/8/8/8/8", Side::White, 0, None);
    assert_eq!(Zobrist::hash(&keys, &empty), castling(0) ^ side(0));

    let game = position("8/8/8/8/8/8/8/4K3", Side::Black, 9, Some(6));
    assert_eq!(Zobrist::hash(&keys, &game), key(4, 5) ^ castling(9) ^ file(6) ^ side(1));

    let game = position("7q/8/8/8/8/8/8/N7", Side::White, 15, Some(0));
    assert_eq!(
        Zobrist::hash(&keys, &game),
        key(0, 1) ^ key(63, 10) ^ castling(15) ^ file(0) ^ side(0)
    );
}

#[test]
fn hash_does_not_read_the_stored_key() {
    let keys = keys();
    let mut game = position("rnbqkbnr/pppppppp/8/8/8/8/PPPPPPPP/RNBQKBNR", Side::White, 15, None);
    let right = game.zobrist_key;
    game.zobrist_key = 12345;
    assert_eq!(Zobrist::hash(&keys, &game), right);
}

#[test]
fn rook_capture_and_its_reversal_restore_the_hash() {
    let keys = keys();
    let game = position("4k3/8/8/8/8/8/8/R3K2r", Side::Black, 3, None);
    let before = game.zobrist_key;
    let capture = Move::encode(Square::new(7), Square::new(4), MoveFlags::Capture);
    let effect = game.analyse_move(capture).unwrap();
    assert_eq!(effect.mover, PieceType::Rook);
    assert_eq!(effect.captured, Some((PieceType::King, 4)));
    let next = game.apply_move(&keys, capture).unwrap();
    assert_ne!(next.zobrist_key, before);
    assert_eq!(next.zobrist_key, Zobrist::hash(&keys, &next));
    let mut undone = game;
    undone.zobrist_key = next.zobrist_key;
    assert_eq!(Zobrist::updated_hash(&keys, &undone, &effect), before);

    let game = position("4k3/8/8/8/8/8/8/R3K2r", Side::White, 3, None);
    let capture = Move::encode(Square::new(0), Square::new(56), MoveFlags::Quiet);
    let next = game.apply_move(&keys, capture).unwrap();
    let effect = game.analyse_move(capture).unwrap();
    let mut undone = game;
    undone.zobrist_key = next.zobrist_key;
    assert_eq!(Zobrist::updated_hash(&keys, &undone, &effect), game.zobrist_key);
}

#[test]
fn every_generated_move_can_be_undone_in_the_hash() {
    let tables = AttackTables::new();
    let keys = keys();
    let game = position(
        "r3k2r/p1ppqpb1/bn2pnp1/3PN3/1p2P3/2N2Q1p/PPPBBPPP/R3K2R",
        Side::White,
        15,
        None,
    );
    for m in generate(&game, &tables).iter() {
        let effect = game.analyse_move(*m).unwrap();
        let next = game.apply_move(&keys, *m).unwrap();
        let mut undone = game;
        undone.zobrist_key = next.zobrist_key;
        assert_eq!(Zobrist::updated_hash(&keys, &undone, &effect), game.zobrist_key);
    }
}

#[test]
fn castling_moves_the_rook_and_takes_the_rights() {
    let keys = keys();
    let game = position("r3k2r/8/8/8/8/8/8/R3K2R", Side::White, 15, None);
    let castle = Move::encode(Square::new(4), Square::new(6), MoveFlags::KingCastle);
    let next = game.apply_move(&keys, castle).unwrap();
    assert_eq!(next.board.get_piece_at_square(Square::new(6)), Some((PieceType::King, Side::White)));
    assert_eq!(next.board.get_piece_at_square(Square::new(5)), Some((PieceType::Rook, Side::White)));
    assert_eq!(next.board.get_piece_at_square(Square::new(4)), None);
    assert_eq!(next.board.get_piece_at_square(Square::new(7)), None);
    assert_eq!(next.board.get_piece_at_square(Square::new(0)), Some((PieceType::Rook, Side::White)));
    assert_eq!(next.castling_rights.get_rights(Side::White), CastlingSide::Neither);
    assert_eq!(next.castling_rights.get_rights(Side::Black), CastlingSide::Both);
    assert_eq!(next.castling_rights.as_u8(), 12);
    assert_eq!(next.zobrist_key, Zobrist::hash(&keys, &next));

    let black = position("r3k2r/8/8/8/8/8/8/R3K2R", Side::Black, 15, None);
    let castle = Move::encode(Square::new(60), Square::new(58), MoveFlags::QueenCastle);
    let next = black.apply_move(&keys, castle).unwrap();
    assert_eq!(next.board.get_piece_at_square(Square::new(58)), Some((PieceType::King, Side::Black)));
    assert_eq!(next.board.get_piece_at_square(Square::new(59)), Some((PieceType::Rook, Side::Black)));
    assert_eq!(next.board.get_piece_at_square(Square::new(56)), None);
    assert_eq!(next.castling_rights.as_u8(), 3);
    assert_eq!(next.zobrist_key, Zobrist::hash(&keys, &next));
}

#[test]
fn moves_off_and_onto_home_squares_take_the_rights() {
    let keys = keys();
    let game = position("r3k2r/8/8/8/8/8/8/R3K2R", Side::White, 15, None);
    let after = |from: u8, to: u8, flags: MoveFlags| {
        let m = Move::encode(Square::new(from), Square::new(to), flags);
        let next = game.apply_move(&keys, m).unwrap();
        assert_eq!(next.zobrist_key, Zobrist::hash(&keys, &next));
        next.castling_rights.as_u8()
    };
    // The king leaves its square: both rights of white go.
    assert_eq!(after(4, 12, MoveFlags::Quiet), 0b1100);
    // A rook leaves its square: the right of its wing goes.
    assert_eq!(after(7, 15, MoveFlags::Quiet), 0b1110);
    assert_eq!(after(0, 8, MoveFlags::Quiet), 0b1101);
    // A rook takes a rook on its square: both lose the right of that wing.
    assert_eq!(after(7, 63, MoveFlags::Capture), 0b1010);
    assert_eq!(after(0, 56, MoveFlags::Capture), 0b0101);

    let black = position("r3k2r/8/8/8/8/8/8/R3K2R", Side::Black, 15, None);
    let m = Move::encode(Square::new(60), Square::new(52), MoveFlags::Quiet);
    assert_eq!(black.apply_move(&keys, m).unwrap().castling_rights.as_u8(), 0b0011);
    let m = Move::encode(Square::new(63), Square::new(62), MoveFlags::Quiet);
    assert_eq!(black.apply_move(&keys, m).unwrap().castling_rights.as_u8(), 0b1011);
    let m = Move::encode(Square::new(56), Square::new(57), MoveFlags::Quiet);
    assert_eq!(black.apply_move(&keys, m).unwrap().castling_rights.as_u8(), 0b0111);

    // Other moves leave the rights as they are.
    let game = position("r3k2r/8/8/8/8/8/4P3/R3K2R", Side::White, 15, None);
    let m = Move::encode(Square::new(12), Square::new(20), MoveFlags::Quiet);
    assert_eq!(game.apply_move(&keys, m).unwrap().castling_rights.as_u8(), 15);
}

#[test]
fn rights_stay_backed_by_the_board() {
    let tables = AttackTables::new();
    let keys = keys();
    let backed = |game: &Gamestate| {
        for (side, king, kingside_rook, queenside_rook) in
            [(Side::White, 4u8, 7u8, 0u8), (Side::Black, 60, 63, 56)].iter()
        {
            let rights = game.castling_rights;
            let king_home = game.board.get_piece_at_square(Square::new(*king))
                == Some((PieceType::King, *side));
            let rook_at = |square: u8| {
                game.board.get_piece_at_square(Square::new(square)) == Some((PieceType::Rook, *side))
            };
            if rights.can_castle_kingside(*side) {
                assert!(king_home && rook_at(*kingside_rook));
            }
            if rights.can_castle_queenside(*side) {
                assert!(king_home && rook_at(*queenside_rook));
            }
        }
    };
    let game = position(
        "r3k2r/p1ppqpb1/bn2pnp1/3PN3/1p2P3/2N2Q1p/PPPBBPPP/R3K2R",
        Side::White,
        15,
        None,
    );
    backed(&game);
    for m in generate(&game, &tables).iter() {
        let next = game.apply_move(&keys, *m).unwrap();
        backed(&next);
        for reply in generate(&next, &tables).iter() {
            let after = next.apply_move(&keys, *reply).unwrap();
            backed(&after);
            for third in generate(&after, &tables).iter() {
                backed(&after.apply_move(&keys, *third).unwrap());
            }
        }
    }
}

#[test]
fn double_push_sets_the_en_passant_file() {
    let keys = keys();
    let game = position("rnbqkbnr/pppppppp/8/8/8/8/PPPPPPPP/RNBQKBNR", Side::White, 15, None);
    let push = Move::encode(Square::new(12), Square::new(28), MoveFlags::DoublePawnPush);
    let next = game.apply_move(&keys, push).unwrap();
    assert_eq!(next.en_passant, 1 << 4);
    assert_eq!(next.side_to_move, Side::Black);
    assert_eq!(next.zobrist_key, Zobrist::hash(&keys, &next));
    let reply = Move::encode(Square::new(57), Square::new(42), MoveFlags::Quiet);
    let after = next.apply_move(&keys, reply).unwrap();
    assert_eq!(after.en_passant, 0);
    assert_eq!(after.zobrist_key, Zobrist::hash(&keys, &after));
}

#[test]
fn clocks_follow_the_moves() {
    let keys = keys();
    let mut game = position("4k3/8/8/8/8/3p4/4P3/4K2N", Side::White, 0, None);
    game.half_move_clock = 7;
    game.full_move_count = 3;
    let knight = Move::encode(Square::new(7), Square::new(22), MoveFlags::Quiet);
    let next = game.apply_move(&keys, knight).unwrap();
    assert_eq!((next.half_move_clock, next.full_move_count), (8, 3));
    let king = Move::encode(Square::new(60), Square::new(59), MoveFlags::Quiet);
    let after = next.apply_move(&keys, king).unwrap();
    assert_eq!((after.half_move_clock, after.full_move_count), (9, 4));
    let pawn = Move::encode(Square::new(12), Square::new(20), MoveFlags::Quiet);
    assert_eq!(game.apply_move(&keys, pawn).unwrap().half_move_clock, 0);
    let capture = Move::encode(Square::new(12), Square::new(19), MoveFlags::Capture);
    assert_eq!(game.apply_move(&keys, capture).unwrap().half_move_clock, 0);

    game.half_move_clock = 255;
    game.full_move_count = 255;
    game.side_to_move = Side::Black;
    let next = game.apply_move(&keys, king).unwrap();
    assert_eq!((next.half_move_clock, next.full_move_count), (255, 255));
}

#[test]
fn promotion_puts_the_new_piece_on_the_board() {
    let keys = keys();
    let game = position("3r4/4P3/8/8/8/8/8/8", Side::White, 0, None);
    let promote = Move::encode(Square::new(52), Square::new(60), MoveFlags::RookPromotion);
    let next = game.apply_move(&keys, promote).unwrap();
    assert_eq!(next.board.get_piece_at_square(Square::new(60)), Some((PieceType::Rook, Side::White)));
    assert_eq!(next.board.get_piece_at_square(Square::new(52)), None);
    assert_eq!(next.board.get_bitboard_of(PieceType::Pawn, Side::White), 0);
    let take = Move::encode(Square::new(52), Square::new(59), MoveFlags::QueenPromoCapture);
    let next = game.apply_move(&keys, take).unwrap();
    assert_eq!(next.board.get_piece_at_square(Square::new(59)), Some((PieceType::Queen, Side::White)));
    assert_eq!(next.board.get_bitboard_of(PieceType::Rook, Side::Black), 0);
    assert_eq!(next.zobrist_key, Zobrist::hash(&keys, &next));
}

#[test]
fn moves_that_cannot_be_applied_are_refused() {
    let keys = keys();
    let game = position("r3k2r/8/8/3pP3/8/8/8/R3K2R", Side::White, 15, Some(3));
    let refused = |from: u8, to: u8, flags: MoveFlags| {
        let m = Move::encode(Square::new(from), Square::new(to), flags);
        let error = game.analyse_move(m).unwrap_err();
        assert_eq!(game.apply_move(&keys, m), Err(error));
        assert_eq!(Zobrist::incremental_update(&keys, &game, m), Err(error));
        error
    };
    // Nothing stands on the origin, or a piece of the other side does.
    assert_eq!(refused(20, 28, MoveFlags::Quiet), MoveError::MissingPiece);
    assert_eq!(refused(60, 52, MoveFlags::Quiet), MoveError::MissingPiece);
    // The piece is not of the kind that the move needs.
    assert_eq!(refused(4, 12, MoveFlags::DoublePawnPush), MoveError::MissingPiece);
    assert_eq!(refused(0, 8, MoveFlags::QueenPromotion), MoveError::MissingPiece);
    assert_eq!(refused(0, 56, MoveFlags::QueenPromoCapture), MoveError::MissingPiece);
    assert_eq!(refused(4, 43, MoveFlags::EpCapture), MoveError::MissingPiece);
    assert_eq!(refused(0, 2, MoveFlags::QueenCastle), MoveError::MissingPiece);
    // The destination is occupied.
    assert_eq!(refused(0, 4, MoveFlags::Quiet), MoveError::Blocked);
    assert_eq!(refused(0, 56, MoveFlags::Quiet), MoveError::Blocked);
    assert_eq!(refused(36, 35, MoveFlags::EpCapture), MoveError::Blocked);
    // Nothing to take, or a piece of the own side.
    assert_eq!(refused(0, 8, MoveFlags::Capture), MoveError::MissingCapture);
    assert_eq!(refused(0, 4, MoveFlags::Capture), MoveError::MissingCapture);
    assert_eq!(refused(36, 45, MoveFlags::EpCapture), MoveError::MissingCapture);
    assert_eq!(refused(36, 44, MoveFlags::KnightPromoCapture), MoveError::MissingCapture);

    let blocked = position("8/8/8/8/8/8/8/R2nK1NR", Side::White, 3, None);
    let castle = Move::encode(Square::new(4), Square::new(6), MoveFlags::KingCastle);
    assert_eq!(blocked.apply_move(&keys, castle), Err(MoveError::Blocked));
    let castle = Move::encode(Square::new(4), Square::new(2), MoveFlags::QueenCastle);
    assert_eq!(blocked.apply_move(&keys, castle), Err(MoveError::Blocked));
    let no_rook = position("8/8/8/8/8/8/8/4K3", Side::White, 3, None);
    let castle = Move::encode(Square::new(4), Square::new(6), MoveFlags::KingCastle);
    assert_eq!(no_rook.apply_move(&keys, castle), Err(MoveError::MissingPiece));
    let white_edge = position("8/8/8/8/8/8/1P6/8", Side::White, 0, None);
    let m = Move::encode(Square::new(9), Square::new(2), MoveFlags::EpCapture);
    assert_eq!(white_edge.apply_move(&keys, m), Err(MoveError::MissingCapture));
    let black_edge = position("8/p7/8/8/8/8/8/8", Side::Black, 0, None);
    let m = Move::encode(Square::new(48), Square::new(57), MoveFlags::EpCapture);
    assert_eq!(black_edge.apply_move(&keys, m), Err(MoveError::MissingCapture));
}

#[test]
fn keys_need_768_piece_keys() {
    assert!(ZobristKeys::from_parts(vec![0; 767], [0; 2], [0; 16], [0; 8]).is_none());
    assert!(ZobristKeys::from_parts(vec![0; 769], [0; 2], [0; 16], [0; 8]).is_none());
    assert!(ZobristKeys::from_parts(Vec::new(), [0; 2], [0; 16], [0; 8]).is_none());
    let keys = ZobristKeys::from_parts(vec![5; 768], [1, 2], [3; 16], [4; 8]).unwrap();
    assert_eq!(keys.piece_key(Square::new(63), 11), 5);
    assert_eq!(keys.side_key(Side::Black), 2);
    assert_eq!(keys.castling_key(15), 3);
    assert_eq!(keys.en_passant_key(7), 4);
}

#[test]
fn drawn_keys_depend_on_the_seed_only() {
    let first = ZobristKeys::new(SEED);
    let second = ZobristKeys::new(SEED);
    let other = ZobristKeys::new(SEED + 1);
    let mut same = true;
    let mut differs = false;
    let mut distinct = false;
    for square in 0u8..64 {
        for piece in 0usize..12 {
            let a = first.piece_key(Square::new(square), piece);
            same &= a == second.piece_key(Square::new(square), piece);
            differs |= a != other.piece_key(Square::new(square), piece);
            distinct |= a != first.piece_key(Square::new(0), 0);
        }
    }
    assert!(same);
    assert!(differs);
    assert!(distinct);
    assert_eq!(first.side_key(Side::White), second.side_key(Side::White));
    assert_ne!(first.side_key(Side::White), first.side_key(Side::Black));
    assert_ne!(first.side_key(Side::White), SEED);
}

#[test]
fn incremental_update_agrees_with_drawn_keys() {
    let tables = AttackTables::new();
    let keys = ZobristKeys::new(SEED);
    let board = board_from("r3k2r/p1ppqpb1/bn2pnp1/3PN3/1p2P3/2N2Q1p/PPPBBPPP/R3K2R");
    let mut game = Gamestate::new(
        board,
        Side::White,
        CastlingRights::from_u8(15).unwrap(),
        0,
        0,
        1,
        0,
    );
    game.zobrist_key = Zobrist::hash(&keys, &game);
    for m in generate(&game, &tables).iter() {
        let next = game.apply_move(&keys, *m).unwrap();
        assert_eq!(next.zobrist_key, Zobrist::hash(&keys, &next));
        for reply in generate(&next, &tables).iter() {
            let after = next.apply_move(&keys, *reply).unwrap();
            assert_eq!(after.zobrist_key, Zobrist::hash(&keys, &after));
        }
    }
}

#[test]
fn drawn_numbers_become_keys_in_order() {
    let drawn: Vec<u64> = (100u64..120).collect();
    assert_eq!(side_keys_from(&drawn), [100, 101]);
    assert_eq!(
        castling_keys_from(&drawn),
        [100, 101, 102, 103, 104, 105, 106, 107, 108, 109, 110, 111, 112, 113, 114, 115]
    );
    assert_eq!(en_passant_keys_from(&drawn), [100, 101, 102, 103, 104, 105, 106, 107]);
    assert_eq!(side_keys_from(&vec![5, 3]), [5, 3]);
}
