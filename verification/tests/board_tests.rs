use rusty_chess_engine::gamestate::board::{Board, PieceType, Side, Square};

const KINDS: [PieceType; 6] = [
    PieceType::Pawn,
    PieceType::Knight,
    PieceType::Bishop,
    PieceType::Rook,
    PieceType::Queen,
    PieceType::King,
];

fn union_of_side(board: &Board, side: Side) -> u64 {
    let mut all = 0u64;
    for kind in KINDS.iter() {
        all |= board.get_bitboard_of(*kind, side);
    }
    all
}

fn check_occupancy(board: &Board) {
    assert_eq!(board.get_occupancy(Side::White), union_of_side(board, Side::White));
    assert_eq!(board.get_occupancy(Side::Black), union_of_side(board, Side::Black));
    assert_eq!(
        board.get_combined_occupancy(),
        union_of_side(board, Side::White) | union_of_side(board, Side::Black)
    );
}

#[test]
fn empty_board_has_no_pieces() {
    let board = Board::default();
    for i in 0usize..12 {
        assert_eq!(board.get_bitboard_at(i), 0);
    }
    assert_eq!(board.get_combined_occupancy(), 0);
    for i in 0u8..64 {
        assert_eq!(board.get_piece_at_square(Square::new(i)), None);
        assert!(!board.is_square_occupied(Square::new(i)));
    }
}

#[test]
fn occupancy_is_union_of_piece_bitboards_after_every_operation() {
    let mut board = Board::default();
    check_occupancy(&board);
    let mut square = 0u8;
    for side in [Side::White, Side::Black].iter() {
        for kind in KINDS.iter() {
            board.place_piece_at_square(Square::new(square), *kind, *side);
            check_occupancy(&board);
            board.place_piece_at_square(Square::new(square + 32), *kind, *side);
            check_occupancy(&board);
            square += 1;
        }
    }
    board.move_piece(Square::new(0), Square::new(20), PieceType::Pawn, Side::White);
    check_occupancy(&board);
    board.remove_piece_at_square(Square::new(20), PieceType::Pawn, Side::White);
    check_occupancy(&board);
    board.remove_piece_at_square(Square::new(43), PieceType::King, Side::Black);
    check_occupancy(&board);
    assert_eq!(board.get_bitboard_of(PieceType::Pawn, Side::White), 1u64 << 32);
    assert_eq!(board.get_bitboard_of(PieceType::King, Side::Black), 1u64 << 11);
}

#[test]
fn remove_clears_only_the_named_piece() {
    let mut board = Board::default();
    let a = Square::new(3);
    let b = Square::new(4);
    board.place_piece_at_square(a, PieceType::Queen, Side::White);
    board.place_piece_at_square(b, PieceType::King, Side::White);
    board.remove_piece_at_square(a, PieceType::Queen, Side::White);
    assert_eq!(board.get_piece_at_square(a), None);
    assert_eq!(board.get_piece_at_square(b), Some((PieceType::King, Side::White)));
    assert_eq!(board.get_occupancy(Side::White), 1u64 << 4);
}

#[test]
fn piece_at_finds_every_piece_kind_and_side() {
    let mut board = Board::default();
    let mut square = 10u8;
    for side in [Side::White, Side::Black].iter() {
        for kind in KINDS.iter() {
            board.place_piece_at_square(Square::new(square), *kind, *side);
            square += 3;
        }
    }
    let mut square = 10u8;
    for side in [Side::White, Side::Black].iter() {
        for kind in KINDS.iter() {
            assert_eq!(board.get_piece_at_square(Square::new(square)), Some((*kind, *side)));
            assert_eq!(board.get_piece_at_square(Square::new(square + 1)), None);
            square += 3;
        }
    }
}

#[test]
fn piece_index_is_kind_plus_six_times_side() {
    for (i, kind) in KINDS.iter().enumerate() {
        assert_eq!(Board::piece_index(*kind, Side::White), i);
        assert_eq!(Board::piece_index(*kind, Side::Black), i + 6);
    }
}

#[test]
fn squares_of_lists_pieces_low_to_high() {
    let mut board = Board::default();
    for index in [61u8, 2, 33, 7].iter() {
        board.place_piece_at_square(Square::new(*index), PieceType::Bishop, Side::Black);
    }
    let squares = board.get_squares_of(PieceType::Bishop, Side::Black);
    let indices: Vec<usize> = squares.iter().map(|s| s.get_index()).collect();
    assert_eq!(indices, vec![2, 7, 33, 61]);
    assert!(board.get_squares_of(PieceType::Bishop, Side::White).is_empty());
    let again = board.get_squares_of(PieceType::Bishop, Side::Black);
    assert_eq!(again, squares);
}
