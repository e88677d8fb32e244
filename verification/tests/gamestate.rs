use rusty_chess_engine::gamestate::board::{Bitboard, Board, PieceType, Side, Square};

#[test]
fn test_square_new() {
    let square = Square::new_from_file_rank(3, 4).unwrap();

    assert_eq!(square.get_index(), 35);

    let square = Square::new_from_file_rank(7, 7).unwrap();
    assert_eq!(square.get_index(), 63);
}

#[test]
fn test_square_new_from_algebraic_notation() {
    let square = Square::new_from_algebraic_notation("e4").unwrap();
    assert_eq!(square.get_index(), 28);

    let square = Square::new_from_algebraic_notation("h8").unwrap();
    assert_eq!(square.get_index(), 63);
}

#[test]
fn test_square_get_file_rank() {
    let square = Square::new(35);
    let (file, rank) = square.get_file_rank();
    assert_eq!((file, rank), (3, 4));

    let square = Square::new(63);
    let (file, rank) = square.get_file_rank();
    assert_eq!((file, rank), (7, 7));
}

#[test]
fn test_board_set_square() {
    let mut board = Board::default();

    let square = Square::new_from_file_rank(3, 4).unwrap();
    board.place_piece_at_square(square, PieceType::Knight, Side::White);
    println!("{}", square.get_index());
    assert_eq!(
        board.get_bitboard_of(PieceType::Knight, Side::White),
        1 << square.get_index() as Bitboard
    );

    let square = Square::new_from_file_rank(7, 7).unwrap();
    println!("{}", square.get_index());
    board.place_piece_at_square(square, PieceType::Queen, Side::Black);
    assert_eq!(
        board.get_bitboard_of(PieceType::Queen, Side::Black),
        1 << square.get_index() as Bitboard
    );
}
