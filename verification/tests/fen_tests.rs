use rusty_chess_engine::gamestate::board::{PieceType, Side, Square};
use rusty_chess_engine::gamestate::castling_rights::CastlingSide;
use rusty_chess_engine::gamestate::zobrist::{Zobrist, ZobristKeys, SEED};
use rusty_chess_engine::movegen::tables::AttackTables;
use rusty_chess_engine::movegen::MoveGen;
use rusty_chess_engine::utils::fen::{chars_of, split_chars, Fen, FenError, LayoutError, DEFAULT_FEN};

fn read(text: &str) -> Result<rusty_chess_engine::gamestate::Gamestate, FenError> {
    Fen(text.to_string()).process(&ZobristKeys::new(SEED))
}

#[test]
fn default_fen_is_the_starting_position() {
    let keys = ZobristKeys::new(SEED);
    let game = Fen(DEFAULT_FEN.to_string()).process(&keys).unwrap();
    assert_eq!(game.side_to_move, Side::White);
    assert_eq!(game.castling_rights.as_u8(), 15);
    assert_eq!(game.en_passant, 0);
    assert_eq!(game.half_move_clock, 0);
    assert_eq!(game.full_move_count, 1);
    assert_eq!(game.zobrist_key, Zobrist::hash(&keys, &game));
    assert_eq!(game.board.get_bitboard_of(PieceType::Pawn, Side::White), 0xFF00);
    assert_eq!(game.board.get_bitboard_of(PieceType::Pawn, Side::Black), 0x00FF_0000_0000_0000);
    assert_eq!(game.board.get_bitboard_of(PieceType::Knight, Side::White), 0x42);
    assert_eq!(game.board.get_bitboard_of(PieceType::Bishop, Side::White), 0x24);
    assert_eq!(game.board.get_bitboard_of(PieceType::Rook, Side::White), 0x81);
    assert_eq!(game.board.get_bitboard_of(PieceType::Queen, Side::White), 0x08);
    assert_eq!(game.board.get_bitboard_of(PieceType::King, Side::White), 0x10);
    assert_eq!(game.board.get_bitboard_of(PieceType::Knight, Side::Black), 0x42 << 56);
    assert_eq!(game.board.get_bitboard_of(PieceType::Bishop, Side::Black), 0x24 << 56);
    assert_eq!(game.board.get_bitboard_of(PieceType::Rook, Side::Black), 0x81 << 56);
    assert_eq!(game.board.get_bitboard_of(PieceType::Queen, Side::Black), 0x08 << 56);
    assert_eq!(game.board.get_bitboard_of(PieceType::King, Side::Black), 0x10 << 56);
    assert_eq!(game.board.get_occupancy(Side::White), 0xFFFF);
    assert_eq!(game.board.get_occupancy(Side::Black), 0xFFFF << 48);
    let tables = AttackTables::new();
    assert_eq!(MoveGen::new(&game, &tables).generate_moves().len(), 20);
}

#[test]
fn fen_with_castling_position_gives_castling_moves() {
    let tables = AttackTables::new();
    let game = read("rnbqkbnr/pppppppp/8/8/8/8/PPPPPPPP/R3K2R w KQkq - 0 1").unwrap();
    let moves = MoveGen::new(&game, &tables).generate_moves();
    assert_eq!(moves.iter().filter(|m| m.is_castle()).count(), 2);
    assert_eq!(moves.len(), 16 + 2 + 3 + 2 + 2);
    assert_eq!(
        game.board.get_piece_at_square(Square::new(4)),
        Some((PieceType::King, Side::White))
    );
}

#[test]
fn fen_fields_are_read() {
    let game = read("8/8/8/3pP3/8/8/8/8 b KKqq d6 17 42").unwrap();
    assert_eq!(game.side_to_move, Side::Black);
    assert_eq!(game.castling_rights.get_rights(Side::White), CastlingSide::Kingside);
    assert_eq!(game.castling_rights.get_rights(Side::Black), CastlingSide::Queenside);
    assert_eq!(game.en_passant, 1 << 3);
    assert_eq!(game.half_move_clock, 17);
    assert_eq!(game.full_move_count, 42);
    assert_eq!(game.board.get_bitboard_of(PieceType::Pawn, Side::Black), 1 << 35);
    assert_eq!(game.board.get_bitboard_of(PieceType::Pawn, Side::White), 1 << 36);
    let game = read("8/8/8/8/8/8/8/8 w QQQQ h3 +255 007").unwrap();
    assert_eq!(game.castling_rights.as_u8(), 2);
    assert_eq!(game.en_passant, 1 << 7);
    assert_eq!(game.half_move_clock, 255);
    assert_eq!(game.full_move_count, 7);
}

#[test]
fn fen_needs_six_fields() {
    assert_eq!(read(""), Err(FenError::InvalidNumOfElements(1)));
    assert_eq!(read("8/8/8/8/8/8/8/8 w KQkq - 0"), Err(FenError::InvalidNumOfElements(5)));
    assert_eq!(read("8/8/8/8/8/8/8/8 w KQkq - 0 1 "), Err(FenError::InvalidNumOfElements(7)));
    assert_eq!(read("8/8/8/8/8/8/8/8  w KQkq - 0 1"), Err(FenError::InvalidNumOfElements(7)));
    assert_eq!(read("     "), Err(FenError::PieceLayout(LayoutError::RankCount(1))));
}

#[test]
fn fen_piece_layout_errors() {
    let layout = |placement: &str| match Fen::get_board(placement) {
        Err(FenError::PieceLayout(error)) => error,
        other => panic!("expected a layout error, got {:?}", other),
    };
    assert_eq!(layout("8/8/8/8/8/8/8"), LayoutError::RankCount(7));
    assert_eq!(layout("8/8/8/8/8/8/8/8/8"), LayoutError::RankCount(9));
    assert_eq!(layout(""), LayoutError::RankCount(1));
    assert_eq!(
        layout("8/8/p0p5/8/8/8/8/8"),
        LayoutError::EmptySquares { count: 0, rank: 3, file: 2 }
    );
    assert_eq!(
        layout("9/8/8/8/8/8/8/8"),
        LayoutError::EmptySquares { count: 9, rank: 1, file: 1 }
    );
    assert_eq!(layout("8p/8/8/8/8/8/8/8"), LayoutError::FileIndex(8));
    assert_eq!(layout("8x/8/8/8/8/8/8/8"), LayoutError::FileIndex(8));
    assert_eq!(layout("8/8/8/8/8/8/8/7x"), LayoutError::InvalidSymbol('x'));
    assert_eq!(layout("8/8/8/8/8/8/8/7-"), LayoutError::InvalidSymbol('-'));
    assert_eq!(layout("7/8/8/8/8/8/8/8"), LayoutError::RankLength(7));
    assert_eq!(layout("8/8/8/8/8/8/8/"), LayoutError::RankLength(0));
    assert_eq!(layout("8/8/8/8/8/8/8/ppp"), LayoutError::RankLength(3));
    assert_eq!(layout("45/8/8/8/8/8/8/8"), LayoutError::RankLength(9));
    assert_eq!(layout("p88/8/8/8/8/8/8/8"), LayoutError::RankLength(9));
    assert_eq!(
        read("8/8/8/8/8/8/8/7x w KQkq - 0 1"),
        Err(FenError::PieceLayout(LayoutError::InvalidSymbol('x')))
    );
}

#[test]
fn fen_board_reads_ranks_from_the_eighth_down() {
    let board = Fen::get_board("r6K/8/8/8/8/8/8/k6R").unwrap();
    assert_eq!(board.get_piece_at_square(Square::new(56)), Some((PieceType::Rook, Side::Black)));
    assert_eq!(board.get_piece_at_square(Square::new(63)), Some((PieceType::King, Side::White)));
    assert_eq!(board.get_piece_at_square(Square::new(0)), Some((PieceType::King, Side::Black)));
    assert_eq!(board.get_piece_at_square(Square::new(7)), Some((PieceType::Rook, Side::White)));
    let board = Fen::get_board("1n1b1q1p/44/2N5/3B4/4Q3/5P2/62/8").unwrap();
    assert_eq!(board.get_bitboard_of(PieceType::Knight, Side::Black), 1 << 57);
    assert_eq!(board.get_bitboard_of(PieceType::Bishop, Side::Black), 1 << 59);
    assert_eq!(board.get_bitboard_of(PieceType::Queen, Side::Black), 1 << 61);
    assert_eq!(board.get_bitboard_of(PieceType::Pawn, Side::Black), 1 << 63);
    assert_eq!(board.get_bitboard_of(PieceType::Knight, Side::White), 1 << 42);
    assert_eq!(board.get_bitboard_of(PieceType::Bishop, Side::White), 1 << 35);
    assert_eq!(board.get_bitboard_of(PieceType::Queen, Side::White), 1 << 28);
    assert_eq!(board.get_bitboard_of(PieceType::Pawn, Side::White), 1 << 21);
}

#[test]
fn fen_side_to_move() {
    assert_eq!(Fen::get_side_to_move("w"), Ok(Side::White));
    assert_eq!(Fen::get_side_to_move("b"), Ok(Side::Black));
    assert_eq!(Fen::get_side_to_move(""), Err(FenError::StartingSide));
    assert_eq!(Fen::get_side_to_move("W"), Err(FenError::StartingSide));
    assert_eq!(Fen::get_side_to_move("wb"), Err(FenError::StartingSide));
    assert_eq!(read("8/8/8/8/8/8/8/8 x KQkq - 0 1"), Err(FenError::StartingSide));
}

#[test]
fn fen_castling_rights() {
    assert_eq!(Fen::get_castling_rights("KQkq").unwrap().as_u8(), 15);
    assert_eq!(Fen::get_castling_rights("qkQK").unwrap().as_u8(), 15);
    assert_eq!(Fen::get_castling_rights("KKKK").unwrap().as_u8(), 1);
    assert_eq!(Fen::get_castling_rights("kkqq").unwrap().as_u8(), 12);
    assert_eq!(Fen::get_castling_rights("-"), Err(FenError::CastlingRights));
    assert_eq!(Fen::get_castling_rights("KQ"), Err(FenError::CastlingRights));
    assert_eq!(Fen::get_castling_rights("KQkx"), Err(FenError::CastlingRights));
    assert_eq!(Fen::get_castling_rights("KQkqK"), Err(FenError::CastlingRights));
    assert_eq!(read("8/8/8/8/8/8/8/8 w - - 0 1"), Err(FenError::CastlingRights));
}

#[test]
fn fen_en_passant() {
    assert_eq!(Fen::get_en_passant("-"), Ok(0));
    assert_eq!(Fen::get_en_passant("a3"), Ok(1));
    assert_eq!(Fen::get_en_passant("e6"), Ok(16));
    assert_eq!(Fen::get_en_passant("h1"), Ok(128));
    assert_eq!(Fen::get_en_passant(""), Err(FenError::EnPassant));
    assert_eq!(Fen::get_en_passant("e"), Err(FenError::EnPassant));
    assert_eq!(Fen::get_en_passant("e9"), Err(FenError::EnPassant));
    assert_eq!(Fen::get_en_passant("i3"), Err(FenError::EnPassant));
    assert_eq!(Fen::get_en_passant("e33"), Err(FenError::EnPassant));
    assert_eq!(Fen::get_en_passant("--"), Err(FenError::EnPassant));
    assert_eq!(read("8/8/8/8/8/8/8/8 w KQkq e 0 1"), Err(FenError::EnPassant));
}

#[test]
fn fen_clocks() {
    assert_eq!(Fen::get_half_move_clock("0"), Ok(0));
    assert_eq!(Fen::get_half_move_clock("255"), Ok(255));
    assert_eq!(Fen::get_half_move_clock("+12"), Ok(12));
    assert_eq!(Fen::get_half_move_clock("000255"), Ok(255));
    assert_eq!(Fen::get_half_move_clock("256"), Err(FenError::HalfMoveClock));
    assert_eq!(Fen::get_half_move_clock("99999999999999999999999"), Err(FenError::HalfMoveClock));
    assert_eq!(Fen::get_half_move_clock(""), Err(FenError::HalfMoveClock));
    assert_eq!(Fen::get_half_move_clock("+"), Err(FenError::HalfMoveClock));
    assert_eq!(Fen::get_half_move_clock("-1"), Err(FenError::HalfMoveClock));
    assert_eq!(Fen::get_half_move_clock("1 "), Err(FenError::HalfMoveClock));
    assert_eq!(Fen::get_half_move_clock("++1"), Err(FenError::HalfMoveClock));
    assert_eq!(Fen::get_half_move_clock("1+"), Err(FenError::HalfMoveClock));
    assert_eq!(Fen::get_full_move_count("1"), Ok(1));
    assert_eq!(Fen::get_full_move_count("x"), Err(FenError::FullMoveCounte));
    assert_eq!(Fen::get_full_move_count("300"), Err(FenError::FullMoveCounte));
    assert_eq!(read("8/8/8/8/8/8/8/8 w KQkq - x 1"), Err(FenError::HalfMoveClock));
    assert_eq!(read("8/8/8/8/8/8/8/8 w KQkq - 0 x"), Err(FenError::FullMoveCounte));
    for value in 0u32..=300 {
        let text = value.to_string();
        assert_eq!(Fen::get_half_move_clock(&text).ok(), text.parse::<u8>().ok());
    }
}

#[test]
fn fen_reports_the_first_fault() {
    assert_eq!(
        read("8/8/8/8/8/8/8 x - zz y z"),
        Err(FenError::PieceLayout(LayoutError::RankCount(7)))
    );
    assert_eq!(read("8/8/8/8/8/8/8/8 x - zz y z"), Err(FenError::StartingSide));
    assert_eq!(read("8/8/8/8/8/8/8/8 w - zz y z"), Err(FenError::CastlingRights));
    assert_eq!(read("8/8/8/8/8/8/8/8 w KQkq zz y z"), Err(FenError::EnPassant));
    assert_eq!(read("8/8/8/8/8/8/8/8 w KQkq - y z"), Err(FenError::HalfMoveClock));
    assert_eq!(read("8/8/8/8/8/8/8/8 w KQkq - 1 z"), Err(FenError::FullMoveCounte));
}

#[test]
fn splitting_keeps_empty_fields() {
    let fields = |text: &str, sep: char| -> Vec<String> {
        split_chars(&chars_of(text), sep).iter().map(|f| f.iter().collect()).collect()
    };
    assert_eq!(fields("", ' '), vec![""]);
    assert_eq!(fields("a", ' '), vec!["a"]);
    assert_eq!(fields("a b", ' '), vec!["a", "b"]);
    assert_eq!(fields(" a  b ", ' '), vec!["", "a", "", "b", ""]);
    assert_eq!(fields("8/8", '/'), vec!["8", "8"]);
    for text in ["", " ", "a b c", "  x", "x  ", "r/n/b", "\u{e9} \u{4e16}\u{754c} z"].iter() {
        let expected: Vec<String> = text.split(' ').map(|f| f.to_string()).collect();
        assert_eq!(fields(text, ' '), expected);
    }
    assert_eq!(chars_of("h\u{e9}llo"), vec!['h', '\u{e9}', 'l', 'l', 'o']);
}
