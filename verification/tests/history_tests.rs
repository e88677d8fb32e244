use rusty_chess_engine::gamestate::board::{Board, Side};
use rusty_chess_engine::gamestate::castling_rights::CastlingRights;
use rusty_chess_engine::gamestate::history::History;
use rusty_chess_engine::gamestate::Gamestate;

fn game(clock: u8) -> Gamestate {
    Gamestate::new(Board::default(), Side::White, CastlingRights::new(), 0, clock, 1, 0)
}

#[test]
fn history_keeps_positions_in_order() {
    let mut history = History::new();
    assert_eq!(history.len(), 0);
    history.pop();
    assert_eq!(history.len(), 0);
    history.push(game(1));
    history.push(game(2));
    history.push(game(3));
    assert_eq!(history.len(), 3);
    assert_eq!(history.get_last().half_move_clock, 3);
    history.pop();
    assert_eq!(history.get_last().half_move_clock, 2);
    assert_eq!(*history.get_last(), game(2));
    history.pop();
    history.pop();
    assert_eq!(history.len(), 0);
}

#[test]
fn gamestate_new_keeps_every_field() {
    let mut rights = CastlingRights::new();
    rights.set_rights(Side::Black, rusty_chess_engine::gamestate::castling_rights::CastlingSide::Both);
    let game = Gamestate::new(Board::default(), Side::Black, rights, 4, 5, 6, 7);
    assert_eq!(game.board, Board::default());
    assert_eq!(game.side_to_move, Side::Black);
    assert_eq!(game.castling_rights, rights);
    assert_eq!(game.en_passant, 4);
    assert_eq!(game.half_move_clock, 5);
    assert_eq!(game.full_move_count, 6);
    assert_eq!(game.zobrist_key, 7);
}
