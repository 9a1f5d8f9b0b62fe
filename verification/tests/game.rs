use chess::board::Board;
use chess::castling_rights::{CastlingRights, CastlingSide};
use chess::game::{ChessError, Game};
use chess::moves::Move;
use chess::pieces::{Piece, Player, Position};
use std::time::Duration;

fn at(x: usize, y: usize) -> Position {
    Position { x, y }
}

fn squares(board: &Board) -> Vec<Option<Piece>> {
    let mut all = Vec::new();
    for y in 0..8 {
        for x in 0..8 {
            all.push(board.get_piece(at(x, y)));
        }
    }
    all
}

fn held(rights: CastlingRights) -> Vec<bool> {
    vec![
        rights.is_eligible(Player::White, CastlingSide::Kingside),
        rights.is_eligible(Player::White, CastlingSide::Queenside),
        rights.is_eligible(Player::Black, CastlingSide::Kingside),
        rights.is_eligible(Player::Black, CastlingSide::Queenside),
    ]
}

#[test]
fn new_game_starts_with_whites_moves() {
    let game = Game::with_start_time(Duration::from_secs(90));
    assert_eq!(game.start_time(), Duration::from_secs(90));
    assert_eq!(game.board().get_player(), Player::White);
    assert_eq!(squares(game.board()), squares(&Board::new()));
    assert_eq!(game.legal_moves().len(), 20);
    assert!(game.history().is_empty());
    assert_eq!(held(game.castling_rights()), vec![true, true, true, true]);
}

#[test]
fn ply_moves_records_flips_and_regenerates() {
    let mut game = Game::with_start_time(Duration::from_secs(0));
    assert_eq!(game.apply_move(at(4, 1), at(4, 3)), Ok(()));
    assert_eq!(game.board().get_piece(at(4, 3)), Some(Piece::Pawn(Player::White)));
    assert_eq!(game.board().get_piece(at(4, 1)), None);
    assert_eq!(game.history(), &vec![Move { from: at(4, 1), to: at(4, 3) }]);
    assert_eq!(game.board().get_player(), Player::Black);
    assert_eq!(game.legal_moves().len(), 20);
    assert!(game.legal_moves().iter().all(|m| m.0.y >= 6));
    assert_eq!(game.apply_move(at(3, 6), at(3, 4)), Ok(()));
    assert_eq!(game.board().get_player(), Player::White);
    // the pawn on e4 may now take on d5
    assert!(game.legal_moves().contains(&(at(4, 3), at(3, 4))));
    assert_eq!(game.apply_move(at(4, 3), at(3, 4)), Ok(()));
    assert_eq!(game.board().get_piece(at(3, 4)), Some(Piece::Pawn(Player::White)));
    assert_eq!(game.history().len(), 3);
    assert_eq!(held(game.castling_rights()), vec![true, true, true, true]);
}

#[test]
fn refused_ply_leaves_the_game_as_it_was() {
    let mut game = Game::with_start_time(Duration::from_secs(7));
    game.apply_move(at(4, 1), at(4, 3)).unwrap();
    let before = squares(game.board());
    let moves = game.legal_moves().clone();
    // white's pawn is not black's to move
    assert_eq!(game.apply_move(at(4, 3), at(4, 4)), Err(ChessError::InvalidMove));
    assert_eq!(game.apply_move(at(4, 4), at(4, 5)), Err(ChessError::NoPieceAtPosition));
    assert_eq!(game.apply_move(at(4, 8), at(4, 5)), Err(ChessError::OutOfBounds));
    assert_eq!(game.apply_move(at(4, 6), at(4, 8)), Err(ChessError::OutOfBounds));
    assert_eq!(squares(game.board()), before);
    assert_eq!(game.legal_moves(), &moves);
    assert_eq!(game.history().len(), 1);
    assert_eq!(game.board().get_player(), Player::Black);
    assert_eq!(game.start_time(), Duration::from_secs(7));
    assert_eq!(held(game.castling_rights()), vec![true, true, true, true]);
}

#[test]
fn king_and_rook_moves_end_castling_rights() {
    let mut game = Game::with_start_time(Duration::from_secs(0));
    game.apply_move(at(4, 1), at(4, 3)).unwrap();
    game.apply_move(at(0, 6), at(0, 4)).unwrap();
    // the white king steps forward
    game.apply_move(at(4, 0), at(4, 1)).unwrap();
    assert_eq!(held(game.castling_rights()), vec![false, false, true, true]);
    // the black queenside rook leaves its square
    game.apply_move(at(0, 7), at(0, 5)).unwrap();
    assert_eq!(held(game.castling_rights()), vec![false, false, true, false]);
    // the king goes home again: the rights stay lost
    game.apply_move(at(4, 1), at(4, 0)).unwrap();
    game.apply_move(at(0, 5), at(0, 7)).unwrap();
    assert_eq!(held(game.castling_rights()), vec![false, false, true, false]);
}

#[test]
fn rights_are_lost_by_square_and_never_regained() {
    let mut rights = CastlingRights::new();
    assert_eq!(held(rights), vec![true, true, true, true]);
    // a pawn move far from the corners ends nothing
    rights.record_move(Piece::Pawn(Player::White), at(4, 1), at(4, 3));
    assert_eq!(held(rights), vec![true, true, true, true]);
    // something lands on the black kingside rook's square
    rights.record_move(Piece::Bishop(Player::White), at(6, 6), at(7, 7));
    assert_eq!(held(rights), vec![true, true, false, true]);
    // the white queenside rook leaves
    rights.record_move(Piece::Rook(Player::White), at(0, 0), at(0, 4));
    assert_eq!(held(rights), vec![true, false, false, true]);
    // the black king moves
    rights.record_move(Piece::King(Player::Black), at(4, 7), at(4, 6));
    assert_eq!(held(rights), vec![true, false, false, false]);
    // a rook arriving on the corner grants nothing
    rights.record_move(Piece::Rook(Player::White), at(0, 4), at(0, 0));
    assert_eq!(held(rights), vec![true, false, false, false]);
    rights.record_move(Piece::King(Player::White), at(4, 0), at(4, 1));
    assert_eq!(held(rights), vec![false, false, false, false]);
}

#[test]
fn promotion_through_the_game_regenerates_the_moves() {
    let mut game = Game::with_start_time(Duration::from_secs(0));
    // a rook is no pawn
    assert_eq!(
        game.promote(at(0, 0), Piece::Queen(Player::White)),
        Err(ChessError::InvalidPromotion)
    );
    assert_eq!(
        game.promote(at(0, 3), Piece::Queen(Player::White)),
        Err(ChessError::NoPieceAtPosition)
    );
    assert_eq!(
        game.promote(at(0, 1), Piece::Queen(Player::White)),
        Err(ChessError::InvalidPromotion)
    );
    assert_eq!(game.legal_moves().len(), 20);
    // march the a-pawn to the far rank: a2-a4, h7-h5, a4-a5, h5-h4, a5-a6, h4-h3,
    // a6xb7, h3xg2, b7xa8
    for (from, to) in [
        (at(0, 1), at(0, 3)),
        (at(7, 6), at(7, 4)),
        (at(0, 3), at(0, 4)),
        (at(7, 4), at(7, 3)),
        (at(0, 4), at(0, 5)),
        (at(7, 3), at(7, 2)),
        (at(0, 5), at(1, 6)),
        (at(7, 2), at(6, 1)),
        (at(1, 6), at(0, 7)),
    ] {
        assert_eq!(game.apply_move(from, to), Ok(()));
    }
    assert_eq!(game.board().get_piece(at(0, 7)), Some(Piece::Pawn(Player::White)));
    // the rook's square was entered: black has lost the queenside right
    assert_eq!(held(game.castling_rights()), vec![true, true, true, false]);
    assert_eq!(game.promote(at(0, 7), Piece::Queen(Player::White)), Ok(()));
    assert_eq!(game.board().get_piece(at(0, 7)), Some(Piece::Queen(Player::White)));
    assert_eq!(game.board().get_player(), Player::Black);
    assert_eq!(game.history().len(), 9);
    // black is still to move; its own pawn may promote too
    assert!(game.legal_moves().contains(&(at(6, 1), at(7, 0))));
    game.apply_move(at(6, 1), at(7, 0)).unwrap();
    // now the new queen moves like a queen
    assert!(game.legal_moves().contains(&(at(0, 7), at(1, 7))));
    assert!(game.legal_moves().contains(&(at(0, 7), at(0, 6))));
}

#[test]
fn moving_back_does_not_restore_a_taken_piece() {
    let mut board = Board::new();
    let start = squares(&board);
    board.insert_move(at(0, 1), at(0, 6));
    board.insert_move(at(0, 6), at(0, 1));
    board.move_piece(at(0, 1), at(0, 6)).unwrap();
    board.move_piece(at(0, 6), at(0, 1)).unwrap();
    assert_ne!(squares(&board), start);
    assert_eq!(board.get_piece(at(0, 1)), Some(Piece::Pawn(Player::White)));
    assert_eq!(board.get_piece(at(0, 6)), None);
}

#[test]
fn replaying_the_history_rebuilds_the_board() {
    let mut game = Game::with_start_time(Duration::from_secs(0));
    for (from, to) in [
        (at(4, 1), at(4, 3)),
        (at(3, 6), at(3, 4)),
        (at(4, 3), at(3, 4)),
        (at(3, 7), at(3, 4)),
        (at(1, 0), at(2, 2)),
        (at(3, 4), at(4, 4)),
    ] {
        assert_eq!(game.apply_move(from, to), Ok(()));
    }
    let mut replayed = Game::with_start_time(Duration::from_secs(0));
    for ply in game.history().clone() {
        assert_eq!(replayed.apply_move(ply.from, ply.to), Ok(()));
    }
    assert_eq!(squares(replayed.board()), squares(game.board()));
    assert_eq!(replayed.board().get_player(), game.board().get_player());
    assert_eq!(replayed.history(), game.history());
    assert_eq!(replayed.board().get_player(), Player::White);
}
