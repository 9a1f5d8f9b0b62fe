use chess::board::Board;
use chess::pieces::{Piece, Player, Position};

fn at(x: usize, y: usize) -> Position {
    Position { x, y }
}

fn with_pieces(pieces: &[(usize, usize, Piece)]) -> Board {
    let mut board = Board::empty();
    for &(x, y, piece) in pieces {
        board.set_piece(at(x, y), Some(piece)).unwrap();
    }
    board
}

fn destinations(board: &Board, from: Position) -> Vec<(usize, usize)> {
    let mut found: Vec<(usize, usize)> = board
        .get_moves()
        .iter()
        .filter(|m| m.0 == from)
        .map(|m| (m.1.x, m.1.y))
        .collect();
    found.sort();
    found
}

#[test]
fn rook_takes_the_knight_on_its_file_and_goes_no_further() {
    let mut board = with_pieces(&[
        (0, 0, Piece::Rook(Player::White)),
        (0, 5, Piece::Knight(Player::Black)),
    ]);
    board.add_moves();
    for y in 1..=5 {
        assert!(board.contains_move(at(0, 0), at(0, y)));
    }
    assert!(!board.contains_move(at(0, 0), at(0, 6)));
    assert!(!board.contains_move(at(0, 0), at(0, 7)));
    assert_eq!(
        destinations(&board, at(0, 0)),
        vec![(0, 1), (0, 2), (0, 3), (0, 4), (0, 5), (1, 0), (2, 0), (3, 0), (4, 0), (5, 0), (6, 0), (7, 0)]
    );
    // the knight belongs to the side that is not to move
    assert_eq!(board.get_moves().len(), 12);
}

#[test]
fn rook_on_an_empty_file_reaches_the_edge() {
    let mut board = with_pieces(&[(3, 2, Piece::Rook(Player::White))]);
    board.add_moves();
    assert_eq!(
        destinations(&board, at(3, 2)),
        vec![
            (0, 2), (1, 2), (2, 2), (3, 0), (3, 1), (3, 3), (3, 4), (3, 5), (3, 6), (3, 7),
            (4, 2), (5, 2), (6, 2), (7, 2)
        ]
    );
}

#[test]
fn slider_stops_short_of_its_own_piece() {
    let mut board = with_pieces(&[
        (0, 0, Piece::Rook(Player::White)),
        (0, 3, Piece::Pawn(Player::White)),
        (2, 0, Piece::Knight(Player::White)),
    ]);
    board.add_moves();
    assert_eq!(destinations(&board, at(0, 0)), vec![(0, 1), (0, 2), (1, 0)]);
}

#[test]
fn bishop_and_queen_slide_along_diagonals() {
    let mut board = with_pieces(&[
        (2, 0, Piece::Bishop(Player::White)),
        (4, 2, Piece::Pawn(Player::Black)),
        (0, 2, Piece::Pawn(Player::White)),
    ]);
    board.add_moves();
    assert_eq!(destinations(&board, at(2, 0)), vec![(1, 1), (3, 1), (4, 2)]);

    let mut board = with_pieces(&[(0, 0, Piece::Queen(Player::White))]);
    board.add_moves();
    assert_eq!(destinations(&board, at(0, 0)).len(), 21);
    assert!(board.contains_move(at(0, 0), at(7, 7)));
    assert!(board.contains_move(at(0, 0), at(0, 7)));
    assert!(board.contains_move(at(0, 0), at(7, 0)));
    assert!(!board.contains_move(at(0, 0), at(1, 2)));
}

#[test]
fn knight_and_king_take_one_step() {
    let mut board = with_pieces(&[
        (0, 0, Piece::Knight(Player::White)),
        (4, 4, Piece::King(Player::White)),
        (1, 2, Piece::Pawn(Player::Black)),
        (2, 1, Piece::Pawn(Player::White)),
        (4, 5, Piece::Pawn(Player::White)),
        (5, 5, Piece::Pawn(Player::Black)),
    ]);
    board.add_moves();
    assert_eq!(destinations(&board, at(0, 0)), vec![(1, 2)]);
    assert_eq!(
        destinations(&board, at(4, 4)),
        vec![(3, 3), (3, 4), (3, 5), (4, 3), (5, 3), (5, 4), (5, 5)]
    );
    // a king next to an empty square goes no further than that square
    assert!(!board.contains_move(at(4, 4), at(2, 4)));
}

#[test]
fn pawn_on_its_start_rank_advances_one_or_two() {
    for x in 0..8 {
        let mut board = with_pieces(&[(x, 1, Piece::Pawn(Player::White))]);
        board.add_moves();
        assert_eq!(destinations(&board, at(x, 1)), vec![(x, 2), (x, 3)]);
    }
}

#[test]
fn pawn_with_the_second_square_taken_advances_one() {
    for x in 0..8 {
        for blocker in [Piece::Pawn(Player::Black), Piece::Knight(Player::White)] {
            let mut board = with_pieces(&[(x, 1, Piece::Pawn(Player::White)), (x, 3, blocker)]);
            board.add_moves();
            assert_eq!(destinations(&board, at(x, 1)), vec![(x, 2)]);
        }
    }
}

#[test]
fn pawn_with_the_next_square_taken_does_not_advance() {
    let mut board = with_pieces(&[
        (4, 1, Piece::Pawn(Player::White)),
        (4, 2, Piece::Pawn(Player::Black)),
    ]);
    board.add_moves();
    assert_eq!(destinations(&board, at(4, 1)), vec![]);
}

#[test]
fn pawn_off_its_start_rank_advances_one() {
    let mut board = with_pieces(&[(4, 2, Piece::Pawn(Player::White))]);
    board.add_moves();
    assert_eq!(destinations(&board, at(4, 2)), vec![(4, 3)]);
    let mut board = with_pieces(&[(4, 6, Piece::Pawn(Player::White))]);
    board.add_moves();
    assert_eq!(destinations(&board, at(4, 6)), vec![(4, 7)]);
    let mut board = with_pieces(&[(4, 7, Piece::Pawn(Player::White))]);
    board.add_moves();
    assert_eq!(destinations(&board, at(4, 7)), vec![]);
}

#[test]
fn black_pawn_advances_down_the_board() {
    let mut board = with_pieces(&[
        (2, 6, Piece::Pawn(Player::Black)),
        (5, 1, Piece::Pawn(Player::Black)),
        (7, 0, Piece::Pawn(Player::Black)),
    ]);
    board.switch_player();
    board.add_moves();
    assert_eq!(destinations(&board, at(2, 6)), vec![(2, 4), (2, 5)]);
    assert_eq!(destinations(&board, at(5, 1)), vec![(5, 0)]);
    assert_eq!(destinations(&board, at(7, 0)), vec![]);
}

#[test]
fn pawn_captures_diagonally_forward_and_only_the_other_side() {
    let mut board = with_pieces(&[
        (3, 3, Piece::Pawn(Player::White)),
        (2, 4, Piece::Knight(Player::Black)),
        (4, 4, Piece::Knight(Player::White)),
        (3, 4, Piece::Pawn(Player::Black)),
        (2, 2, Piece::Pawn(Player::Black)),
    ]);
    board.add_moves();
    assert_eq!(destinations(&board, at(3, 3)), vec![(2, 4)]);

    let mut board = with_pieces(&[
        (0, 4, Piece::Pawn(Player::Black)),
        (1, 3, Piece::Rook(Player::White)),
    ]);
    board.switch_player();
    board.add_moves();
    assert_eq!(destinations(&board, at(0, 4)), vec![(0, 3), (1, 3)]);
}

#[test]
fn initial_position_gives_white_twenty_moves() {
    let mut board = Board::new();
    board.add_moves();
    assert_eq!(board.get_moves().len(), 20);
    for x in 0..8 {
        assert_eq!(destinations(&board, at(x, 1)), vec![(x, 2), (x, 3)]);
    }
    assert_eq!(destinations(&board, at(1, 0)), vec![(0, 2), (2, 2)]);
    assert_eq!(destinations(&board, at(6, 0)), vec![(5, 2), (7, 2)]);
    assert_eq!(destinations(&board, at(0, 0)), vec![]);
    assert_eq!(destinations(&board, at(3, 0)), vec![]);
}

#[test]
fn moves_are_generated_for_the_side_to_move_only() {
    let mut board = Board::new();
    board.add_moves();
    assert!(board.get_moves().iter().all(|m| m.0.y <= 1));
    board.switch_player();
    board.add_moves();
    assert_eq!(board.get_moves().len(), 20);
    assert!(board.get_moves().iter().all(|m| m.0.y >= 6));
    assert_eq!(destinations(&board, at(4, 6)), vec![(4, 4), (4, 5)]);
}

#[test]
fn generation_replaces_what_was_there() {
    let mut board = Board::new();
    board.insert_move(at(0, 0), at(7, 7));
    board.add_moves();
    assert!(!board.contains_move(at(0, 0), at(7, 7)));
    assert_eq!(board.get_moves().len(), 20);
    board.add_moves();
    assert_eq!(board.get_moves().len(), 20);
}

#[test]
fn generate_moves_leaves_the_board_alone() {
    let mut board = Board::new();
    let mut fresh = board.generate_moves();
    assert!(board.get_moves().is_empty());
    board.add_moves();
    let mut held = board.get_moves().clone();
    let key = |m: &(Position, Position)| (m.0.x, m.0.y, m.1.x, m.1.y);
    fresh.sort_by_key(key);
    held.sort_by_key(key);
    assert_eq!(fresh, held);
    // no move is listed twice
    held.dedup();
    assert_eq!(held.len(), 20);
}

#[test]
fn empty_board_has_no_piece_and_no_move() {
    let mut board = Board::empty();
    for x in 0..8 {
        for y in 0..8 {
            assert_eq!(board.get_piece(at(x, y)), None);
        }
    }
    assert_eq!(board.get_player(), Player::White);
    assert!(board.get_moves().is_empty());
    board.add_moves();
    assert!(board.get_moves().is_empty());
}

#[test]
fn generated_move_can_be_applied() {
    let mut board = with_pieces(&[
        (0, 0, Piece::Rook(Player::White)),
        (0, 5, Piece::Knight(Player::Black)),
    ]);
    board.add_moves();
    assert_eq!(board.move_piece(at(0, 0), at(0, 5)), Ok(()));
    assert_eq!(board.get_piece(at(0, 5)), Some(Piece::Rook(Player::White)));
    assert_eq!(board.get_piece(at(0, 0)), None);
}
