use chess::displacement::Displacement;
use chess::moves::Move;
use chess::pieces::{Piece, Player, Position};

fn d(dx: isize, dy: isize) -> Displacement {
    Displacement { dx, dy }
}

#[test]
fn test_add_position() {
    let mut p = Position { x: 0, y: 0 };
    let m_up = Displacement { dx: 0, dy: 1 };
    let m_right = Displacement { dx: 1, dy: 0 };

    for _ in 0..10 {
        p = p + m_right + m_up
    }
    assert_eq!(p, Position { x: 10, y: 10 })
}

#[test]
fn stepping_below_zero_wraps_to_a_huge_coordinate() {
    let p = Position { x: 0, y: 3 } + d(-1, -1);
    assert_eq!(p, Position { x: usize::MAX, y: 2 });
    let q = Position { x: 2, y: 0 } + d(-2, -2);
    assert_eq!(q, Position { x: 0, y: usize::MAX - 1 });
    let r = Position { x: usize::MAX, y: usize::MAX } + d(1, 2);
    assert_eq!(r, Position { x: 0, y: 1 });
}

#[test]
fn add_assign_moves_in_place() {
    let mut p = Position { x: 4, y: 4 };
    p += d(-2, 1);
    assert_eq!(p, Position { x: 2, y: 5 });
    p += d(-3, 0);
    assert_eq!(p, Position { x: usize::MAX, y: 5 });
    p += d(1, 0);
    assert_eq!(p, Position { x: 0, y: 5 });
}

#[test]
fn not_flips_the_side() {
    assert_eq!(!Player::White, Player::Black);
    assert_eq!(!Player::Black, Player::White);
    assert_eq!(!!Player::White, Player::White);
}

#[test]
fn players_are_named() {
    assert_eq!(Player::White.name(), "White");
    assert_eq!(Player::Black.name(), "Black");
}

#[test]
fn pieces_know_their_owner_and_shape() {
    for player in [Player::White, Player::Black] {
        let all = [
            Piece::Pawn(player),
            Piece::Knight(player),
            Piece::Bishop(player),
            Piece::Rook(player),
            Piece::Queen(player),
            Piece::King(player),
        ];
        for piece in all {
            assert_eq!(piece.get_player(), player);
        }
        assert!(Piece::Pawn(player).is_pawn());
        assert!(!Piece::King(player).is_pawn());
        assert!(!Piece::Queen(player).is_pawn());
        assert!(Piece::Bishop(player).can_snipe());
        assert!(Piece::Rook(player).can_snipe());
        assert!(Piece::Queen(player).can_snipe());
        assert!(!Piece::Pawn(player).can_snipe());
        assert!(!Piece::Knight(player).can_snipe());
        assert!(!Piece::King(player).can_snipe());
    }
}

#[test]
fn vector_tables_hold_the_steps_of_each_shape() {
    let rook = vec![d(0, 1), d(1, 0), d(0, -1), d(-1, 0)];
    let bishop = vec![d(1, 1), d(1, -1), d(-1, -1), d(-1, 1)];
    let knight = vec![
        d(1, 2),
        d(2, 1),
        d(2, -1),
        d(1, -2),
        d(-1, -2),
        d(-2, -1),
        d(-2, 1),
        d(-1, 2),
    ];
    let mut queen = rook.clone();
    queen.extend(bishop.clone());
    assert_eq!(Displacement::get_rook_vectors(), rook);
    assert_eq!(Displacement::get_bishop_vectors(), bishop);
    assert_eq!(Displacement::get_knight_vectors(), knight);
    assert_eq!(Displacement::get_queen_vectors(), queen);
    assert_eq!(Displacement::get_king_vectors(), queen);
    assert_eq!(Piece::Rook(Player::White).get_vectors(), rook);
    assert_eq!(Piece::Bishop(Player::Black).get_vectors(), bishop);
    assert_eq!(Piece::Knight(Player::White).get_vectors(), knight);
    assert_eq!(Piece::Queen(Player::Black).get_vectors(), queen);
    assert_eq!(Piece::King(Player::White).get_vectors(), queen);
    assert_eq!(Piece::Pawn(Player::White).get_vectors(), vec![]);
}

#[test]
fn pawns_advance_away_from_their_own_side() {
    assert_eq!(Move::get_pawn_advance_move(Player::White), d(0, 1));
    assert_eq!(Move::get_pawn_advance_move(Player::Black), d(0, -1));
    assert_eq!(Move::get_pawn_capture_moves_white(), [d(-1, 1), d(1, 1)]);
    assert_eq!(Move::get_pawn_capture_moves_black(), [d(-1, -1), d(1, -1)]);
}
