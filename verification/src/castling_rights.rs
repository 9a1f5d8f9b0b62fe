//! Which castlings are still allowed: one right per side and per rook.

use crate::pieces::{Piece, Player, Position};
use vstd::prelude::*;

verus! {

/// The wing on which a king castles.
#[derive(Clone, Copy, PartialEq, Eq, Structural, Debug)]
pub enum CastlingSide {
    Kingside,
    Queenside,
}

/// The square on which the rook of `player` for castling on `side` starts.
pub open spec fn rook_home(player: Player, side: CastlingSide) -> Position {
    Position {
        x: match side {
            CastlingSide::Kingside => 7,
            CastlingSide::Queenside => 0,
        },
        y: match player {
            Player::White => 0,
            Player::Black => 7,
        },
    }
}

/// Whether the move of `piece` from `from` to `to` ends the right of `player`
/// to castle on `side`: the king of `player` moves, or the rook's home square
/// is left or entered.
pub open spec fn revokes(
    piece: Piece,
    from: Position,
    to: Position,
    player: Player,
    side: CastlingSide,
) -> bool {
    piece == Piece::King(player) || from == rook_home(player, side) || to == rook_home(
        player,
        side,
    )
}

/// The rights that the move of `piece` from `from` to `to` ends.
pub open spec fn revoked_by(piece: Piece, from: Position, to: Position) -> Set<
    (Player, CastlingSide),
> {
    Set::new(|right: (Player, CastlingSide)| revokes(piece, from, to, right.0, right.1))
}

/// All four rights.
pub open spec fn all_rights() -> Set<(Player, CastlingSide)> {
    Set::new(|right: (Player, CastlingSide)| true)
}

/// The castling rights of both sides. A right that was lost never comes back.
#[derive(Clone, Copy, PartialEq, Eq, Structural, Debug)]
pub struct CastlingRights {
    white_kingside: bool,
    white_queenside: bool,
    black_kingside: bool,
    black_queenside: bool,
}

impl View for CastlingRights {
    type V = Set<(Player, CastlingSide)>;

    /// The rights that are still held.
    closed spec fn view(&self) -> Set<(Player, CastlingSide)> {
        Set::new(
            |right: (Player, CastlingSide)|
                match right {
                    (Player::White, CastlingSide::Kingside) => self.white_kingside,
                    (Player::White, CastlingSide::Queenside) => self.white_queenside,
                    (Player::Black, CastlingSide::Kingside) => self.black_kingside,
                    (Player::Black, CastlingSide::Queenside) => self.black_queenside,
                },
        )
    }
}

impl CastlingRights {
    /// The rights at the start of a game: all four.
    pub fn new() -> (rights: Self)
        ensures
            rights@ == all_rights(),
    {
        let rights = Self {
            white_kingside: true,
            white_queenside: true,
            black_kingside: true,
            black_queenside: true,
        };
        assert(rights@ =~= all_rights());
        rights
    }

    /// Whether `player` may still castle on `side`.
    pub fn is_eligible(&self, player: Player, side: CastlingSide) -> (eligible: bool)
        ensures
            eligible == self@.contains((player, side)),
    {
        match (player, side) {
            (Player::White, CastlingSide::Kingside) => self.white_kingside,
            (Player::White, CastlingSide::Queenside) => self.white_queenside,
            (Player::Black, CastlingSide::Kingside) => self.black_kingside,
            (Player::Black, CastlingSide::Queenside) => self.black_queenside,
        }
    }

    /// Takes away the rights that the move of `piece` from `from` to `to` ends.
    pub fn record_move(&mut self, piece: Piece, from: Position, to: Position)
        ensures
            final(self)@ == old(self)@.difference(revoked_by(piece, from, to)),
            final(self)@.subset_of(old(self)@),
    {
        let white_king = match piece {
            Piece::King(Player::White) => true,
            _ => false,
        };
        let black_king = match piece {
            Piece::King(Player::Black) => true,
            _ => false,
        };
        if white_king || touches(from, to, 7, 0) {
            self.white_kingside = false;
        }
        if white_king || touches(from, to, 0, 0) {
            self.white_queenside = false;
        }
        if black_king || touches(from, to, 7, 7) {
            self.black_kingside = false;
        }
        if black_king || touches(from, to, 0, 7) {
            self.black_queenside = false;
        }
        assert(self@ =~= old(self)@.difference(revoked_by(piece, from, to)));
    }
}

/// Whether the move from `from` to `to` leaves or enters the square on file `x`
/// and rank `y`.
fn touches(from: Position, to: Position, x: usize, y: usize) -> (touched: bool)
    ensures
        touched == (from == (Position { x, y }) || to == (Position { x, y })),
{
    (from.x == x && from.y == y) || (to.x == x && to.y == y)
}

/// A move ends rights and grants none.
pub proof fn lemma_rights_only_shrink(
    rights: Set<(Player, CastlingSide)>,
    piece: Piece,
    from: Position,
    to: Position,
)
    ensures
        rights.difference(revoked_by(piece, from, to)).subset_of(rights),
{
}

} // verus!
