//! The value types of the game: sides, pieces and board coordinates.

use crate::displacement::{
    bishop_vectors, king_vectors, knight_vectors, queen_vectors, rook_vectors, Displacement,
};
use core::ops::{Add, AddAssign, Not};
use vstd::prelude::*;
use vstd::std_specs::ops::{AddSpecImpl, NotSpecImpl};

verus! {

/// A chess piece together with the side that owns it.
#[derive(Clone, Copy, PartialEq, Eq, Structural, Debug)]
pub enum Piece {
    Pawn(Player),
    Knight(Player),
    Bishop(Player),
    Rook(Player),
    Queen(Player),
    King(Player),
}

impl Piece {
    /// The side that owns the piece.
    pub open spec fn owner(self) -> Player {
        match self {
            Piece::Pawn(player) => player,
            Piece::Knight(player) => player,
            Piece::Bishop(player) => player,
            Piece::Rook(player) => player,
            Piece::Queen(player) => player,
            Piece::King(player) => player,
        }
    }

    /// The directions along which the piece moves; a pawn has none, because its
    /// moves depend on what stands in front of it.
    pub open spec fn vectors(self) -> Seq<Displacement> {
        match self {
            Piece::Pawn(_) => Seq::empty(),
            Piece::Knight(_) => knight_vectors(),
            Piece::Bishop(_) => bishop_vectors(),
            Piece::Rook(_) => rook_vectors(),
            Piece::Queen(_) => queen_vectors(),
            Piece::King(_) => king_vectors(),
        }
    }

    /// Whether the piece may take more than one step along a direction.
    pub open spec fn slides(self) -> bool {
        self is Bishop || self is Rook || self is Queen
    }

    /// No direction of a piece is the zero step.
    pub proof fn lemma_vectors_are_steps(self)
        ensures
            forall|i: int| 0 <= i < self.vectors().len() ==> (#[trigger] self.vectors()[i]).is_step(),
    {
    }

    /// Every direction of a sliding piece leads to a neighbouring square.
    pub proof fn lemma_sliders_follow_the_compass(self)
        requires
            self.slides(),
        ensures
            forall|i: int|
                0 <= i < self.vectors().len() ==> (#[trigger] self.vectors()[i]).is_compass(),
    {
    }

    /// Whether the piece is a pawn.
    pub fn is_pawn(self) -> (pawn: bool)
        ensures
            pawn == (self is Pawn),
    {
        match self {
            Piece::Pawn(..) => true,
            _ => false,
        }
    }

    /// The side that owns the piece.
    pub fn get_player(self) -> (player: Player)
        ensures
            player == self.owner(),
    {
        match self {
            Self::Pawn(player)
            | Self::Knight(player)
            | Self::Bishop(player)
            | Self::Rook(player)
            | Self::Queen(player)
            | Self::King(player) => player,
        }
    }

    /// The directions along which the piece moves; none for a pawn.
    pub fn get_vectors(self) -> (table: Vec<Displacement>)
        ensures
            table@ == self.vectors(),
    {
        match self {
            Self::Rook(..) => Displacement::get_rook_vectors(),
            Self::Bishop(..) => Displacement::get_bishop_vectors(),
            Self::Knight(..) => Displacement::get_knight_vectors(),
            Self::Queen(..) => Displacement::get_queen_vectors(),
            Self::King(..) => Displacement::get_king_vectors(),
            _ => Vec::new(),
        }
    }

    /// Whether the piece may take more than one step along a direction: true of
    /// bishop, rook and queen.
    pub fn can_snipe(self) -> (sliding: bool)
        ensures
            sliding == self.slides(),
    {
        match self {
            Self::Bishop(..) | Self::Rook(..) | Self::Queen(..) => true,
            _ => false,
        }
    }
}

/// One of the two sides.
#[derive(Clone, Copy, PartialEq, Eq, Structural, Debug)]
pub enum Player {
    White,
    Black,
}

impl Player {
    /// The other side.
    pub open spec fn opponent(self) -> Player {
        match self {
            Player::White => Player::Black,
            Player::Black => Player::White,
        }
    }

    /// The name under which the side is shown.
    pub open spec fn name_spec(self) -> Seq<char> {
        match self {
            Player::White => "White"@,
            Player::Black => "Black"@,
        }
    }

    /// The side's display name, `"White"` or `"Black"`.
    pub fn name(&self) -> (text: String)
        ensures
            text@ == self.name_spec(),
    {
        match self {
            Player::White => "White".to_owned(),
            Player::Black => "Black".to_owned(),
        }
    }
}

impl NotSpecImpl for Player {
    open spec fn obeys_not_spec() -> bool {
        true
    }

    open spec fn not_req(self) -> bool {
        true
    }

    open spec fn not_spec(self) -> Player {
        self.opponent()
    }
}

impl Not for Player {
    type Output = Self;

    /// The other side.
    fn not(self) -> (flipped: Self::Output)
        ensures
            flipped == self.opponent(),
    {
        match self {
            Self::White => Self::Black,
            Self::Black => Self::White,
        }
    }
}

/// An absolute board coordinate: file `x` and rank `y`. A square of the board
/// has both in `0..8`; the type also holds the out-of-range results of stepping
/// off the board.
#[derive(Clone, Copy, PartialEq, Eq, Structural, Hash, Debug)]
pub struct Position {
    pub x: usize,
    pub y: usize,
}

/// One coordinate moved by a signed delta, wrapping around the range of `usize`:
/// a step below zero lands on a very large value, never on a negative one.
pub open spec fn shift_coordinate(c: usize, d: isize) -> usize {
    if c + d > usize::MAX {
        (c + d - (usize::MAX + 1)) as usize
    } else if c + d < 0 {
        (c + d + (usize::MAX + 1)) as usize
    } else {
        (c + d) as usize
    }
}

impl Position {
    /// Whether the position is one of the 64 squares.
    pub open spec fn in_bounds(self) -> bool {
        self.x <= 7 && self.y <= 7
    }

    /// The position moved by `m`, each coordinate wrapping on its own.
    pub open spec fn shifted(self, m: Displacement) -> Position {
        Position { x: shift_coordinate(self.x, m.dx), y: shift_coordinate(self.y, m.dy) }
    }
}

impl AddSpecImpl<Displacement> for Position {
    open spec fn obeys_add_spec() -> bool {
        true
    }

    open spec fn add_req(self, m: Displacement) -> bool {
        true
    }

    open spec fn add_spec(self, m: Displacement) -> Position {
        self.shifted(m)
    }
}

impl Add<Displacement> for Position {
    type Output = Self;

    /// The position moved by `m`. Each coordinate wraps around the range of
    /// `usize`: the result of stepping off the board is out of bounds, never
    /// negative.
    fn add(self, m: Displacement) -> (moved: Self::Output)
        ensures
            moved == self.shifted(m),
    {
        Self { x: self.x.wrapping_add_signed(m.dx), y: self.y.wrapping_add_signed(m.dy) }
    }
}

impl AddAssign<Displacement> for Position {
    /// Moves the position by `m`, wrapping as `+` does.
    fn add_assign(&mut self, m: Displacement)
        ensures
            *final(self) == old(self).shifted(m),
    {
        *self = Self { x: self.x.wrapping_add_signed(m.dx), y: self.y.wrapping_add_signed(m.dy) };
    }
}

} // verus!
