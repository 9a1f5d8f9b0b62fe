//! Moves as pairs of squares, and the steps that pawns take.

use crate::displacement::{step, Displacement};
use crate::pieces::{Player, Position};
use vstd::prelude::*;

verus! {

/// A move from one square to another.
#[derive(Clone, Copy, PartialEq, Eq, Structural, Debug)]
pub struct Move {
    pub from: Position,
    pub to: Position,
}

/// The single step by which a pawn of `player` advances: up the board for
/// White, down for Black.
pub open spec fn pawn_advance(player: Player) -> Displacement {
    match player {
        Player::White => step(0, 1),
        Player::Black => step(0, -1),
    }
}

/// The two diagonal steps by which a pawn of `player` captures.
pub open spec fn pawn_captures(player: Player) -> Seq<Displacement> {
    match player {
        Player::White => seq![step(-1, 1), step(1, 1)],
        Player::Black => seq![step(-1, -1), step(1, -1)],
    }
}

/// The rank on which the pawns of `player` start.
pub open spec fn pawn_start_rank(player: Player) -> int {
    match player {
        Player::White => 1,
        Player::Black => 6,
    }
}

/// The rank on which a pawn of `player` is promoted.
pub open spec fn promotion_rank(player: Player) -> int {
    match player {
        Player::White => 7,
        Player::Black => 0,
    }
}

impl Move {
    /// The step by which a pawn of `player` advances.
    pub fn get_pawn_advance_move(player: Player) -> (m: Displacement)
        ensures
            m == pawn_advance(player),
    {
        match player {
            Player::White => Displacement { dx: 0, dy: 1 },
            Player::Black => Displacement { dx: 0, dy: -1 },
        }
    }

    /// The two steps by which a white pawn captures.
    pub fn get_pawn_capture_moves_white() -> (table: [Displacement; 2])
        ensures
            table@ == pawn_captures(Player::White),
    {
        let table = [Displacement { dx: -1, dy: 1 }, Displacement { dx: 1, dy: 1 }];
        assert(table@ =~= pawn_captures(Player::White));
        table
    }

    /// The two steps by which a black pawn captures.
    pub fn get_pawn_capture_moves_black() -> (table: [Displacement; 2])
        ensures
            table@ == pawn_captures(Player::Black),
    {
        let table = [Displacement { dx: -1, dy: -1 }, Displacement { dx: 1, dy: -1 }];
        assert(table@ =~= pawn_captures(Player::Black));
        table
    }
}

} // verus!
