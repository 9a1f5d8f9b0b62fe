//! Relative steps on the board and the fixed step tables of each piece shape.

use vstd::prelude::*;

verus! {

/// A relative step: `dx` files to the right and `dy` ranks up.
#[derive(Clone, Copy, PartialEq, Eq, Structural, Debug)]
pub struct Displacement {
    pub dx: isize,
    pub dy: isize,
}

/// The step of `dx` files and `dy` ranks, as a specification value.
pub open spec fn step(dx: int, dy: int) -> Displacement {
    Displacement { dx: dx as isize, dy: dy as isize }
}

/// The four orthogonal directions.
pub open spec fn rook_vectors() -> Seq<Displacement> {
    seq![step(0, 1), step(1, 0), step(0, -1), step(-1, 0)]
}

/// The four diagonal directions.
pub open spec fn bishop_vectors() -> Seq<Displacement> {
    seq![step(1, 1), step(1, -1), step(-1, -1), step(-1, 1)]
}

/// The eight knight jumps.
pub open spec fn knight_vectors() -> Seq<Displacement> {
    seq![
        step(1, 2),
        step(2, 1),
        step(2, -1),
        step(1, -2),
        step(-1, -2),
        step(-2, -1),
        step(-2, 1),
        step(-1, 2),
    ]
}

/// The eight directions of the compass: the orthogonal ones, then the diagonal ones.
pub open spec fn queen_vectors() -> Seq<Displacement> {
    rook_vectors() + bishop_vectors()
}

/// The eight directions of the compass; a king takes one step along any of them.
pub open spec fn king_vectors() -> Seq<Displacement> {
    queen_vectors()
}

impl Displacement {
    /// Whether the step leads away from where it starts.
    pub open spec fn is_step(self) -> bool {
        self.dx != 0 || self.dy != 0
    }

    /// Whether the step leads to one of the eight neighbouring squares.
    pub open spec fn is_compass(self) -> bool {
        self.is_step() && -1 <= self.dx <= 1 && -1 <= self.dy <= 1
    }

    /// The four orthogonal directions.
    pub fn get_rook_vectors() -> (table: Vec<Displacement>)
        ensures
            table@ == rook_vectors(),
    {
        let table = vec![
            Displacement { dx: 0, dy: 1 },
            Displacement { dx: 1, dy: 0 },
            Displacement { dx: 0, dy: -1 },
            Displacement { dx: -1, dy: 0 },
        ];
        assert(table@ =~= rook_vectors());
        table
    }

    /// The four diagonal directions.
    pub fn get_bishop_vectors() -> (table: Vec<Displacement>)
        ensures
            table@ == bishop_vectors(),
    {
        let table = vec![
            Displacement { dx: 1, dy: 1 },
            Displacement { dx: 1, dy: -1 },
            Displacement { dx: -1, dy: -1 },
            Displacement { dx: -1, dy: 1 },
        ];
        assert(table@ =~= bishop_vectors());
        table
    }

    /// The eight knight jumps.
    pub fn get_knight_vectors() -> (table: Vec<Displacement>)
        ensures
            table@ == knight_vectors(),
    {
        let table = vec![
            Displacement { dx: 1, dy: 2 },
            Displacement { dx: 2, dy: 1 },
            Displacement { dx: 2, dy: -1 },
            Displacement { dx: 1, dy: -2 },
            Displacement { dx: -1, dy: -2 },
            Displacement { dx: -2, dy: -1 },
            Displacement { dx: -2, dy: 1 },
            Displacement { dx: -1, dy: 2 },
        ];
        assert(table@ =~= knight_vectors());
        table
    }

    /// The eight directions of the compass.
    pub fn get_queen_vectors() -> (table: Vec<Displacement>)
        ensures
            table@ == queen_vectors(),
    {
        let table = vec![
            Displacement { dx: 0, dy: 1 },
            Displacement { dx: 1, dy: 0 },
            Displacement { dx: 0, dy: -1 },
            Displacement { dx: -1, dy: 0 },
            Displacement { dx: 1, dy: 1 },
            Displacement { dx: 1, dy: -1 },
            Displacement { dx: -1, dy: -1 },
            Displacement { dx: -1, dy: 1 },
        ];
        assert(table@ =~= queen_vectors());
        table
    }

    /// The eight directions of the compass.
    pub fn get_king_vectors() -> (table: Vec<Displacement>)
        ensures
            table@ == king_vectors(),
    {
        Self::get_queen_vectors()
    }
}

} // verus!
