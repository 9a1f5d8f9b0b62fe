//! The rules of movement, stated over a mathematical model of the board: a map
//! from the occupied squares to the pieces that stand on them.

use crate::displacement::Displacement;
use crate::moves::{pawn_advance, pawn_captures, pawn_start_rank};
use crate::pieces::{Piece, Player, Position};
use vstd::prelude::*;

verus! {

/// The square `k` steps of `d` away from `from`, where that is a square of the
/// board. The steps are counted in whole numbers: nothing wraps.
pub open spec fn target(from: Position, d: Displacement, k: int) -> Option<Position> {
    let x = from.x + k * d.dx;
    let y = from.y + k * d.dy;
    if 0 <= x <= 7 && 0 <= y <= 7 {
        Some(Position { x: x as usize, y: y as usize })
    } else {
        None
    }
}

/// The `j`-th step of `d` from `from` lands on a square of the board that is empty.
pub open spec fn free_at(
    pieces: Map<Position, Piece>,
    from: Position,
    d: Displacement,
    j: int,
) -> bool {
    target(from, d, j) matches Some(q) && !pieces.dom().contains(q)
}

/// Every step before the `k`-th lands on an empty square of the board.
pub open spec fn path_clear(
    pieces: Map<Position, Piece>,
    from: Position,
    d: Displacement,
    k: int,
) -> bool {
    forall|j: int| 1 <= j < k ==> #[trigger] free_at(pieces, from, d, j)
}

/// A piece of `player` that walks from `from` along `d` arrives at `to` with its
/// `k`-th step: the squares before are empty, and `to` is empty or holds a piece
/// of the other side. Only a sliding piece takes more than one step.
pub open spec fn reaches(
    pieces: Map<Position, Piece>,
    player: Player,
    sliding: bool,
    from: Position,
    d: Displacement,
    k: int,
    to: Position,
) -> bool {
    &&& 1 <= k
    &&& sliding || k == 1
    &&& target(from, d, k) == Some(to)
    &&& path_clear(pieces, from, d, k)
    &&& pieces.dom().contains(to) ==> pieces[to].owner() != player
}

/// `piece`, standing on `from` and owned by `player`, moves to `to` along one
/// of its directions.
pub open spec fn piece_move(
    pieces: Map<Position, Piece>,
    player: Player,
    piece: Piece,
    from: Position,
    to: Position,
) -> bool {
    exists|i: int, k: int|
        0 <= i < piece.vectors().len() && #[trigger] reaches(
            pieces,
            player,
            piece.slides(),
            from,
            piece.vectors()[i],
            k,
            to,
        )
}

/// A pawn of `player` advances one square from `from` to the empty square `to`.
pub open spec fn pawn_single(
    pieces: Map<Position, Piece>,
    player: Player,
    from: Position,
    to: Position,
) -> bool {
    target(from, pawn_advance(player), 1) == Some(to) && !pieces.dom().contains(to)
}

/// A pawn of `player` advances two squares from its start rank: both the square
/// it passes and the square `to` it arrives on are empty.
pub open spec fn pawn_double(
    pieces: Map<Position, Piece>,
    player: Player,
    from: Position,
    to: Position,
) -> bool {
    &&& from.y == pawn_start_rank(player)
    &&& free_at(pieces, from, pawn_advance(player), 1)
    &&& target(from, pawn_advance(player), 2) == Some(to)
    &&& !pieces.dom().contains(to)
}

/// A pawn of `player` captures with the diagonal step `d`: `to` holds a piece of
/// the other side.
pub open spec fn captures_along(
    pieces: Map<Position, Piece>,
    player: Player,
    from: Position,
    d: Displacement,
    to: Position,
) -> bool {
    target(from, d, 1) == Some(to) && pieces.dom().contains(to) && pieces[to].owner() != player
}

/// A pawn of `player` captures from `from` on `to`.
pub open spec fn pawn_capture(
    pieces: Map<Position, Piece>,
    player: Player,
    from: Position,
    to: Position,
) -> bool {
    exists|i: int|
        0 <= i < pawn_captures(player).len() && #[trigger] captures_along(
            pieces,
            player,
            from,
            pawn_captures(player)[i],
            to,
        )
}

/// The moves of the piece `piece` of `player` that stands on `from`.
pub open spec fn moves_of(
    pieces: Map<Position, Piece>,
    player: Player,
    piece: Piece,
    from: Position,
    to: Position,
) -> bool {
    if piece is Pawn {
        pawn_single(pieces, player, from, to) || pawn_double(pieces, player, from, to)
            || pawn_capture(pieces, player, from, to)
    } else {
        piece_move(pieces, player, piece, from, to)
    }
}

/// The move from `from` to `to` is pseudo-legal for `player`: a piece of
/// `player` stands on `from` and its shape and the occupancy of the board let it
/// go to `to`. Whether the move leaves the player's own king attacked is not
/// considered.
pub open spec fn pseudo_legal(
    pieces: Map<Position, Piece>,
    player: Player,
    from: Position,
    to: Position,
) -> bool {
    &&& pieces.dom().contains(from)
    &&& pieces[from].owner() == player
    &&& moves_of(pieces, player, pieces[from], from, to)
}

/// All pseudo-legal moves of `player`.
pub open spec fn pseudo_legal_moves(pieces: Map<Position, Piece>, player: Player) -> Set<
    (Position, Position),
> {
    Set::new(|m: (Position, Position)| pseudo_legal(pieces, player, m.0, m.1))
}

/// All moves from `from` along `d`.
pub open spec fn ray_moves(
    pieces: Map<Position, Piece>,
    player: Player,
    sliding: bool,
    from: Position,
    d: Displacement,
) -> Set<(Position, Position)> {
    Set::new(
        |m: (Position, Position)|
            m.0 == from && exists|k: int|
                #[trigger] reaches(pieces, player, sliding, from, d, k, m.1),
    )
}

/// A pseudo-legal move leads from a square of the board to a square of the
/// board that is empty or holds a piece of the other side.
pub proof fn lemma_move_ends_on_free_or_opposing_square(
    pieces: Map<Position, Piece>,
    player: Player,
    from: Position,
    to: Position,
)
    requires
        forall|p: Position| #[trigger] pieces.dom().contains(p) ==> p.in_bounds(),
        pseudo_legal(pieces, player, from, to),
    ensures
        from.in_bounds(),
        to.in_bounds(),
        pieces.dom().contains(to) ==> pieces[to].owner() != player,
{
}

/// Along one direction a sliding piece goes to every empty square before the
/// first occupied one and not beyond it. It takes the piece that stands there
/// if that belongs to the other side, and stops short of one of its own side.
pub proof fn lemma_slide_stops_at_first_piece(
    pieces: Map<Position, Piece>,
    player: Player,
    from: Position,
    d: Displacement,
    n: int,
    blocker: Position,
)
    requires
        1 <= n,
        path_clear(pieces, from, d, n),
        target(from, d, n) == Some(blocker),
        pieces.dom().contains(blocker),
    ensures
        forall|k: int, to: Position|
            1 <= k < n && target(from, d, k) == Some(to) ==> #[trigger] reaches(
                pieces,
                player,
                true,
                from,
                d,
                k,
                to,
            ),
        reaches(pieces, player, true, from, d, n, blocker) <==> pieces[blocker].owner()
            != player,
        forall|k: int, to: Position|
            n < k ==> !#[trigger] reaches(pieces, player, true, from, d, k, to),
        ray_moves(pieces, player, true, from, d).contains((from, blocker)) <==> pieces[blocker].owner()
            != player,
{
    assert forall|k: int, to: Position| 1 <= k < n && target(from, d, k) == Some(to) implies
        #[trigger] reaches(pieces, player, true, from, d, k, to) by {
        assert(free_at(pieces, from, d, k));
        assert forall|j: int| 1 <= j < k implies #[trigger] free_at(pieces, from, d, j) by {
            assert(j < n);
        }
    }
    assert forall|k: int, to: Position| n < k implies !#[trigger] reaches(
        pieces,
        player,
        true,
        from,
        d,
        k,
        to,
    ) by {
        if reaches(pieces, player, true, from, d, k, to) {
            assert(free_at(pieces, from, d, n));
        }
    }
    let along = ray_moves(pieces, player, true, from, d);
    if along.contains((from, blocker)) {
        let k = choose|k: int| #[trigger] reaches(pieces, player, true, from, d, k, blocker);
        assert(reaches(pieces, player, true, from, d, k, blocker));
        if k < n {
            assert(free_at(pieces, from, d, k));
        }
        assert(k == n);
        assert(pieces[blocker].owner() != player);
    }
    if pieces[blocker].owner() != player {
        let m = (from, blocker);
        assert(reaches(pieces, player, true, from, d, n, m.1));
    }
}

/// Where nothing stands in the way, a sliding piece goes to every square up to
/// the edge of the board: `n` is the first step that leaves the board.
pub proof fn lemma_slide_reaches_edge(
    pieces: Map<Position, Piece>,
    player: Player,
    from: Position,
    d: Displacement,
    n: int,
)
    requires
        1 <= n,
        path_clear(pieces, from, d, n),
        target(from, d, n) is None,
    ensures
        forall|k: int, to: Position|
            1 <= k < n && target(from, d, k) == Some(to) ==> #[trigger] reaches(
                pieces,
                player,
                true,
                from,
                d,
                k,
                to,
            ),
        forall|k: int, to: Position|
            n <= k ==> !#[trigger] reaches(pieces, player, true, from, d, k, to),
{
    assert forall|k: int, to: Position| 1 <= k < n && target(from, d, k) == Some(to) implies
        #[trigger] reaches(pieces, player, true, from, d, k, to) by {
        assert(free_at(pieces, from, d, k));
        assert forall|j: int| 1 <= j < k implies #[trigger] free_at(pieces, from, d, j) by {
            assert(j < n);
        }
    }
    assert forall|k: int, to: Position| n <= k implies !#[trigger] reaches(
        pieces,
        player,
        true,
        from,
        d,
        k,
        to,
    ) by {
        if n < k && reaches(pieces, player, true, from, d, k, to) {
            assert(free_at(pieces, from, d, n));
        }
    }
}

/// Two walks from one square along directions of the compass that end on the
/// same square have the same direction and the same length.
pub proof fn lemma_walks_meet_once(
    from: Position,
    d1: Displacement,
    k1: int,
    d2: Displacement,
    k2: int,
)
    requires
        d1.is_compass(),
        d2.is_compass(),
        1 <= k1,
        1 <= k2,
        target(from, d1, k1) is Some,
        target(from, d1, k1) == target(from, d2, k2),
    ensures
        d1 == d2,
        k1 == k2,
{
    lemma_unit_multiple(k1, d1.dx as int);
    lemma_unit_multiple(k1, d1.dy as int);
    lemma_unit_multiple(k2, d2.dx as int);
    lemma_unit_multiple(k2, d2.dy as int);
}

/// A multiple of a unit step is the count itself, zero, or its negative.
proof fn lemma_unit_multiple(k: int, u: int)
    requires
        -1 <= u <= 1,
    ensures
        k * u == (if u == 1 {
            k
        } else if u == 0 {
            0
        } else {
            -k
        }),
{
    assert(k * 1 == k && k * 0 == 0 && k * (-1) == -k) by (nonlinear_arith);
}

/// A sliding piece goes to no square that lies, along one of its directions,
/// beyond a step that does not land on an empty square: not along that
/// direction, and not along another one either.
pub proof fn lemma_slider_never_passes(
    pieces: Map<Position, Piece>,
    player: Player,
    from: Position,
    i: int,
    n: int,
    k: int,
    to: Position,
)
    requires
        pieces.dom().contains(from),
        pieces[from].slides(),
        0 <= i < pieces[from].vectors().len(),
        1 <= n < k,
        !free_at(pieces, from, pieces[from].vectors()[i], n),
        target(from, pieces[from].vectors()[i], k) == Some(to),
    ensures
        !pseudo_legal_moves(pieces, player).contains((from, to)),
{
    let piece = pieces[from];
    let d = piece.vectors()[i];
    if pseudo_legal(pieces, player, from, to) {
        let (j, k2) = choose|j: int, k2: int|
            0 <= j < piece.vectors().len() && #[trigger] reaches(
                pieces,
                player,
                piece.slides(),
                from,
                piece.vectors()[j],
                k2,
                to,
            );
        piece.lemma_sliders_follow_the_compass();
        lemma_walks_meet_once(from, d, k, piece.vectors()[j], k2);
        assert(free_at(pieces, from, d, n));
    }
}

/// What a piece of the side to move reaches along one of its directions is a
/// pseudo-legal move.
pub proof fn lemma_reached_is_pseudo_legal(
    pieces: Map<Position, Piece>,
    player: Player,
    from: Position,
    i: int,
    k: int,
    to: Position,
)
    requires
        pieces.dom().contains(from),
        pieces[from].owner() == player,
        !(pieces[from] is Pawn),
        0 <= i < pieces[from].vectors().len(),
        reaches(pieces, player, pieces[from].slides(), from, pieces[from].vectors()[i], k, to),
    ensures
        pseudo_legal_moves(pieces, player).contains((from, to)),
{
}

/// A pawn of the side to move that stands on its start rank with the two
/// squares ahead of it empty has both the single and the double advance.
pub proof fn lemma_pawn_advances_twice(
    pieces: Map<Position, Piece>,
    player: Player,
    from: Position,
)
    requires
        from.in_bounds(),
        from.y == pawn_start_rank(player),
        pieces.dom().contains(from),
        pieces[from] == Piece::Pawn(player),
        free_at(pieces, from, pawn_advance(player), 1),
        free_at(pieces, from, pawn_advance(player), 2),
    ensures
        pseudo_legal_moves(pieces, player).contains(
            (from, target(from, pawn_advance(player), 1)->0),
        ),
        pseudo_legal_moves(pieces, player).contains(
            (from, target(from, pawn_advance(player), 2)->0),
        ),
{
    let one = target(from, pawn_advance(player), 1)->0;
    let two = target(from, pawn_advance(player), 2)->0;
    assert(pawn_single(pieces, player, from, one));
    assert(pawn_double(pieces, player, from, two));
}

/// A pawn of the side to move whose next square is empty and whose second
/// square ahead is occupied has the single advance and not the double one.
pub proof fn lemma_pawn_advances_once(
    pieces: Map<Position, Piece>,
    player: Player,
    from: Position,
)
    requires
        from.in_bounds(),
        pieces.dom().contains(from),
        pieces[from] == Piece::Pawn(player),
        free_at(pieces, from, pawn_advance(player), 1),
        target(from, pawn_advance(player), 2) is Some,
        pieces.dom().contains(target(from, pawn_advance(player), 2)->0),
    ensures
        pseudo_legal_moves(pieces, player).contains(
            (from, target(from, pawn_advance(player), 1)->0),
        ),
        !pseudo_legal_moves(pieces, player).contains(
            (from, target(from, pawn_advance(player), 2)->0),
        ),
{
    let one = target(from, pawn_advance(player), 1)->0;
    let two = target(from, pawn_advance(player), 2)->0;
    assert(pawn_single(pieces, player, from, one));
    assert(!pawn_single(pieces, player, from, two));
    assert(!pawn_double(pieces, player, from, two));
    assert forall|i: int| 0 <= i < pawn_captures(player).len() implies !#[trigger] captures_along(
        pieces,
        player,
        from,
        pawn_captures(player)[i],
        two,
    ) by {
        assert(pawn_captures(player)[i].dx != 0);
    }
}

} // verus!
