//! Move generation: walking the board square by square and collecting the
//! pseudo-legal moves of the side to move. A piece of the other side is passed
//! over: it has no move until its own side is to move.

use crate::board::{record_move, Board};
use crate::displacement::Displacement;
use crate::moves::{pawn_advance, pawn_captures, pawn_start_rank, Move};
use crate::pieces::{Piece, Player, Position};
use crate::rules::{
    captures_along, free_at, moves_of, path_clear, pawn_capture, pawn_double, pawn_single,
    pseudo_legal, pseudo_legal_moves, ray_moves, reaches, target,
};
use vstd::prelude::*;

verus! {

/// The moves from `from` along `d` that take fewer than `n` steps.
spec fn ray_moves_below(
    pieces: Map<Position, Piece>,
    player: Player,
    sliding: bool,
    from: Position,
    d: Displacement,
    n: int,
) -> Set<(Position, Position)> {
    Set::new(
        |m: (Position, Position)|
            m.0 == from && exists|k: int|
                k < n && #[trigger] reaches(pieces, player, sliding, from, d, k, m.1),
    )
}

/// The moves of `piece` from `from` along the first `i` of its directions.
spec fn piece_moves_below(
    pieces: Map<Position, Piece>,
    player: Player,
    piece: Piece,
    from: Position,
    i: int,
) -> Set<(Position, Position)> {
    Set::new(
        |m: (Position, Position)|
            m.0 == from && exists|j: int, k: int|
                0 <= j < i && j < piece.vectors().len() && #[trigger] reaches(
                    pieces,
                    player,
                    piece.slides(),
                    from,
                    piece.vectors()[j],
                    k,
                    m.1,
                ),
    )
}

/// The advances of a pawn of `player` from `from`.
spec fn pawn_advances_from(
    pieces: Map<Position, Piece>,
    player: Player,
    from: Position,
) -> Set<(Position, Position)> {
    Set::new(
        |m: (Position, Position)|
            m.0 == from && (pawn_single(pieces, player, from, m.1) || pawn_double(
                pieces,
                player,
                from,
                m.1,
            )),
    )
}

/// The captures of a pawn of `player` from `from`.
spec fn pawn_captures_from(
    pieces: Map<Position, Piece>,
    player: Player,
    from: Position,
) -> Set<(Position, Position)> {
    Set::new(|m: (Position, Position)| m.0 == from && pawn_capture(pieces, player, from, m.1))
}

/// All moves of the piece `piece` of `player` that stands on `from`.
spec fn moves_from(
    pieces: Map<Position, Piece>,
    player: Player,
    piece: Piece,
    from: Position,
) -> Set<(Position, Position)> {
    Set::new(|m: (Position, Position)| m.0 == from && moves_of(pieces, player, piece, from, m.1))
}

/// Whether `p` comes before the square on file `x` and rank `y` when the board
/// is walked file by file, each file from rank 0 upwards.
spec fn walked_before(p: Position, x: int, y: int) -> bool {
    p.x < x || (p.x == x && p.y < y)
}

/// The pseudo-legal moves that start on a square walked before file `x`, rank `y`.
spec fn pseudo_legal_moves_below(
    pieces: Map<Position, Piece>,
    player: Player,
    x: int,
    y: int,
) -> Set<(Position, Position)> {
    Set::new(
        |m: (Position, Position)|
            walked_before(m.0, x, y) && pseudo_legal(pieces, player, m.0, m.1),
    )
}

/// A square of the board is its own zeroth step.
proof fn lemma_step_zero(from: Position, d: Displacement)
    requires
        from.in_bounds(),
    ensures
        target(from, d, 0) == Some(from),
{
}

/// One more step from the `k`-th square `p`, taken with wrapping arithmetic,
/// stays on the board exactly when the `k + 1`-st step does, and is that step.
proof fn lemma_next_step(from: Position, d: Displacement, k: int, p: Position)
    requires
        target(from, d, k) == Some(p),
    ensures
        p.shifted(d).in_bounds() <==> target(from, d, k + 1) is Some,
        p.shifted(d).in_bounds() ==> target(from, d, k + 1) == Some(p.shifted(d)),
{
    assert((k + 1) * d.dx == k * d.dx + d.dx) by (nonlinear_arith);
    assert((k + 1) * d.dy == k * d.dy + d.dy) by (nonlinear_arith);
}

/// A step that is not zero leaves the board in fewer than eight steps.
proof fn lemma_steps_bounded(from: Position, d: Displacement, k: int)
    requires
        0 <= k,
        from.in_bounds(),
        d.dx != 0 || d.dy != 0,
        target(from, d, k) is Some,
    ensures
        k <= 7,
{
    let dx = d.dx as int;
    let dy = d.dy as int;
    if k >= 8 {
        assert(dx >= 1 ==> k * dx >= 8) by (nonlinear_arith)
            requires
                k >= 8,
        ;
        assert(dx <= -1 ==> k * dx <= -8) by (nonlinear_arith)
            requires
                k >= 8,
        ;
        assert(dy >= 1 ==> k * dy >= 8) by (nonlinear_arith)
            requires
                k >= 8,
        ;
        assert(dy <= -1 ==> k * dy <= -8) by (nonlinear_arith)
            requires
                k >= 8,
        ;
    }
}

/// Nothing is reached beyond a step that does not land on an empty square.
proof fn lemma_ray_ends(
    pieces: Map<Position, Piece>,
    player: Player,
    sliding: bool,
    from: Position,
    d: Displacement,
    n: int,
)
    requires
        1 <= n,
        !free_at(pieces, from, d, n),
    ensures
        ray_moves(pieces, player, sliding, from, d) == ray_moves_below(
            pieces,
            player,
            sliding,
            from,
            d,
            n + 1,
        ),
{
    assert forall|k: int, to: Position| #[trigger]
        reaches(pieces, player, sliding, from, d, k, to) implies k < n + 1 by {
        if k > n {
            assert(free_at(pieces, from, d, n));
        }
    }
    assert(ray_moves(pieces, player, sliding, from, d) =~= ray_moves_below(
        pieces,
        player,
        sliding,
        from,
        d,
        n + 1,
    ));
}

/// A piece that does not slide reaches nothing beyond its first step.
proof fn lemma_ray_of_stepper(
    pieces: Map<Position, Piece>,
    player: Player,
    from: Position,
    d: Displacement,
)
    ensures
        ray_moves(pieces, player, false, from, d) == ray_moves_below(
            pieces,
            player,
            false,
            from,
            d,
            2,
        ),
{
    assert(ray_moves(pieces, player, false, from, d) =~= ray_moves_below(
        pieces,
        player,
        false,
        from,
        d,
        2,
    ));
}

/// No move takes fewer than one step.
proof fn lemma_ray_start(
    pieces: Map<Position, Piece>,
    player: Player,
    sliding: bool,
    from: Position,
    d: Displacement,
)
    ensures
        ray_moves_below(pieces, player, sliding, from, d, 1) == Set::<
            (Position, Position),
        >::empty(),
{
    assert(ray_moves_below(pieces, player, sliding, from, d, 1) =~= Set::<
        (Position, Position),
    >::empty());
}

/// Where the `n`-th step reaches `to`, it adds the move to `to` to the shorter ones.
proof fn lemma_ray_extends(
    pieces: Map<Position, Piece>,
    player: Player,
    sliding: bool,
    from: Position,
    d: Displacement,
    n: int,
    to: Position,
)
    requires
        reaches(pieces, player, sliding, from, d, n, to),
    ensures
        ray_moves_below(pieces, player, sliding, from, d, n + 1) == ray_moves_below(
            pieces,
            player,
            sliding,
            from,
            d,
            n,
        ).insert((from, to)),
{
    let longer = ray_moves_below(pieces, player, sliding, from, d, n + 1);
    let shorter = ray_moves_below(pieces, player, sliding, from, d, n);
    assert forall|m: (Position, Position)| longer.contains(m) implies shorter.insert(
        (from, to),
    ).contains(m) by {
        let k = choose|k: int|
            k < n + 1 && #[trigger] reaches(pieces, player, sliding, from, d, k, m.1);
        if k == n {
            assert(m == (from, to));
        } else {
            assert(k < n);
        }
    }
    assert forall|m: (Position, Position)| shorter.insert((from, to)).contains(m) implies
        longer.contains(m) by {
        if m == (from, to) {
            assert(n < n + 1 && reaches(pieces, player, sliding, from, d, n, m.1));
        } else {
            let k = choose|k: int|
                k < n && #[trigger] reaches(pieces, player, sliding, from, d, k, m.1);
            assert(k < n + 1);
        }
    }
    assert(longer =~= shorter.insert((from, to)));
}

/// Where the `n`-th step reaches nothing, it adds nothing to the shorter moves.
proof fn lemma_ray_skips(
    pieces: Map<Position, Piece>,
    player: Player,
    sliding: bool,
    from: Position,
    d: Displacement,
    n: int,
)
    requires
        forall|to: Position| !reaches(pieces, player, sliding, from, d, n, to),
    ensures
        ray_moves_below(pieces, player, sliding, from, d, n + 1) == ray_moves_below(
            pieces,
            player,
            sliding,
            from,
            d,
            n,
        ),
{
    assert(ray_moves_below(pieces, player, sliding, from, d, n + 1) =~= ray_moves_below(
        pieces,
        player,
        sliding,
        from,
        d,
        n,
    ));
}

/// The moves along the first `i + 1` directions are those along the first `i`
/// and those along the next one.
proof fn lemma_directions_extend(
    pieces: Map<Position, Piece>,
    player: Player,
    piece: Piece,
    from: Position,
    i: int,
)
    requires
        0 <= i < piece.vectors().len(),
    ensures
        piece_moves_below(pieces, player, piece, from, i + 1) == piece_moves_below(
            pieces,
            player,
            piece,
            from,
            i,
        ).union(ray_moves(pieces, player, piece.slides(), from, piece.vectors()[i])),
{
    assert(piece_moves_below(pieces, player, piece, from, i + 1) =~= piece_moves_below(
        pieces,
        player,
        piece,
        from,
        i,
    ).union(ray_moves(pieces, player, piece.slides(), from, piece.vectors()[i])));
}

/// The moves along all directions of a piece that is no pawn are its moves.
proof fn lemma_directions_complete(
    pieces: Map<Position, Piece>,
    player: Player,
    piece: Piece,
    from: Position,
)
    requires
        !(piece is Pawn),
    ensures
        piece_moves_below(pieces, player, piece, from, 0) == Set::<
            (Position, Position),
        >::empty(),
        piece_moves_below(pieces, player, piece, from, piece.vectors().len() as int)
            == moves_from(pieces, player, piece, from),
{
    assert(piece_moves_below(pieces, player, piece, from, 0) =~= Set::<
        (Position, Position),
    >::empty());
    assert(piece_moves_below(pieces, player, piece, from, piece.vectors().len() as int)
        =~= moves_from(pieces, player, piece, from));
}

/// The captures of a pawn of `player` from `from` with the first `i` of its
/// capturing steps.
spec fn pawn_captures_below(
    pieces: Map<Position, Piece>,
    player: Player,
    from: Position,
    i: int,
) -> Set<(Position, Position)> {
    Set::new(
        |m: (Position, Position)|
            m.0 == from && exists|j: int|
                0 <= j < i && j < pawn_captures(player).len() && #[trigger] captures_along(
                    pieces,
                    player,
                    from,
                    pawn_captures(player)[j],
                    m.1,
                ),
    )
}

/// Where the `i`-th capturing step takes a piece on `to`, it adds that capture
/// to those of the steps before.
proof fn lemma_capture_extends(
    pieces: Map<Position, Piece>,
    player: Player,
    from: Position,
    i: int,
    to: Position,
)
    requires
        0 <= i < pawn_captures(player).len(),
        captures_along(pieces, player, from, pawn_captures(player)[i], to),
    ensures
        pawn_captures_below(pieces, player, from, i + 1) == pawn_captures_below(
            pieces,
            player,
            from,
            i,
        ).insert((from, to)),
{
    let longer = pawn_captures_below(pieces, player, from, i + 1);
    let shorter = pawn_captures_below(pieces, player, from, i);
    assert forall|m: (Position, Position)| longer.contains(m) implies shorter.insert(
        (from, to),
    ).contains(m) by {
        let j = choose|j: int|
            0 <= j < i + 1 && j < pawn_captures(player).len() && #[trigger] captures_along(
                pieces,
                player,
                from,
                pawn_captures(player)[j],
                m.1,
            );
        if j == i {
            assert(m == (from, to));
        } else {
            assert(j < i);
        }
    }
    assert forall|m: (Position, Position)| shorter.insert((from, to)).contains(m) implies
        longer.contains(m) by {
        if m == (from, to) {
            assert(captures_along(pieces, player, from, pawn_captures(player)[i], m.1));
        } else {
            let j = choose|j: int|
                0 <= j < i && j < pawn_captures(player).len() && #[trigger] captures_along(
                    pieces,
                    player,
                    from,
                    pawn_captures(player)[j],
                    m.1,
                );
            assert(j < i + 1);
        }
    }
    assert(longer =~= shorter.insert((from, to)));
}

/// Where the `i`-th capturing step takes nothing, it adds nothing.
proof fn lemma_capture_skips(
    pieces: Map<Position, Piece>,
    player: Player,
    from: Position,
    i: int,
)
    requires
        0 <= i < pawn_captures(player).len(),
        forall|to: Position|
            !captures_along(pieces, player, from, pawn_captures(player)[i], to),
    ensures
        pawn_captures_below(pieces, player, from, i + 1) == pawn_captures_below(
            pieces,
            player,
            from,
            i,
        ),
{
    assert(pawn_captures_below(pieces, player, from, i + 1) =~= pawn_captures_below(
        pieces,
        player,
        from,
        i,
    ));
}

/// The captures with all capturing steps are the captures of the pawn.
proof fn lemma_captures_complete(
    pieces: Map<Position, Piece>,
    player: Player,
    from: Position,
)
    ensures
        pawn_captures_below(pieces, player, from, 0) == Set::<(Position, Position)>::empty(),
        pawn_captures_below(pieces, player, from, pawn_captures(player).len() as int)
            == pawn_captures_from(pieces, player, from),
{
    assert(pawn_captures_below(pieces, player, from, 0) =~= Set::<
        (Position, Position),
    >::empty());
    assert(pawn_captures_below(pieces, player, from, pawn_captures(player).len() as int)
        =~= pawn_captures_from(pieces, player, from));
}

/// The moves of a pawn are its advances and its captures.
proof fn lemma_pawn_moves(pieces: Map<Position, Piece>, player: Player, from: Position)
    ensures
        moves_from(pieces, player, Piece::Pawn(player), from) == pawn_advances_from(
            pieces,
            player,
            from,
        ).union(pawn_captures_from(pieces, player, from)),
{
    assert(moves_from(pieces, player, Piece::Pawn(player), from) =~= pawn_advances_from(
        pieces,
        player,
        from,
    ).union(pawn_captures_from(pieces, player, from)));
}

impl Board {
    /// Whether a pawn of `player` on `position` may advance two squares: it
    /// stands on its start rank, and the square two steps ahead is empty.
    fn pawn_can_double_move(&self, position: Position, player: Player) -> (eligible: bool)
        requires
            position.in_bounds(),
        ensures
            eligible == (position.y == pawn_start_rank(player) && free_at(
                self@.pieces,
                position,
                pawn_advance(player),
                2,
            )),
    {
        let m = Move::get_pawn_advance_move(player);
        let one_ahead = position + m;
        let two_ahead = one_ahead + m;
        proof {
            lemma_step_zero(position, m);
            lemma_next_step(position, m, 0, position);
            if one_ahead.in_bounds() {
                lemma_next_step(position, m, 1, one_ahead);
            }
        }
        if Self::is_in_bounds(one_ahead).is_ok() && Self::is_in_bounds(two_ahead).is_ok() {
            if let None = self.get_piece(two_ahead) {
                return match player {
                    Player::White => position.y == 1,
                    Player::Black => position.y == 6,
                };
            }
        }
        false
    }

    /// Adds to `found` the advances of the pawn of `player` on `start`.
    fn add_pawn_advance_moves(
        &self,
        found: &mut Vec<(Position, Position)>,
        start: Position,
        player: Player,
    )
        requires
            start.in_bounds(),
            old(found)@.no_duplicates(),
        ensures
            final(found)@.no_duplicates(),
            final(found)@.to_set() == old(found)@.to_set().union(
                pawn_advances_from(self@.pieces, player, start),
            ),
    {
        let m = Move::get_pawn_advance_move(player);
        let new_position = start + m;
        let ghost advances = pawn_advances_from(self@.pieces, player, start);
        proof {
            lemma_step_zero(start, m);
            lemma_next_step(start, m, 0, start);
        }
        if Self::is_in_bounds(new_position).is_ok() && self.get_piece(new_position).is_none() {
            record_move(found, start, new_position);
            proof {
                lemma_next_step(start, m, 1, new_position);
            }
            if self.pawn_can_double_move(start, player) {
                let two_ahead = new_position + m;
                record_move(found, start, two_ahead);
                assert(advances =~= Set::<(Position, Position)>::empty().insert(
                    (start, new_position),
                ).insert((start, two_ahead)));
            } else {
                assert(advances =~= Set::<(Position, Position)>::empty().insert(
                    (start, new_position),
                ));
            }
        } else {
            assert(advances =~= Set::<(Position, Position)>::empty());
        }
        assert(found@.to_set() =~= old(found)@.to_set().union(advances));
    }

    /// Adds to `found` the captures of the pawn of `player` on `start`.
    fn add_pawn_capture_moves(
        &self,
        found: &mut Vec<(Position, Position)>,
        start: Position,
        player: Player,
    )
        requires
            start.in_bounds(),
            old(found)@.no_duplicates(),
        ensures
            final(found)@.no_duplicates(),
            final(found)@.to_set() == old(found)@.to_set().union(
                pawn_captures_from(self@.pieces, player, start),
            ),
    {
        let capture_moves = match player {
            Player::White => Move::get_pawn_capture_moves_white(),
            Player::Black => Move::get_pawn_capture_moves_black(),
        };
        let ghost pieces = self@.pieces;
        let ghost before = found@.to_set();
        let mut i: usize = 0;
        proof {
            lemma_captures_complete(pieces, player, start);
            assert(before.union(pawn_captures_below(pieces, player, start, 0)) =~= before);
        }
        while i < 2
            invariant
                i <= 2,
                start.in_bounds(),
                capture_moves@ == pawn_captures(player),
                pieces == self@.pieces,
                found@.no_duplicates(),
                found@.to_set() == before.union(
                    pawn_captures_below(pieces, player, start, i as int),
                ),
            decreases 2 - i,
        {
            let m = capture_moves[i];
            let new_position = start + m;
            let mut taken = false;
            proof {
                lemma_step_zero(start, m);
                lemma_next_step(start, m, 0, start);
            }
            if Self::is_in_bounds(new_position).is_ok() {
                if let Some(other_piece) = self.get_piece(new_position) {
                    if other_piece.get_player() != player {
                        record_move(found, start, new_position);
                        taken = true;
                    }
                }
            }
            proof {
                if taken {
                    lemma_capture_extends(pieces, player, start, i as int, new_position);
                } else {
                    lemma_capture_skips(pieces, player, start, i as int);
                }
                assert(found@.to_set() =~= before.union(
                    pawn_captures_below(pieces, player, start, i + 1),
                ));
            }
            i += 1;
        }
        proof {
            lemma_captures_complete(pieces, player, start);
        }
    }

    /// Adds to `found` the moves of `piece` on `start` along the direction `m`.
    fn add_moves_along(
        &self,
        found: &mut Vec<(Position, Position)>,
        start: Position,
        piece: Piece,
        m: Displacement,
    )
        requires
            start.in_bounds(),
            m.is_step(),
            old(found)@.no_duplicates(),
        ensures
            final(found)@.no_duplicates(),
            final(found)@.to_set() == old(found)@.to_set().union(
                ray_moves(self@.pieces, self@.player, piece.slides(), start, m),
            ),
    {
        let ghost pieces = self@.pieces;
        let ghost player = self@.player;
        let ghost before = found@.to_set();
        let sliding = piece.can_snipe();
        let mut position = start + m;
        let ghost mut n: int = 1;
        proof {
            lemma_step_zero(start, m);
            lemma_next_step(start, m, 0, start);
            lemma_ray_start(pieces, player, sliding, start, m);
            assert(before.union(ray_moves_below(pieces, player, sliding, start, m, 1))
                =~= before);
        }
        loop
            invariant_except_break
                1 <= n <= 8,
                sliding || n == 1,
                path_clear(pieces, start, m, n),
                position.in_bounds() ==> target(start, m, n) == Some(position),
                !position.in_bounds() ==> target(start, m, n) is None,
                found@.to_set() == before.union(
                    ray_moves_below(pieces, player, sliding, start, m, n),
                ),
            invariant
                start.in_bounds(),
                m.is_step(),
                sliding == piece.slides(),
                pieces == self@.pieces,
                player == self@.player,
                found@.no_duplicates(),
            ensures
                found@.to_set() == before.union(ray_moves(pieces, player, sliding, start, m)),
            decreases 8 - n,
        {
            if Self::is_in_bounds(position).is_err() {
                proof {
                    lemma_ray_skips(pieces, player, sliding, start, m, n);
                    lemma_ray_ends(pieces, player, sliding, start, m, n);
                }
                break ;
            }
            proof {
                lemma_steps_bounded(start, m, n);
            }
            if let Some(other) = self.get_piece(position) {
                if other.get_player() != self.get_player() {
                    record_move(found, start, position);
                    proof {
                        lemma_ray_extends(pieces, player, sliding, start, m, n, position);
                    }
                } else {
                    proof {
                        lemma_ray_skips(pieces, player, sliding, start, m, n);
                    }
                }
                proof {
                    lemma_ray_ends(pieces, player, sliding, start, m, n);
                    assert(found@.to_set() =~= before.union(
                        ray_moves(pieces, player, sliding, start, m),
                    ));
                }
                break ;
            }
            record_move(found, start, position);
            proof {
                lemma_ray_extends(pieces, player, sliding, start, m, n, position);
                assert(found@.to_set() =~= before.union(
                    ray_moves_below(pieces, player, sliding, start, m, n + 1),
                ));
            }
            if !sliding {
                proof {
                    lemma_ray_of_stepper(pieces, player, start, m);
                }
                break ;
            }
            proof {
                lemma_next_step(start, m, n, position);
                assert(free_at(pieces, start, m, n));
                assert(path_clear(pieces, start, m, n + 1));
                n = n + 1;
            }
            position = position + m;
        }
    }

    /// Adds to `found` the moves of `piece`, which stands on `start`.
    fn add_moves_in_direction(
        &self,
        found: &mut Vec<(Position, Position)>,
        start: Position,
        piece: Piece,
    )
        requires
            start.in_bounds(),
            piece.owner() == self@.player,
            old(found)@.no_duplicates(),
        ensures
            final(found)@.no_duplicates(),
            final(found)@.to_set() == old(found)@.to_set().union(
                moves_from(self@.pieces, self@.player, piece, start),
            ),
    {
        let ghost pieces = self@.pieces;
        let ghost player = self@.player;
        let ghost before = found@.to_set();
        match piece {
            Piece::Pawn(owner) => {
                self.add_pawn_advance_moves(found, start, owner);
                self.add_pawn_capture_moves(found, start, owner);
                proof {
                    lemma_pawn_moves(pieces, player, start);
                    assert(found@.to_set() =~= before.union(
                        moves_from(pieces, player, piece, start),
                    ));
                }
            },
            _ => {
                let vectors = piece.get_vectors();
                let mut i: usize = 0;
                proof {
                    lemma_directions_complete(pieces, player, piece, start);
                    assert(before.union(piece_moves_below(pieces, player, piece, start, 0))
                        =~= before);
                }
                while i < vectors.len()
                    invariant
                        i <= vectors.len(),
                        vectors@ == piece.vectors(),
                        start.in_bounds(),
                        pieces == self@.pieces,
                        player == self@.player,
                        found@.no_duplicates(),
                        found@.to_set() == before.union(
                            piece_moves_below(pieces, player, piece, start, i as int),
                        ),
                    decreases vectors.len() - i,
                {
                    let m = vectors[i];
                    proof {
                        piece.lemma_vectors_are_steps();
                        lemma_directions_extend(pieces, player, piece, start, i as int);
                    }
                    self.add_moves_along(found, start, piece, m);
                    assert(found@.to_set() =~= before.union(
                        piece_moves_below(pieces, player, piece, start, i + 1),
                    ));
                    i += 1;
                }
            },
        }
    }

    /// The pseudo-legal moves of the side to move, each once, computed afresh
    /// from the squares.
    pub fn generate_moves(&self) -> (found: Vec<(Position, Position)>)
        ensures
            found@.no_duplicates(),
            found@.to_set() == pseudo_legal_moves(self@.pieces, self@.player),
    {
        let ghost pieces = self@.pieces;
        let ghost player = self@.player;
        let mut found: Vec<(Position, Position)> = Vec::new();
        assert(found@.to_set() =~= pseudo_legal_moves_below(pieces, player, 0, 0));
        let mut x: usize = 0;
        while x < 8
            invariant
                x <= 8,
                pieces == self@.pieces,
                player == self@.player,
                found@.no_duplicates(),
                found@.to_set() == pseudo_legal_moves_below(pieces, player, x as int, 0),
            decreases 8 - x,
        {
            let mut y: usize = 0;
            while y < 8
                invariant
                    x < 8,
                    y <= 8,
                    pieces == self@.pieces,
                    player == self@.player,
                    found@.no_duplicates(),
                    found@.to_set() == pseudo_legal_moves_below(pieces, player, x as int, y as int),
                decreases 8 - y,
            {
                let start = Position { x, y };
                if let Some(piece) = self.get_piece(start) {
                    if piece.get_player() == self.get_player() {
                        self.add_moves_in_direction(&mut found, start, piece);
                    }
                }
                assert(found@.to_set() =~= pseudo_legal_moves_below(
                    pieces,
                    player,
                    x as int,
                    y + 1,
                ));
                y += 1;
            }
            proof {
                self.lemma_pieces_on_board();
            }
            assert(found@.to_set() =~= pseudo_legal_moves_below(pieces, player, x + 1, 0));
            x += 1;
        }
        proof {
            self.lemma_pieces_on_board();
        }
        assert(found@.to_set() =~= pseudo_legal_moves(pieces, player));
        found
    }
}

} // verus!
