//! The board: which piece stands on which square, whose turn it is, and the
//! moves generated for the side to move.

use crate::game::{ChessError, ChessResult};
use crate::moves::promotion_rank;
use crate::pieces::{Piece, Player, Position};
use crate::rules::pseudo_legal_moves;
use vstd::prelude::*;

verus! {

/// The number of files, and of ranks.
pub const BOARD_SIZE: usize = 8;

/// What a board holds, as mathematical values.
pub struct BoardView {
    /// The occupied squares and the piece on each; every key is a square of the board.
    pub pieces: Map<Position, Piece>,
    /// The moves generated last, as pairs of a start and a destination.
    pub moves: Set<(Position, Position)>,
    /// The side to move.
    pub player: Player,
}

impl BoardView {
    /// The piece on `position`; `None` for an empty square and off the board.
    pub open spec fn piece_at(self, position: Position) -> Option<Piece> {
        if self.pieces.dom().contains(position) {
            Some(self.pieces[position])
        } else {
            None
        }
    }

    /// The outcome of asking for the move from `from` to `to`: the first check
    /// that fails decides the error.
    pub open spec fn check_move(self, from: Position, to: Position) -> ChessResult<()> {
        if !from.in_bounds() || !to.in_bounds() {
            Err(ChessError::OutOfBounds)
        } else if self.piece_at(from) is None {
            Err(ChessError::NoPieceAtPosition)
        } else if !self.moves.contains((from, to)) {
            Err(ChessError::InvalidMove)
        } else {
            Ok(())
        }
    }

    /// The board after the piece on `from` has gone to `to`: whatever stood on
    /// `to` is gone, and neither the side to move nor the generated moves change.
    pub open spec fn after_move(self, from: Position, to: Position) -> BoardView {
        BoardView {
            pieces: self.pieces.remove(from).insert(to, self.pieces[from]),
            moves: self.moves,
            player: self.player,
        }
    }

    /// The outcome of asking to promote what stands on `position`.
    pub open spec fn check_promotion(self, position: Position) -> ChessResult<()> {
        match self.piece_at(position) {
            None => Err(ChessError::NoPieceAtPosition),
            Some(Piece::Pawn(player)) => if position.y == promotion_rank(player) {
                Ok(())
            } else {
                Err(ChessError::InvalidPromotion)
            },
            Some(_) => Err(ChessError::InvalidPromotion),
        }
    }

    /// The board with `piece` on `position`, or with `position` empty.
    pub open spec fn with_square(self, position: Position, piece: Option<Piece>) -> BoardView {
        BoardView {
            pieces: match piece {
                Some(p) => self.pieces.insert(position, p),
                None => self.pieces.remove(position),
            },
            moves: self.moves,
            player: self.player,
        }
    }
}

/// The piece that starts on file `x` of the back rank of `player`.
pub open spec fn back_rank_piece(x: int, player: Player) -> Piece {
    if x == 0 || x == 7 {
        Piece::Rook(player)
    } else if x == 1 || x == 6 {
        Piece::Knight(player)
    } else if x == 2 || x == 5 {
        Piece::Bishop(player)
    } else if x == 3 {
        Piece::Queen(player)
    } else {
        Piece::King(player)
    }
}

/// The standard initial position: the back ranks on ranks 0 and 7, the pawns
/// on ranks 1 and 6, and the four ranks between empty.
pub open spec fn initial_pieces() -> Map<Position, Piece> {
    Map::new(
        |p: Position| p.in_bounds() && (p.y <= 1 || p.y >= 6),
        |p: Position|
            if p.y == 0 {
                back_rank_piece(p.x as int, Player::White)
            } else if p.y == 1 {
                Piece::Pawn(Player::White)
            } else if p.y == 6 {
                Piece::Pawn(Player::Black)
            } else {
                back_rank_piece(p.x as int, Player::Black)
            },
    )
}

/// How many squares hold `piece`.
pub open spec fn census(pieces: Map<Position, Piece>, piece: Piece) -> nat {
    pieces.dom().filter(|p: Position| pieces[p] == piece).len()
}

/// The board: the 64 squares, the side to move and the moves generated last.
/// Generating moves, applying a move and flipping the side are separate steps.
pub struct Board {
    squares: [[Option<Piece>; BOARD_SIZE]; BOARD_SIZE],
    moves: Vec<(Position, Position)>,
    player: Player,
}

impl View for Board {
    type V = BoardView;

    closed spec fn view(&self) -> BoardView {
        BoardView {
            pieces: Map::new(
                |p: Position| p.in_bounds() && self.squares[p.y as int][p.x as int] is Some,
                |p: Position| self.squares[p.y as int][p.x as int]->0,
            ),
            moves: self.moves@.to_set(),
            player: self.player,
        }
    }
}

impl Board {
    /// No move is held twice.
    #[verifier::type_invariant]
    spec fn distinct_moves(&self) -> bool {
        self.moves@.no_duplicates()
    }

    /// Every piece of a board stands on one of the 64 squares.
    pub proof fn lemma_pieces_on_board(&self)
        ensures
            forall|p: Position| #[trigger] self@.pieces.dom().contains(p) ==> p.in_bounds(),
    {
    }

    /// The standard initial position, White to move, no move generated yet.
    pub fn new() -> (board: Self)
        ensures
            board@.pieces == initial_pieces(),
            board@.moves == Set::<(Position, Position)>::empty(),
            board@.player == Player::White,
    {
        let mut squares = [[None; BOARD_SIZE]; BOARD_SIZE];

        // Initialize white pawns
        for i in 0..8usize
            invariant
                forall|y: int, x: int|
                    0 <= y < 8 && 0 <= x < 8 ==> #[trigger] squares[y][x] == (if y == 1 && x < i {
                        Some(Piece::Pawn(Player::White))
                    } else {
                        None
                    }),
        {
            squares[1][i] = Some(Piece::Pawn(Player::White));
        }

        // Initialize black pawns
        for i in 0..8usize
            invariant
                forall|y: int, x: int|
                    0 <= y < 8 && 0 <= x < 8 ==> #[trigger] squares[y][x] == (if y == 1 {
                        Some(Piece::Pawn(Player::White))
                    } else if y == 6 && x < i {
                        Some(Piece::Pawn(Player::Black))
                    } else {
                        None
                    }),
        {
            squares[6][i] = Some(Piece::Pawn(Player::Black));
        }

        // Initialize the other white and black pieces
        squares[0] = Self::get_back_rank(Player::White);
        squares[BOARD_SIZE - 1] = Self::get_back_rank(Player::Black);

        let board = Self { squares, moves: Vec::new(), player: Player::White };
        assert(board@.pieces =~= initial_pieces());
        assert(board@.moves =~= Set::<(Position, Position)>::empty());
        board
    }

    /// A board without pieces, White to move, no move generated.
    pub fn empty() -> (board: Self)
        ensures
            board@.pieces == Map::<Position, Piece>::empty(),
            board@.moves == Set::<(Position, Position)>::empty(),
            board@.player == Player::White,
    {
        let board = Self {
            squares: [[None; BOARD_SIZE]; BOARD_SIZE],
            moves: Vec::new(),
            player: Player::White,
        };
        assert(board@.pieces =~= Map::<Position, Piece>::empty());
        assert(board@.moves =~= Set::<(Position, Position)>::empty());
        board
    }

    /// The back rank of `player`, from file 0 to file 7.
    fn get_back_rank(player: Player) -> (rank: [Option<Piece>; 8])
        ensures
            forall|x: int| 0 <= x < 8 ==> #[trigger] rank[x] == Some(back_rank_piece(x, player)),
    {
        [
            Some(Piece::Rook(player)),
            Some(Piece::Knight(player)),
            Some(Piece::Bishop(player)),
            Some(Piece::Queen(player)),
            Some(Piece::King(player)),
            Some(Piece::Bishop(player)),
            Some(Piece::Knight(player)),
            Some(Piece::Rook(player)),
        ]
    }

    /// The piece on `position`, if there is one; `None` off the board.
    pub fn get_piece(&self, position: Position) -> (piece: Option<Piece>)
        ensures
            piece == self@.piece_at(position),
    {
        if position.x < BOARD_SIZE && position.y < BOARD_SIZE {
            self.squares[position.y][position.x]
        } else {
            None
        }
    }

    /// Accepts the 64 squares of the grid and refuses every other position.
    pub fn is_in_bounds(position: Position) -> (checked: ChessResult<()>)
        ensures
            position.in_bounds() ==> checked == Ok::<(), ChessError>(()),
            !position.in_bounds() ==> checked == Err::<(), ChessError>(ChessError::OutOfBounds),
    {
        if position.x > 7 || position.y > 7 {
            Err(ChessError::OutOfBounds)
        } else {
            Ok(())
        }
    }

    /// Accepts a position on which a piece stands.
    pub fn is_piece_some(&self, position: Position) -> (checked: ChessResult<()>)
        ensures
            self@.piece_at(position) is Some ==> checked == Ok::<(), ChessError>(()),
            self@.piece_at(position) is None ==> checked == Err::<(), ChessError>(
                ChessError::NoPieceAtPosition,
            ),
    {
        if let None = self.get_piece(position) {
            Err(ChessError::NoPieceAtPosition)
        } else {
            Ok(())
        }
    }

    /// Whether the move from `from` to `to` is among the generated moves.
    pub fn contains_move(&self, from: Position, to: Position) -> (found: bool)
        ensures
            found == self@.moves.contains((from, to)),
    {
        holds_move(&self.moves, from, to)
    }

    /// Checks the move from `from` to `to`: `from` is on the board, `to` is on
    /// the board, a piece stands on `from`, and the move is among the generated
    /// moves. The first check that fails decides the error.
    pub fn is_move_valid(&self, from: Position, to: Position) -> (checked: ChessResult<()>)
        ensures
            checked == self@.check_move(from, to),
    {
        Self::is_in_bounds(from)?;
        Self::is_in_bounds(to)?;
        self.is_piece_some(from)?;
        if self.contains_move(from, to) {
            Ok(())
        } else {
            Err(ChessError::InvalidMove)
        }
    }

    /// Moves the piece on `from` to `to`, where `is_move_valid` accepts the move;
    /// what stood on `to` is discarded. The side to move and the generated moves
    /// stay as they are. A refused move changes nothing.
    pub fn move_piece(&mut self, from: Position, to: Position) -> (moved: ChessResult<()>)
        ensures
            moved == old(self)@.check_move(from, to),
            moved is Ok ==> final(self)@ == old(self)@.after_move(from, to),
            moved is Err ==> *final(self) == *old(self),
    {
        self.is_move_valid(from, to)?;
        proof {
            use_type_invariant(&*self);
        }
        let piece = self.squares[from.y][from.x];
        self.squares[from.y][from.x] = None;
        self.squares[to.y][to.x] = piece;
        assert(self@.pieces =~= old(self)@.after_move(from, to).pieces);
        Ok(())
    }

    /// Puts `piece` on `position`, or empties the square; the board has no
    /// square off the grid.
    pub fn set_piece(&mut self, position: Position, piece: Option<Piece>) -> (placed: ChessResult<
        (),
    >)
        ensures
            position.in_bounds() ==> placed == Ok::<(), ChessError>(()) && final(self)@ == old(
                self,
            )@.with_square(position, piece),
            !position.in_bounds() ==> placed == Err::<(), ChessError>(ChessError::OutOfBounds)
                && *final(self) == *old(self),
    {
        Self::is_in_bounds(position)?;
        proof {
            use_type_invariant(&*self);
        }
        self.squares[position.y][position.x] = piece;
        assert(self@.pieces =~= old(self)@.with_square(position, piece).pieces);
        Ok(())
    }

    /// The side to move.
    pub fn get_player(&self) -> (player: Player)
        ensures
            player == self@.player,
    {
        self.player
    }

    /// Hands the move to the other side. The generated moves stay as they are.
    pub fn switch_player(&mut self)
        ensures
            final(self)@ == (BoardView { player: old(self)@.player.opponent(), ..old(self)@ }),
    {
        proof {
            use_type_invariant(&*self);
        }
        self.player = match self.player {
            Player::White => Player::Black,
            Player::Black => Player::White,
        };
    }

    /// The generated moves, each once, in no particular order.
    pub fn get_moves(&self) -> (moves: &Vec<(Position, Position)>)
        ensures
            moves@.to_set() == self@.moves,
            moves@.no_duplicates(),
    {
        proof {
            use_type_invariant(self);
        }
        &self.moves
    }

    /// Adds the move from `from` to `to` to the generated moves.
    pub fn insert_move(&mut self, from: Position, to: Position)
        ensures
            final(self)@ == (BoardView {
                moves: old(self)@.moves.insert((from, to)),
                ..old(self)@
            }),
    {
        proof {
            use_type_invariant(&*self);
        }
        let mut moves: Vec<(Position, Position)> = Vec::new();
        core::mem::swap(&mut moves, &mut self.moves);
        record_move(&mut moves, from, to);
        self.moves = moves;
    }

    /// Replaces a pawn that stands on the rank farthest from its own side (rank 7
    /// for White, rank 0 for Black) by `new_piece`, whatever piece that is. Fails
    /// with `NoPieceAtPosition` where no piece stands on `position`, which holds
    /// of every position off the board, and with `InvalidPromotion` otherwise. A
    /// refused promotion changes nothing.
    pub fn promote_piece(&mut self, position: Position, new_piece: Piece) -> (promoted:
        ChessResult<()>)
        ensures
            promoted == old(self)@.check_promotion(position),
            promoted is Ok ==> final(self)@ == old(self)@.with_square(position, Some(new_piece)),
            promoted is Err ==> *final(self) == *old(self),
    {
        // We should only be able to promote a pawn
        if let Some(piece) = self.get_piece(position) {
            if let Piece::Pawn(player) = piece {
                // Only promote if the pawn is on the opposite end of the board
                if (player == Player::White && position.y == 7) || (player == Player::Black
                    && position.y == 0) {
                    proof {
                        use_type_invariant(&*self);
                    }
                    self.squares[position.y][position.x] = Some(new_piece);
                    assert(self@.pieces =~= old(self)@.with_square(
                        position,
                        Some(new_piece),
                    ).pieces);
                    Ok(())
                } else {
                    Err(ChessError::InvalidPromotion)
                }
            } else {
                Err(ChessError::InvalidPromotion)
            }
        } else {
            Err(ChessError::NoPieceAtPosition)
        }
    }

    /// Replaces the generated moves by the pseudo-legal moves of the side to move.
    pub fn add_moves(&mut self)
        ensures
            final(self)@ == (BoardView {
                moves: pseudo_legal_moves(old(self)@.pieces, old(self)@.player),
                ..old(self)@
            }),
    {
        let found = self.generate_moves();
        self.moves = found;
    }
}

/// Whether `moves` holds the move from `from` to `to`.
pub(crate) fn holds_move(moves: &Vec<(Position, Position)>, from: Position, to: Position) -> (found: bool)
    ensures
        found == moves@.to_set().contains((from, to)),
{
    let mut i: usize = 0;
    while i < moves.len()
        invariant
            i <= moves.len(),
            forall|j: int| 0 <= j < i ==> moves@[j] != (from, to),
        decreases moves.len() - i,
    {
        let m = moves[i];
        if m.0 == from && m.1 == to {
            return true;
        }
        i += 1;
    }
    false
}

/// Adds the move from `from` to `to` to `moves`, unless it is there already.
pub(crate) fn record_move(moves: &mut Vec<(Position, Position)>, from: Position, to: Position)
    requires
        old(moves)@.no_duplicates(),
    ensures
        final(moves)@.no_duplicates(),
        final(moves)@.to_set() == old(moves)@.to_set().insert((from, to)),
{
    if !holds_move(moves, from, to) {
        moves.push((from, to));
        assert(moves@.to_set() =~= old(moves)@.to_set().insert((from, to))) by {
            assert forall|m: (Position, Position)|
                old(moves)@.to_set().insert((from, to)).contains(m) implies moves@.contains(
                m,
            ) by {
                if m == (from, to) {
                    assert(moves@[old(moves)@.len() as int] == m);
                } else {
                    let i = choose|i: int| 0 <= i < old(moves)@.len() && old(moves)@[i] == m;
                    assert(moves@[i] == m);
                }
            }
        }
    } else {
        assert(moves@.to_set() =~= old(moves)@.to_set().insert((from, to)));
    }
}

/// A move that is not among the generated moves is refused, and with
/// `InvalidMove` where both squares are on the board and a piece stands on the
/// first.
pub proof fn lemma_unlisted_move_is_refused(board: BoardView, from: Position, to: Position)
    requires
        !board.moves.contains((from, to)),
    ensures
        board.check_move(from, to) is Err,
        from.in_bounds() && to.in_bounds() && board.piece_at(from) is Some ==> board.check_move(
            from,
            to,
        ) == Err::<(), ChessError>(ChessError::InvalidMove),
{
}

/// A promotion is granted exactly to a pawn that stands on the rank farthest
/// from where its side started.
pub proof fn lemma_promotion_needs_far_rank(board: BoardView, position: Position)
    ensures
        board.check_promotion(position) is Ok <==> exists|player: Player|
            board.piece_at(position) == Some(Piece::Pawn(player)) && position.y
                == promotion_rank(player),
{
    if board.check_promotion(position) is Ok {
        let player = board.piece_at(position)->0.owner();
        assert(board.piece_at(position) == Some(Piece::Pawn(player)) && position.y
            == promotion_rank(player));
    }
}

/// Moving a piece back after it has taken another does not bring back the
/// piece that was taken: the square it came from stays empty.
pub proof fn lemma_capture_is_not_undone(board: BoardView, from: Position, to: Position)
    requires
        from != to,
        board.pieces.dom().contains(from),
        board.pieces.dom().contains(to),
    ensures
        board.after_move(from, to).after_move(to, from).pieces == board.pieces.remove(to),
        board.after_move(from, to).after_move(to, from).pieces != board.pieces,
{
    let back = board.after_move(from, to).after_move(to, from).pieces;
    assert(back =~= board.pieces.remove(to));
    assert(!back.dom().contains(to));
}

/// The squares of rank `y` on the files below `n`.
spec fn rank_squares(y: usize, n: nat) -> Set<Position>
    decreases n,
{
    if n == 0 {
        Set::empty()
    } else {
        rank_squares(y, (n - 1) as nat).insert(Position { x: (n - 1) as usize, y })
    }
}

/// A rank has as many squares below file `n` as `n` says.
proof fn lemma_rank_squares(y: usize, n: nat)
    requires
        n <= 8,
    ensures
        rank_squares(y, n).finite(),
        rank_squares(y, n).len() == n,
        forall|p: Position| rank_squares(y, n).contains(p) <==> p.y == y && p.x < n,
    decreases n,
{
    if n > 0 {
        lemma_rank_squares(y, (n - 1) as nat);
    }
}

/// The initial position holds, for each side, eight pawns, two rooks, two
/// knights, two bishops, one queen and one king: 32 pieces in all.
pub proof fn lemma_initial_census(player: Player)
    ensures
        census(initial_pieces(), Piece::Pawn(player)) == 8,
        census(initial_pieces(), Piece::Rook(player)) == 2,
        census(initial_pieces(), Piece::Knight(player)) == 2,
        census(initial_pieces(), Piece::Bishop(player)) == 2,
        census(initial_pieces(), Piece::Queen(player)) == 1,
        census(initial_pieces(), Piece::King(player)) == 1,
        initial_pieces().dom().len() == 32,
{
    let pieces = initial_pieces();
    let back: usize = if player == Player::White {
        0
    } else {
        7
    };
    let front: usize = if player == Player::White {
        1
    } else {
        6
    };
    let on = |x: usize| Position { x, y: back };
    let held = |piece: Piece| pieces.dom().filter(|p: Position| pieces[p] == piece);

    lemma_rank_squares(front, 8);
    assert(held(Piece::Pawn(player)) =~= rank_squares(front, 8));
    assert(held(Piece::Rook(player)) =~= set![on(0), on(7)]);
    assert(held(Piece::Knight(player)) =~= set![on(1), on(6)]);
    assert(held(Piece::Bishop(player)) =~= set![on(2), on(5)]);
    assert(held(Piece::Queen(player)) =~= set![on(3)]);
    assert(held(Piece::King(player)) =~= set![on(4)]);

    lemma_rank_squares(0, 8);
    lemma_rank_squares(1, 8);
    lemma_rank_squares(6, 8);
    lemma_rank_squares(7, 8);
    let low = rank_squares(0, 8).union(rank_squares(1, 8));
    let high = rank_squares(6, 8).union(rank_squares(7, 8));
    vstd::set_lib::lemma_set_disjoint_lens(rank_squares(0, 8), rank_squares(1, 8));
    vstd::set_lib::lemma_set_disjoint_lens(rank_squares(6, 8), rank_squares(7, 8));
    vstd::set_lib::lemma_set_disjoint_lens(low, high);
    assert(pieces.dom() =~= low.union(high));
}

} // verus!
