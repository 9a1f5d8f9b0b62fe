//! Errors of the engine and the sequencing of plies.

use crate::board::{initial_pieces, Board, BoardView};
use crate::castling_rights::{all_rights, revoked_by, revokes, CastlingRights, CastlingSide};
use crate::moves::Move;
use crate::pieces::{Piece, Player, Position};
use crate::rules::{pseudo_legal, pseudo_legal_moves};
use core::time::Duration;
use vstd::prelude::*;

verus! {

/// Why a board operation was refused. A refused operation changes nothing.
#[derive(Clone, Copy, PartialEq, Eq, Structural, Debug)]
pub enum ChessError {
    /// A coordinate lies outside the 8x8 grid.
    OutOfBounds,
    /// The operation addresses a square that holds no piece.
    NoPieceAtPosition,
    /// The requested move is not among the generated moves.
    InvalidMove,
    /// The square does not hold a pawn that stands on its promotion rank.
    InvalidPromotion,
}

/// What a board operation returns.
pub type ChessResult<T> = Result<T, ChessError>;

/// What a game holds, as mathematical values.
pub struct GameView {
    /// The occupied squares and the piece on each.
    pub pieces: Map<Position, Piece>,
    /// The side to move.
    pub player: Player,
    /// The moves applied so far, oldest first.
    pub history: Seq<Move>,
    /// The castling rights still held.
    pub castling_rights: Set<(Player, CastlingSide)>,
    /// When the game started; no rule reads it.
    pub start_time: Duration,
}

impl BoardView {
    /// Whether the generated moves are the pseudo-legal moves of the side to move.
    pub open spec fn is_fresh(self) -> bool {
        self.moves == pseudo_legal_moves(self.pieces, self.player)
    }
}

impl GameView {
    /// The game at its start: the initial position, White to move, nothing
    /// played, every castling right held.
    pub open spec fn initial(start_time: Duration) -> GameView {
        GameView {
            pieces: initial_pieces(),
            player: Player::White,
            history: Seq::empty(),
            castling_rights: all_rights(),
            start_time,
        }
    }

    /// The board of the game: its moves are the pseudo-legal moves of the side
    /// to move.
    pub open spec fn board(self) -> BoardView {
        BoardView {
            pieces: self.pieces,
            moves: pseudo_legal_moves(self.pieces, self.player),
            player: self.player,
        }
    }

    /// The outcome of asking for the ply from `from` to `to`: both squares are
    /// on the board, a piece stands on the first, and the move is pseudo-legal
    /// for the side to move. The first check that fails decides the error.
    pub open spec fn check_ply(self, from: Position, to: Position) -> ChessResult<()> {
        self.board().check_move(from, to)
    }

    /// The game after the ply from `from` to `to`: the piece has moved, the move
    /// is the last of the history, the rights that it ends are gone, and the
    /// other side is to move.
    pub open spec fn after_ply(self, from: Position, to: Position) -> GameView {
        GameView {
            pieces: self.board().after_move(from, to).pieces,
            player: self.player.opponent(),
            history: self.history.push(Move { from, to }),
            castling_rights: self.castling_rights.difference(
                revoked_by(self.pieces[from], from, to),
            ),
            start_time: self.start_time,
        }
    }

    /// The game after the pawn on `position` has become `new_piece`; the same
    /// side is to move.
    pub open spec fn after_promotion(self, position: Position, new_piece: Piece) -> GameView {
        GameView { pieces: self.pieces.insert(position, new_piece), ..self }
    }

    /// Whether replaying the history from the initial position gives the
    /// pieces of the game and its side to move.
    pub open spec fn follows_from_history(self) -> bool {
        self.pieces == replay(self.history) && self.player == side_after(self.history.len())
    }
}

/// The pieces after the moves of `history` have been made, one after the
/// other, from the initial position.
pub open spec fn replay(history: Seq<Move>) -> Map<Position, Piece>
    decreases history.len(),
{
    if history.len() == 0 {
        initial_pieces()
    } else {
        let last = history.last();
        let before = replay(history.drop_last());
        before.remove(last.from).insert(last.to, before[last.from])
    }
}

/// The side to move after `plies` plies: White moves first.
pub open spec fn side_after(plies: nat) -> Player {
    if plies % 2 == 0 {
        Player::White
    } else {
        Player::Black
    }
}

/// A ply that is not pseudo-legal for the side to move is refused, and with
/// `InvalidMove` where both squares are on the board and a piece stands on the
/// first.
pub proof fn lemma_other_ply_is_refused(game: GameView, from: Position, to: Position)
    requires
        !pseudo_legal(game.pieces, game.player, from, to),
    ensures
        game.check_ply(from, to) is Err,
        from.in_bounds() && to.in_bounds() && game.pieces.dom().contains(from)
            ==> game.check_ply(from, to) == Err::<(), ChessError>(ChessError::InvalidMove),
{
}

/// A new game follows from its empty history.
pub proof fn lemma_initial_game_replays(start_time: Duration)
    ensures
        GameView::initial(start_time).follows_from_history(),
{
}

/// A ply keeps the pieces what replaying the history gives. The history holds
/// moves only: a promotion changes the pieces and not the history.
pub proof fn lemma_ply_replays(game: GameView, from: Position, to: Position)
    requires
        game.follows_from_history(),
    ensures
        game.after_ply(from, to).follows_from_history(),
{
    let next = game.after_ply(from, to);
    assert(next.history.drop_last() =~= game.history);
    assert(next.history.last() == Move { from, to });
}

/// A ply ends castling rights and grants none.
pub proof fn lemma_ply_grants_no_right(game: GameView, from: Position, to: Position)
    ensures
        game.after_ply(from, to).castling_rights.subset_of(game.castling_rights),
        forall|right: (Player, CastlingSide)|
            revokes(game.pieces[from], from, to, right.0, right.1) ==> !game.after_ply(
                from,
                to,
            ).castling_rights.contains(right),
{
}

/// A game: the board, the plies applied so far, the castling rights and the
/// time at which it started. The moves that its board holds are at all times
/// the pseudo-legal moves of the side to move.
pub struct Game {
    board: Board,
    history: Vec<Move>,
    castling_rights: CastlingRights,
    start_time: Duration,
}

impl View for Game {
    type V = GameView;

    closed spec fn view(&self) -> GameView {
        GameView {
            pieces: self.board@.pieces,
            player: self.board@.player,
            history: self.history@,
            castling_rights: self.castling_rights@,
            start_time: self.start_time,
        }
    }
}

impl Game {
    /// The board holds the pseudo-legal moves of the side to move.
    #[verifier::type_invariant]
    spec fn moves_are_fresh(&self) -> bool {
        self.board@.is_fresh()
    }

    /// A new game in the standard initial position, White to move.
    pub fn with_start_time(start_time: Duration) -> (game: Self)
        ensures
            game@ == GameView::initial(start_time),
    {
        let mut board = Board::new();
        board.add_moves();
        Self { board, history: Vec::new(), castling_rights: CastlingRights::new(), start_time }
    }

    /// Applies one ply: moves the piece, appends the move to the history, ends
    /// the castling rights that the move ends and hands the move to the other
    /// side. A refused ply changes nothing.
    pub fn apply_move(&mut self, from: Position, to: Position) -> (applied: ChessResult<()>)
        ensures
            applied == old(self)@.check_ply(from, to),
            applied is Ok ==> final(self)@ == old(self)@.after_ply(from, to),
            applied is Err ==> *final(self) == *old(self),
    {
        proof {
            use_type_invariant(&*self);
        }
        self.board.is_move_valid(from, to)?;
        let piece = self.board.get_piece(from);

        let mut board = Board::empty();
        proof {
            lemma_empty_board_is_fresh(board@);
        }
        core::mem::swap(&mut board, &mut self.board);
        let moved = board.move_piece(from, to);
        board.switch_player();
        board.add_moves();
        self.board = board;

        let mut history: Vec<Move> = Vec::new();
        core::mem::swap(&mut history, &mut self.history);
        history.push(Move { from, to });
        self.history = history;

        if let Some(piece) = piece {
            let mut rights = self.castling_rights;
            rights.record_move(piece, from, to);
            self.castling_rights = rights;
        }
        Ok(())
    }

    /// Promotes the pawn on `position` to `new_piece`, as `Board::promote_piece`
    /// does. A refused promotion changes nothing.
    pub fn promote(&mut self, position: Position, new_piece: Piece) -> (promoted: ChessResult<()>)
        ensures
            promoted == old(self)@.board().check_promotion(position),
            promoted is Ok ==> final(self)@ == old(self)@.after_promotion(position, new_piece),
            promoted is Err ==> *final(self) == *old(self),
    {
        proof {
            use_type_invariant(&*self);
        }
        let mut board = Board::empty();
        proof {
            lemma_empty_board_is_fresh(board@);
        }
        core::mem::swap(&mut board, &mut self.board);
        let promoted = board.promote_piece(position, new_piece);
        match promoted {
            Ok(()) => {
                board.add_moves();
            },
            Err(_) => {},
        }
        self.board = board;
        promoted
    }

    /// The pseudo-legal moves of the side to move, each once, in no particular
    /// order: the moves among which the next ply is chosen.
    pub fn legal_moves(&self) -> (moves: &Vec<(Position, Position)>)
        ensures
            moves@.to_set() == pseudo_legal_moves(self@.pieces, self@.player),
            moves@.no_duplicates(),
    {
        proof {
            use_type_invariant(self);
        }
        self.board.get_moves()
    }

    /// The board of the game, with the moves of the side to move generated.
    pub fn board(&self) -> (board: &Board)
        ensures
            board@ == self@.board(),
    {
        proof {
            use_type_invariant(self);
        }
        &self.board
    }

    /// The plies applied so far, oldest first.
    pub fn history(&self) -> (history: &Vec<Move>)
        ensures
            history@ == self@.history,
    {
        &self.history
    }

    /// The castling rights still held.
    pub fn castling_rights(&self) -> (rights: CastlingRights)
        ensures
            rights@ == self@.castling_rights,
    {
        self.castling_rights
    }

    /// When the game started.
    pub fn start_time(&self) -> (start_time: Duration)
        ensures
            start_time == self@.start_time,
    {
        self.start_time
    }
}

/// On a board without pieces no move is pseudo-legal.
proof fn lemma_empty_board_is_fresh(board: BoardView)
    requires
        board.pieces == Map::<Position, Piece>::empty(),
        board.moves == Set::<(Position, Position)>::empty(),
    ensures
        board.is_fresh(),
{
    assert(board.moves =~= pseudo_legal_moves(board.pieces, board.player));
}

} // verus!
