use vstd::prelude::*;

use crate::board::{placed, Board};
use crate::piece::{opponent_of, Player};
use crate::turn::Turn;
use crate::ROWS;

verus! {

/// Connect4 game: a board and the player whose turn it is.
#[derive(Clone, Copy, Debug)]
pub struct Connect4 {
    board: Board,
    player: Player,
}

impl Connect4 {
    /// The board of the game.
    pub closed spec fn spec_board(self) -> Board {
        self.board
    }

    /// The player whose turn it is.
    pub closed spec fn current(self) -> Player {
        self.player
    }

    /// Create a new Connect4 game: an empty board, with black to play.
    pub fn new() -> (r: Connect4)
        ensures
            r.spec_board().is_empty(),
            r.current() == Player::Black,
    {
        Connect4 { board: Board::new(), player: Player::Black }
    }

    /// The board of the game.
    pub fn board(&self) -> (r: &Board)
        ensures
            *r == self.spec_board(),
    {
        &self.board
    }

    /// Get the current player.
    pub fn player(&self) -> (r: Player)
        ensures
            r == self.current(),
    {
        self.player
    }

    /// Get all legal turns: one for the current player in each column whose top
    /// square is empty, in ascending order of column.
    pub fn turns(&self) -> (r: Vec<Turn>)
        ensures
            r@.len() <= crate::COLS,
            forall|i: int|
                0 <= i < r@.len() ==> (#[trigger] r@[i]).owner() == self.current()
                    && !self.spec_board().col_full(r@[i].col()),
            forall|i: int, j: int|
                0 <= i < j < r@.len() ==> (#[trigger] r@[i]).col() < (#[trigger] r@[j]).col(),
            forall|c: int|
                0 <= c < crate::COLS && !self.spec_board().col_full(c) ==> exists|i: int|
                    0 <= i < r@.len() && (#[trigger] r@[i]).col() == c,
    {
        self.board.turns(self.player)
    }

    /// Play a turn of the game.
    ///
    /// A turn of the player who is not to move is refused. Otherwise the piece
    /// is dropped into the turn's column; when it lands, the other player is to
    /// move next. When the column is full, nothing changes and the same player
    /// is still to move.
    pub fn play(&mut self, turn: Turn) -> (r: bool)
        ensures
            turn.owner() != old(self).current() ==> !r,
            turn.owner() == old(self).current() ==> r == (old(self).spec_board().landing_row(
                turn.col(),
            ) < ROWS),
            r ==> placed(
                old(self).spec_board(),
                final(self).spec_board(),
                old(self).spec_board().landing_row(turn.col()),
                turn.col(),
                turn.owner(),
            ),
            r ==> final(self).spec_board().pieces_in_col(turn.col()) == old(
                self,
            ).spec_board().pieces_in_col(turn.col()) + 1,
            r ==> final(self).current() == opponent_of(turn.owner()),
            !r ==> *final(self) == *old(self),
    {
        if turn.player() != self.player {
            return false;
        }
        let played = self.board.play(&turn);
        if played {
            self.player.switch();
        }
        played
    }

    /// Check if the game is over: the top row is full, or a player has four in a row.
    pub fn over(&self) -> (r: bool)
        ensures
            r == (self.spec_board().top_full() || self.spec_board().has_winner()),
    {
        self.board.over()
    }

    /// Get the winner of the game.
    ///
    /// Returns `None` if nobody has four in a row.
    pub fn winner(&self) -> (r: Option<Player>)
        ensures
            r matches Some(p) ==> self.spec_board().first_win(p),
            r matches Some(p) ==> self.spec_board().wins(p),
            r is None <==> !self.spec_board().has_winner(),
    {
        self.board.winner()
    }
}

impl Default for Connect4 {
    /// An empty board, with black to play.
    fn default() -> (r: Connect4)
        ensures
            r.spec_board().is_empty(),
            r.current() == Player::Black,
    {
        Connect4::new()
    }
}

} // verus!
