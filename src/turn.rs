use vstd::prelude::*;

use crate::piece::Player;
use crate::COLS;

verus! {

/// A board position to play a piece: a player and a column.
#[derive(Clone, Copy, Debug, PartialEq, Eq, Structural)]
pub struct Turn {
    player: Player,
    pos: usize,
}

impl Turn {
    /// The column of the turn is always on the board.
    #[verifier::type_invariant]
    spec fn inv(self) -> bool {
        self.pos < COLS
    }

    /// The player who makes the turn.
    pub closed spec fn owner(self) -> Player {
        self.player
    }

    /// The column into which the piece is dropped.
    pub closed spec fn col(self) -> int {
        self.pos as int
    }

    /// Create a new Turn: `None` when the column is not on the board.
    pub fn new(player: Player, pos: usize) -> (r: Option<Turn>)
        ensures
            r is Some <==> pos < COLS,
            r is Some ==> r->0.owner() == player && r->0.col() == pos,
    {
        if pos < COLS {
            Some(Turn { player, pos })
        } else {
            None
        }
    }

    /// The player who makes the turn.
    pub fn player(&self) -> (r: Player)
        ensures
            r == self.owner(),
    {
        self.player
    }

    /// The column into which the piece is dropped, from 0.
    pub fn pos(&self) -> (r: usize)
        ensures
            r == self.col(),
            r < COLS,
    {
        proof {
            use_type_invariant(self);
        }
        self.pos
    }
}

} // verus!
