use vstd::prelude::*;

verus! {

/// A player of the game.
#[derive(Clone, Copy, Debug, PartialEq, Eq, Hash, Structural)]
pub enum Player {
    Black,
    White,
}

/// The opponent of a player.
pub open spec fn opponent_of(p: Player) -> Player {
    match p {
        Player::Black => Player::White,
        Player::White => Player::Black,
    }
}

impl Player {
    /// Get the opponent of a player.
    pub fn opponent(&self) -> (r: Player)
        ensures
            r == opponent_of(*self),
            r != *self,
            opponent_of(r) == *self,
    {
        match self {
            Player::Black => Player::White,
            Player::White => Player::Black,
        }
    }

    /// Switch player to opponent.
    pub fn switch(&mut self)
        ensures
            *final(self) == opponent_of(*old(self)),
    {
        *self = self.opponent();
    }
}

/// A square of the board: empty, or holding a piece of one player.
#[derive(Clone, Copy, Debug, PartialEq, Eq, Hash, Structural)]
pub enum Square {
    Piece(Player),
    Empty,
}

/// A small integer that stands for a square: distinct squares get distinct codes.
pub open spec fn code_of(s: Square) -> u8 {
    match s {
        Square::Empty => 0,
        Square::Piece(Player::Black) => 1,
        Square::Piece(Player::White) => 2,
    }
}

impl Square {
    /// Check if a square is taken.
    pub fn taken(&self) -> (r: bool)
        ensures
            r == (*self is Piece),
    {
        match self {
            Square::Piece(_) => true,
            Square::Empty => false,
        }
    }

    /// The code of a square, for comparisons over plain integers.
    pub fn code(&self) -> (r: u8)
        ensures
            r == code_of(*self),
    {
        match self {
            Square::Empty => 0,
            Square::Piece(Player::Black) => 1,
            Square::Piece(Player::White) => 2,
        }
    }
}

/// Distinct squares have distinct codes.
pub proof fn lemma_code_injective(a: Square, b: Square)
    ensures
        code_of(a) == code_of(b) <==> a == b,
{
}

} // verus!
