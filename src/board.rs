use vstd::prelude::*;

use crate::piece::{Player, Square};
use crate::turn::Turn;
use crate::{COLS, ROWS};

verus! {

/// Board on which the game is played.
///
/// Responsible for managing the placement of pieces and handling game logic.
/// Row 0 is the bottom row; pieces fall towards it.
#[derive(Clone, Copy, Debug)]
pub struct Board {
    grid: [[Square; COLS]; ROWS],
}

impl View for Board {
    type V = Seq<Seq<Square>>;

    /// The rows of the board, bottom first, each with one square per column.
    closed spec fn view(&self) -> Seq<Seq<Square>> {
        Seq::new(ROWS as nat, |r: int| self.grid@[r]@)
    }
}

/// `after` is `before` with a piece of `p` on row `r`, column `c`, and every
/// other square as it was.
pub open spec fn placed(before: Board, after: Board, r: int, c: int, p: Player) -> bool {
    forall|i: int, j: int|
        0 <= i < ROWS && 0 <= j < COLS ==> #[trigger] after.at(i, j) == if i == r && j == c {
            Square::Piece(p)
        } else {
            before.at(i, j)
        }
}

impl Board {
    /// The square at row `r`, column `c`.
    pub open spec fn at(self, r: int, c: int) -> Square {
        self@[r][c]
    }

    /// Every square of the board is empty.
    pub open spec fn is_empty(self) -> bool {
        forall|r: int, c: int| 0 <= r < ROWS && 0 <= c < COLS ==> self.at(r, c) is Empty
    }

    /// The lowest empty row of column `c` at row `r` or above, or `ROWS` when there is none.
    pub open spec fn first_empty_from(self, c: int, r: int) -> int
        decreases ROWS - r,
    {
        if r < 0 || r >= ROWS {
            ROWS as int
        } else if self.at(r, c) is Empty {
            r
        } else {
            self.first_empty_from(c, r + 1)
        }
    }

    /// The row on which a piece dropped into column `c` lands, or `ROWS` when the
    /// column holds no empty square.
    pub open spec fn landing_row(self, c: int) -> int {
        self.first_empty_from(c, 0)
    }

    /// The number of pieces among the lowest `n` squares of column `c`.
    pub open spec fn pieces_below(self, c: int, n: int) -> int
        decreases n,
    {
        if n <= 0 {
            0
        } else {
            self.pieces_below(c, n - 1) + if self.at(n - 1, c) is Piece {
                1int
            } else {
                0int
            }
        }
    }

    /// The number of pieces in column `c`.
    pub open spec fn pieces_in_col(self, c: int) -> int {
        self.pieces_below(c, ROWS as int)
    }

    /// The top square of column `c` holds a piece.
    pub open spec fn col_full(self, c: int) -> bool {
        self.at(ROWS - 1, c) is Piece
    }

    /// The top row holds a piece in every column.
    pub open spec fn top_full(self) -> bool {
        forall|c: int| 0 <= c < COLS ==> self.col_full(c)
    }

    /// The squares that hold pieces of `p`, each as its index `r * COLS + c`.
    pub open spec fn squares_of(self, p: Player) -> Set<int> {
        Set::new(
            |i: int|
                exists|r: int, c: int|
                    0 <= r < ROWS && 0 <= c < COLS && i == r * COLS + c && #[trigger] self.at(r, c)
                        == Square::Piece(p),
        )
    }

    /// Create a new, empty Board.
    pub fn new() -> (r: Board)
        ensures
            r.is_empty(),
    {
        Board { grid: [[Square::Empty; COLS]; ROWS] }
    }

    /// The square at `row` (from the bottom) and `col`.
    pub fn get(&self, row: usize, col: usize) -> (r: Square)
        requires
            row < ROWS,
            col < COLS,
        ensures
            r == self.at(row as int, col as int),
    {
        self.grid[row][col]
    }

    /// Get all legal turns for `player`: one for each column whose top square is
    /// empty, in ascending order of column.
    pub fn turns(&self, player: Player) -> (r: Vec<Turn>)
        ensures
            r@.len() <= COLS,
            forall|i: int|
                0 <= i < r@.len() ==> (#[trigger] r@[i]).owner() == player && !self.col_full(
                    r@[i].col(),
                ),
            forall|i: int, j: int|
                0 <= i < j < r@.len() ==> (#[trigger] r@[i]).col() < (#[trigger] r@[j]).col(),
            forall|c: int|
                0 <= c < COLS && !self.col_full(c) ==> exists|i: int|
                    0 <= i < r@.len() && (#[trigger] r@[i]).col() == c,
    {
        let mut turns: Vec<Turn> = Vec::new();
        let mut col: usize = 0;
        while col < COLS
            invariant
                col <= COLS,
                turns@.len() <= col,
                forall|i: int|
                    0 <= i < turns@.len() ==> (#[trigger] turns@[i]).owner() == player
                        && !self.col_full(turns@[i].col()) && 0 <= turns@[i].col() < col,
                forall|i: int, j: int|
                    0 <= i < j < turns@.len() ==> (#[trigger] turns@[i]).col() < (
                    #[trigger] turns@[j]).col(),
                forall|c: int|
                    0 <= c < col && !self.col_full(c) ==> exists|i: int|
                        0 <= i < turns@.len() && (#[trigger] turns@[i]).col() == c,
            decreases COLS - col,
        {
            let ghost before = turns@;
            if !self.grid[ROWS - 1][col].taken() {
                if let Some(turn) = Turn::new(player, col) {
                    turns.push(turn);
                }
            }
            proof {
                assert forall|c: int|
                    0 <= c < col + 1 && !self.col_full(c) implies exists|i: int|
                        0 <= i < turns@.len() && (#[trigger] turns@[i]).col() == c by {
                    if c < col {
                        let i = choose|i: int| 0 <= i < before.len() && (#[trigger] before[i]).col() == c;
                        assert(turns@[i] == before[i]);
                    } else {
                        assert(turns@[turns@.len() - 1].col() == c);
                    }
                }
            }
            col += 1;
        }
        turns
    }

    /// Play a turn: drop the turn's piece into its column, onto the lowest empty
    /// square. When the column holds no empty square, returns `false` and leaves
    /// the board as it was.
    pub fn play(&mut self, turn: &Turn) -> (r: bool)
        ensures
            r == (old(self).landing_row(turn.col()) < ROWS),
            r == (old(self).pieces_in_col(turn.col()) < ROWS),
            r ==> placed(
                *old(self),
                *final(self),
                old(self).landing_row(turn.col()),
                turn.col(),
                turn.owner(),
            ),
            r ==> final(self).pieces_in_col(turn.col()) == old(self).pieces_in_col(turn.col()) + 1,
            !r ==> *final(self) == *old(self),
    {
        let pos = turn.pos();
        let player = turn.player();
        let mut row: usize = 0;
        while row < ROWS
            invariant
                row <= ROWS,
                pos < COLS,
                pos == turn.col(),
                player == turn.owner(),
                *self == *old(self),
                forall|k: int| 0 <= k < row ==> (#[trigger] self.at(k, pos as int)) is Piece,
            decreases ROWS - row,
        {
            if !self.grid[row][pos].taken() {
                proof {
                    self.lemma_first_empty(pos as int, 0, row as int);
                    self.lemma_pieces_below_bound(pos as int, ROWS as int, row as int);
                }
                let mut line = self.grid[row];
                line[pos] = Square::Piece(player);
                self.grid[row] = line;
                proof {
                    assert(row as int == old(self).landing_row(pos as int));
                    assert(placed(*old(self), *self, row as int, pos as int, player));
                    Board::lemma_put_counts(*old(self), *self, row as int, pos as int, player, ROWS as int);
                }
                return true;
            }
            row += 1;
        }
        proof {
            self.lemma_first_empty(pos as int, 0, ROWS as int);
            self.lemma_pieces_below_full(pos as int, ROWS as int);
        }
        false
    }

    /// Where the squares of column `c` from `start` up to `row` all hold pieces
    /// and the square at `row` is empty (or `row` is `ROWS`), the search for an
    /// empty square from `start` ends at `row`.
    proof fn lemma_first_empty(self, c: int, start: int, row: int)
        requires
            0 <= start <= row <= ROWS,
            forall|k: int| start <= k < row ==> (#[trigger] self.at(k, c)) is Piece,
            row < ROWS ==> self.at(row, c) is Empty,
        ensures
            self.first_empty_from(c, start) == row,
        decreases row - start,
    {
        if start < row {
            self.lemma_first_empty(c, start + 1, row);
        }
    }

    /// An empty square among the lowest `n` of a column leaves fewer than `n` pieces there.
    proof fn lemma_pieces_below_bound(self, c: int, n: int, k: int)
        requires
            0 <= k < n,
            self.at(k, c) is Empty,
        ensures
            self.pieces_below(c, n) < n,
        decreases n,
    {
        self.lemma_pieces_below_at_most(c, n - 1);
        if k < n - 1 {
            self.lemma_pieces_below_bound(c, n - 1, k);
        }
    }

    /// Among the lowest `n` squares of a column there are at most `n` pieces.
    proof fn lemma_pieces_below_at_most(self, c: int, n: int)
        ensures
            self.pieces_below(c, n) <= if n < 0 { 0 } else { n },
        decreases n,
    {
        if n > 0 {
            self.lemma_pieces_below_at_most(c, n - 1);
        }
    }

    /// Where the lowest `n` squares of a column all hold pieces, there are `n` of them.
    proof fn lemma_pieces_below_full(self, c: int, n: int)
        requires
            0 <= n,
            forall|k: int| 0 <= k < n ==> (#[trigger] self.at(k, c)) is Piece,
        ensures
            self.pieces_below(c, n) == n,
        decreases n,
    {
        if n > 0 {
            self.lemma_pieces_below_full(c, n - 1);
        }
    }

    /// Putting a piece on an empty square adds one to the count of each stretch
    /// of its column that holds the square, and changes no other count.
    proof fn lemma_put_counts(b: Board, a: Board, row: int, c: int, p: Player, n: int)
        requires
            0 <= row < ROWS,
            0 <= c < COLS,
            b.at(row, c) is Empty,
            placed(b, a, row, c, p),
            n <= ROWS,
        ensures
            a.pieces_below(c, n) == b.pieces_below(c, n) + if row < n { 1int } else { 0int },
        decreases n,
    {
        if n > 0 {
            Board::lemma_put_counts(b, a, row, c, p, n - 1);
        }
    }

    /// Check if the game is over: the top row is full, or a player has four in a row.
    pub fn over(&self) -> (r: bool)
        ensures
            r == (self.top_full() || self.has_winner()),
    {
        let mut col: usize = 0;
        while col < COLS
            invariant
                col <= COLS,
                forall|c: int| 0 <= c < col ==> self.col_full(c),
            decreases COLS - col,
        {
            if !self.grid[ROWS - 1][col].taken() {
                assert(!self.col_full(col as int));
                return self.winner().is_some();
            }
            col += 1;
        }
        true
    }
}

} // verus!
