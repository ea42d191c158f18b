use vstd::prelude::*;

use crate::board::Board;
use crate::piece::{lemma_code_injective, Player, Square};
use crate::{COLS, CONNECT, ROWS};

verus! {

/// A direction in which a line of the board runs.
#[derive(Clone, Copy, Debug, PartialEq, Eq, Structural)]
pub enum Dir {
    /// Along a row, towards higher columns.
    Right,
    /// Along a column, towards higher rows.
    Up,
    /// Along a rising diagonal, towards higher rows and columns.
    UpRight,
    /// Along a rising diagonal, towards higher rows and lower columns.
    UpLeft,
}

/// The row reached from row `r` after `k` steps in direction `d`.
pub open spec fn step_row(d: Dir, r: int, k: int) -> int {
    match d {
        Dir::Right => r,
        _ => r + k,
    }
}

/// The column reached from column `c` after `k` steps in direction `d`.
pub open spec fn step_col(d: Dir, c: int, k: int) -> int {
    match d {
        Dir::Right => c + k,
        Dir::Up => c,
        Dir::UpRight => c + k,
        Dir::UpLeft => c - k,
    }
}

/// Row `r`, column `c` is a square of the board.
pub open spec fn on_board(r: int, c: int) -> bool {
    0 <= r < ROWS && 0 <= c < COLS
}

/// The position of the window of `CONNECT` squares from row `r`, column `c` in
/// direction `d` in the order in which `winner` scans the board: the hundreds
/// give the group of lines (rows, columns, then the rising diagonals from each
/// edge), the tens the line within its group, the units the window within its
/// line. A group has fewer than ten lines and a line fewer than ten windows, so
/// distinct windows on the board get distinct positions.
pub open spec fn scan_pos(r: int, c: int, d: Dir) -> int {
    match d {
        Dir::Right => r * 10 + c,
        Dir::Up => 100 + c * 10 + r,
        Dir::UpRight => if r >= c {
            200 + (r - c) * 10 + c
        } else {
            300 + (c - r) * 10 + r
        },
        Dir::UpLeft => if r + c >= COLS - 1 {
            400 + (r + c - (COLS - 1)) * 10 + (COLS - 1 - c)
        } else {
            500 + (r + c) * 10 + r
        },
    }
}

impl Board {
    /// The `CONNECT` squares from row `r`, column `c` in direction `d` are on the
    /// board and all hold pieces of `p`.
    pub open spec fn four_from(self, p: Player, r: int, c: int, d: Dir) -> bool {
        forall|k: int|
            0 <= k < CONNECT ==> on_board(step_row(d, r, k), step_col(d, c, k)) && self.at(
                step_row(d, r, k),
                step_col(d, c, k),
            ) == Square::Piece(p)
    }

    /// Player `p` has four pieces in a row, in a row, a column or a diagonal.
    pub open spec fn wins(self, p: Player) -> bool {
        exists|r: int, c: int, d: Dir| self.four_from(p, r, c, d)
    }

    /// Some player has four pieces in a row.
    pub open spec fn has_winner(self) -> bool {
        exists|p: Player| self.wins(p)
    }
}

/// The first and the last square of a winning line are on the board.
proof fn lemma_four_ends(b: Board, p: Player, r: int, c: int, d: Dir)
    requires
        b.four_from(p, r, c, d),
    ensures
        on_board(r, c),
        on_board(step_row(d, r, CONNECT - 1), step_col(d, c, CONNECT - 1)),
{
    assert(on_board(step_row(d, r, 0), step_col(d, c, 0)));
    assert(on_board(step_row(d, r, CONNECT - 1), step_col(d, c, CONNECT - 1)));
}

/// Relies on itertools' `Itertools::unique`: it yields each distinct value of
/// the slice once, so counting what it yields gives the number of distinct values.
#[verifier::external_body]
fn distinct_count(s: &[u8]) -> (r: usize)
    ensures
        r == s@.to_set().len(),
{
    itertools::Itertools::unique(s.iter()).count()
}

/// A sequence has exactly one distinct value iff it is not empty and all its
/// values equal the first.
proof fn lemma_one_distinct(s: Seq<u8>)
    ensures
        s.to_set().len() == 1 <==> (s.len() > 0 && forall|i: int| 0 <= i < s.len() ==> #[trigger] s[i] == s[0]),
{
    broadcast use vstd::set::group_set_axioms, vstd::seq_lib::seq_to_set_is_finite;

    if s.len() > 0 && forall|i: int| 0 <= i < s.len() ==> #[trigger] s[i] == s[0] {
        assert(s.to_set() =~= set![s[0]]);
    }
    if s.to_set().len() == 1 {
        if s.len() == 0 {
            assert(s.to_set() =~= Set::<u8>::empty());
        } else {
            assert forall|i: int| 0 <= i < s.len() implies #[trigger] s[i] == s[0] by {
                if s[i] != s[0] {
                    let rest = s.to_set().remove(s[0]);
                    assert(s.to_set().contains(s[0]));
                    assert(rest.len() == 0);
                    assert(rest.contains(s[i]));
                    vstd::set_lib::lemma_set_empty_equivalency_len(rest);
                }
            }
        }
    }
}

/// The square `k` steps from row `row`, column `col` in direction `d`.
fn step(d: Dir, row: usize, col: usize, k: usize) -> (r: (usize, usize))
    requires
        on_board(step_row(d, row as int, k as int), step_col(d, col as int, k as int)),
    ensures
        r.0 == step_row(d, row as int, k as int),
        r.1 == step_col(d, col as int, k as int),
{
    match d {
        Dir::Right => (row, col + k),
        Dir::Up => (row + k, col),
        Dir::UpRight => (row + k, col + k),
        Dir::UpLeft => (row + k, col - k),
    }
}

/// All `CONNECT` squares of `s` from index `w` hold pieces of `p`.
pub open spec fn held_by(s: Seq<Square>, w: int, p: Player) -> bool {
    forall|k: int| 0 <= k < CONNECT ==> #[trigger] s[w + k] == Square::Piece(p)
}

/// The player whose pieces fill the window of `CONNECT` squares of `line`
/// from index `w`, if there is one.
fn window_owner(line: &Vec<Square>, w: usize) -> (r: Option<Player>)
    requires
        w + CONNECT <= line@.len(),
    ensures
        r matches Some(p) ==> held_by(line@, w as int, p),
        r is None ==> forall|p: Player| !held_by(line@, w as int, p),
{
    // Reading the length bounds the indices below by `usize::MAX`.
    let _len: usize = line.len();
    let first = line[w].code();
    let second = line[w + 1].code();
    let third = line[w + 2].code();
    let fourth = line[w + 3].code();
    let four = vec![first, second, third, fourth];
    let n = distinct_count(four.as_slice());
    proof {
        lemma_one_distinct(four@);
    }
    if n == 1 {
        if let Square::Piece(p) = line[w + 3] {
            proof {
                assert forall|k: int| 0 <= k < CONNECT implies #[trigger] line@[w + k] == Square::Piece(p) by {
                    assert(four@[k] == four@[0]);
                    assert(four@[3] == four@[0]);
                    lemma_code_injective(line@[w + k], line@[w + 3]);
                }
            }
            return Some(p);
        }
    }
    proof {
        assert forall|p: Player| !held_by(line@, w as int, p) by {
            if held_by(line@, w as int, p) {
                assert(line@[w + 0] == Square::Piece(p));
                assert(line@[w + 1] == Square::Piece(p));
                assert(line@[w + 2] == Square::Piece(p));
                assert(line@[w + 3] == Square::Piece(p));
                assert(four@[0] == four@[1] && four@[0] == four@[2] && four@[0] == four@[3]);
            }
        }
    }
    None
}

impl Board {
    /// Check one line for four in a row: the `len` squares from row `row`,
    /// column `col` in direction `d`. Every window of `CONNECT` consecutive
    /// squares is tried, from the start of the line.
    fn connect4(&self, row: usize, col: usize, d: Dir, len: usize) -> (r: Option<Player>)
        requires
            CONNECT <= len,
            on_board(row as int, col as int),
            on_board(step_row(d, row as int, len - 1), step_col(d, col as int, len - 1)),
        ensures
            r matches Some(p) ==> exists|w: int|
                0 <= w <= len - CONNECT && #[trigger] self.four_from(
                    p,
                    step_row(d, row as int, w),
                    step_col(d, col as int, w),
                    d,
                ) && forall|v: int, q: Player|
                    0 <= v < w ==> !#[trigger] self.four_from(
                        q,
                        step_row(d, row as int, v),
                        step_col(d, col as int, v),
                        d,
                    ),
            r is None ==> forall|w: int, p: Player|
                0 <= w <= len - CONNECT ==> !#[trigger] self.four_from(
                    p,
                    step_row(d, row as int, w),
                    step_col(d, col as int, w),
                    d,
                ),
    {
        let mut line: Vec<Square> = Vec::new();
        let mut k: usize = 0;
        while k < len
            invariant
                k <= len,
                CONNECT <= len,
                on_board(row as int, col as int),
                on_board(step_row(d, row as int, len - 1), step_col(d, col as int, len - 1)),
                line@.len() == k,
                forall|i: int|
                    0 <= i < k ==> #[trigger] line@[i] == self.at(
                        step_row(d, row as int, i),
                        step_col(d, col as int, i),
                    ),
            decreases len - k,
        {
            let (r, c) = step(d, row, col, k);
            line.push(self.get(r, c));
            k += 1;
        }
        let mut w: usize = 0;
        while w <= len - CONNECT
            invariant
                line@.len() == len,
                CONNECT <= len,
                on_board(row as int, col as int),
                on_board(step_row(d, row as int, len - 1), step_col(d, col as int, len - 1)),
                forall|i: int|
                    0 <= i < len ==> #[trigger] line@[i] == self.at(
                        step_row(d, row as int, i),
                        step_col(d, col as int, i),
                    ),
                forall|v: int, p: Player|
                    0 <= v < w ==> !#[trigger] self.four_from(
                        p,
                        step_row(d, row as int, v),
                        step_col(d, col as int, v),
                        d,
                    ),
            decreases len - w,
        {
            let owner = window_owner(&line, w);
            proof {
                assert forall|p: Player|
                    held_by(line@, w as int, p) == #[trigger] self.four_from(
                        p,
                        step_row(d, row as int, w as int),
                        step_col(d, col as int, w as int),
                        d,
                    ) by {
                    self.lemma_window(line@, row as int, col as int, d, len as int, w as int, p);
                }
            }
            if let Some(p) = owner {
                assert(self.four_from(
                    p,
                    step_row(d, row as int, w as int),
                    step_col(d, col as int, w as int),
                    d,
                ));
                return owner;
            }
            w += 1;
        }
        None
    }

    /// A window of a line, read from the board, is held by `p` exactly when the
    /// `CONNECT` squares of the board from the window's first square are.
    proof fn lemma_window(self, line: Seq<Square>, row: int, col: int, d: Dir, len: int, w: int, p: Player)
        requires
            line.len() == len,
            0 <= w,
            w + CONNECT <= len,
            on_board(row, col),
            on_board(step_row(d, row, len - 1), step_col(d, col, len - 1)),
            forall|i: int| 0 <= i < len ==> #[trigger] line[i] == self.at(step_row(d, row, i), step_col(d, col, i)),
        ensures
            held_by(line, w, p) == self.four_from(p, step_row(d, row, w), step_col(d, col, w), d),
    {
        let r0 = step_row(d, row, w);
        let c0 = step_col(d, col, w);
        if held_by(line, w, p) {
            assert forall|k: int| 0 <= k < CONNECT implies on_board(
                step_row(d, r0, k),
                step_col(d, c0, k),
            ) && self.at(step_row(d, r0, k), step_col(d, c0, k)) == Square::Piece(p) by {
                assert(step_row(d, r0, k) == step_row(d, row, w + k));
                assert(step_col(d, c0, k) == step_col(d, col, w + k));
                assert(line[w + k] == self.at(step_row(d, row, w + k), step_col(d, col, w + k)));
                assert(line[w + k] == Square::Piece(p));
            }
        }
        if self.four_from(p, r0, c0, d) {
            assert forall|k: int| 0 <= k < CONNECT implies #[trigger] line[w + k] == Square::Piece(p) by {
                assert(step_row(d, r0, k) == step_row(d, row, w + k));
                assert(step_col(d, c0, k) == step_col(d, col, w + k));
                assert(line[w + k] == self.at(step_row(d, row, w + k), step_col(d, col, w + k)));
                assert(self.at(step_row(d, r0, k), step_col(d, c0, k)) == Square::Piece(p));
            }
        }
    }

    /// Get the winner of the game: a player with four pieces in a row, or `None`
    /// while nobody has four in a row.
    ///
    /// Every row, every column and every rising diagonal in both directions is
    /// scanned; a diagonal shorter than `CONNECT` is skipped. The owner of the
    /// first winning window in that order is returned.
    pub fn winner(&self) -> (r: Option<Player>)
        ensures
            r matches Some(p) ==> self.first_win(p),
            r matches Some(p) ==> self.wins(p),
            r is None <==> !self.has_winner(),
    {
        // Rows
        let mut row: usize = 0;
        proof {
            assert forall|r: int, c: int, d: Dir, q: Player|
                scan_pos(r, c, d) < 0 implies !#[trigger] self.four_from(q, r, c, d) by {
                if self.four_from(q, r, c, d) {
                    lemma_four_ends(*self, q, r, c, d);
                }
            }
        }
        while row < ROWS
            invariant
                row <= ROWS,
                self.clear_before(row * 10),
            decreases ROWS - row,
        {
            let len: usize = COLS;
            let win = self.connect4(row, 0, Dir::Right, len);
            if let Some(p) = win {
                proof {
                    let w = choose|w: int|
                        0 <= w <= len - CONNECT && #[trigger] self.four_from(
                            p,
                            step_row(Dir::Right, row as int, w),
                            step_col(Dir::Right, 0, w),
                            Dir::Right,
                        ) && forall|v: int, q: Player|
                            0 <= v < w ==> !#[trigger] self.four_from(
                                q,
                                step_row(Dir::Right, row as int, v),
                                step_col(Dir::Right, 0, v),
                                Dir::Right,
                            );
                    let r0 = step_row(Dir::Right, row as int, w);
                    let c0 = step_col(Dir::Right, 0, w);
                    lemma_four_ends(*self, p, r0, c0, Dir::Right);
                    assert forall|r1: int, c1: int, d1: Dir, q: Player|
                        scan_pos(r1, c1, d1) < scan_pos(r0, c0, Dir::Right) implies !#[trigger] self.four_from(
                            q,
                            r1,
                            c1,
                            d1,
                        ) by {
                        if self.four_from(q, r1, c1, d1) && scan_pos(r1, c1, d1) >= row * 10 {
                            lemma_four_ends(*self, q, r1, c1, d1);
                            let v = scan_pos(r1, c1, d1) - (row * 10);
                            assert(!self.four_from(
                                q,
                                step_row(Dir::Right, row as int, v),
                                step_col(Dir::Right, 0, v),
                                Dir::Right,
                            ));
                        }
                    }
                    assert(self.four_from(p, r0, c0, Dir::Right));
                    assert(self.wins(p));
                }
                return win;
            }
            proof {
                assert forall|r1: int, c1: int, d1: Dir, q: Player|
                    scan_pos(r1, c1, d1) < row * 10 + 10 implies !#[trigger] self.four_from(q, r1, c1, d1) by {
                    if self.four_from(q, r1, c1, d1) && scan_pos(r1, c1, d1) >= row * 10 {
                        lemma_four_ends(*self, q, r1, c1, d1);
                        let v = scan_pos(r1, c1, d1) - (row * 10);
                        assert(!self.four_from(
                            q,
                            step_row(Dir::Right, row as int, v),
                            step_col(Dir::Right, 0, v),
                            Dir::Right,
                        ));
                    }
                }
            }
            row += 1;
        }
        // Columns
        let mut col: usize = 0;
        proof {
            self.lemma_no_window_between(ROWS * 10, 100);
        }
        while col < COLS
            invariant
                col <= COLS,
                self.clear_before(100 + col * 10),
            decreases COLS - col,
        {
            let len: usize = ROWS;
            let win = self.connect4(0, col, Dir::Up, len);
            if let Some(p) = win {
                proof {
                    let w = choose|w: int|
                        0 <= w <= len - CONNECT && #[trigger] self.four_from(
                            p,
                            step_row(Dir::Up, 0, w),
                            step_col(Dir::Up, col as int, w),
                            Dir::Up,
                        ) && forall|v: int, q: Player|
                            0 <= v < w ==> !#[trigger] self.four_from(
                                q,
                                step_row(Dir::Up, 0, v),
                                step_col(Dir::Up, col as int, v),
                                Dir::Up,
                            );
                    let r0 = step_row(Dir::Up, 0, w);
                    let c0 = step_col(Dir::Up, col as int, w);
                    lemma_four_ends(*self, p, r0, c0, Dir::Up);
                    assert forall|r1: int, c1: int, d1: Dir, q: Player|
                        scan_pos(r1, c1, d1) < scan_pos(r0, c0, Dir::Up) implies !#[trigger] self.four_from(
                            q,
                            r1,
                            c1,
                            d1,
                        ) by {
                        if self.four_from(q, r1, c1, d1) && scan_pos(r1, c1, d1) >= 100 + col * 10 {
                            lemma_four_ends(*self, q, r1, c1, d1);
                            let v = scan_pos(r1, c1, d1) - (100 + col * 10);
                            assert(!self.four_from(
                                q,
                                step_row(Dir::Up, 0, v),
                                step_col(Dir::Up, col as int, v),
                                Dir::Up,
                            ));
                        }
                    }
                    assert(self.four_from(p, r0, c0, Dir::Up));
                    assert(self.wins(p));
                }
                return win;
            }
            proof {
                assert forall|r1: int, c1: int, d1: Dir, q: Player|
                    scan_pos(r1, c1, d1) < 100 + col * 10 + 10 implies !#[trigger] self.four_from(q, r1, c1, d1) by {
                    if self.four_from(q, r1, c1, d1) && scan_pos(r1, c1, d1) >= 100 + col * 10 {
                        lemma_four_ends(*self, q, r1, c1, d1);
                        let v = scan_pos(r1, c1, d1) - (100 + col * 10);
                        assert(!self.four_from(
                            q,
                            step_row(Dir::Up, 0, v),
                            step_col(Dir::Up, col as int, v),
                            Dir::Up,
                        ));
                    }
                }
            }
            col += 1;
        }
        // Rising diagonals towards the right, from the left edge
        let mut row: usize = 0;
        proof {
            self.lemma_no_window_between(100 + COLS * 10, 200);
        }
        while row < ROWS
            invariant
                row <= ROWS,
                self.clear_before(200 + row * 10),
            decreases ROWS - row,
        {
            let len: usize = if ROWS - row < COLS { ROWS - row } else { COLS };
            let mut win: Option<Player> = None;
            if len >= CONNECT {
                win = self.connect4(row, 0, Dir::UpRight, len);
            }
            if let Some(p) = win {
                proof {
                    let w = choose|w: int|
                        0 <= w <= len - CONNECT && #[trigger] self.four_from(
                            p,
                            step_row(Dir::UpRight, row as int, w),
                            step_col(Dir::UpRight, 0, w),
                            Dir::UpRight,
                        ) && forall|v: int, q: Player|
                            0 <= v < w ==> !#[trigger] self.four_from(
                                q,
                                step_row(Dir::UpRight, row as int, v),
                                step_col(Dir::UpRight, 0, v),
                                Dir::UpRight,
                            );
                    let r0 = step_row(Dir::UpRight, row as int, w);
                    let c0 = step_col(Dir::UpRight, 0, w);
                    lemma_four_ends(*self, p, r0, c0, Dir::UpRight);
                    assert forall|r1: int, c1: int, d1: Dir, q: Player|
                        scan_pos(r1, c1, d1) < scan_pos(r0, c0, Dir::UpRight) implies !#[trigger] self.four_from(
                            q,
                            r1,
                            c1,
                            d1,
                        ) by {
                        if self.four_from(q, r1, c1, d1) && scan_pos(r1, c1, d1) >= 200 + row * 10 {
                            lemma_four_ends(*self, q, r1, c1, d1);
                            let v = scan_pos(r1, c1, d1) - (200 + row * 10);
                            assert(!self.four_from(
                                q,
                                step_row(Dir::UpRight, row as int, v),
                                step_col(Dir::UpRight, 0, v),
                                Dir::UpRight,
                            ));
                        }
                    }
                    assert(self.four_from(p, r0, c0, Dir::UpRight));
                    assert(self.wins(p));
                }
                return win;
            }
            proof {
                assert forall|r1: int, c1: int, d1: Dir, q: Player|
                    scan_pos(r1, c1, d1) < 200 + row * 10 + 10 implies !#[trigger] self.four_from(q, r1, c1, d1) by {
                    if self.four_from(q, r1, c1, d1) && scan_pos(r1, c1, d1) >= 200 + row * 10 {
                        lemma_four_ends(*self, q, r1, c1, d1);
                        let v = scan_pos(r1, c1, d1) - (200 + row * 10);
                        assert(!self.four_from(
                            q,
                            step_row(Dir::UpRight, row as int, v),
                            step_col(Dir::UpRight, 0, v),
                            Dir::UpRight,
                        ));
                    }
                }
            }
            row += 1;
        }
        // Rising diagonals towards the right, from the bottom edge
        let mut col: usize = 1;
        proof {
            self.lemma_no_window_between(200 + ROWS * 10, 310);
        }
        while col < COLS
            invariant
                1 <= col <= COLS,
                self.clear_before(300 + col * 10),
            decreases COLS - col,
        {
            let len: usize = if COLS - col < ROWS { COLS - col } else { ROWS };
            let mut win: Option<Player> = None;
            if len >= CONNECT {
                win = self.connect4(0, col, Dir::UpRight, len);
            }
            if let Some(p) = win {
                proof {
                    let w = choose|w: int|
                        0 <= w <= len - CONNECT && #[trigger] self.four_from(
                            p,
                            step_row(Dir::UpRight, 0, w),
                            step_col(Dir::UpRight, col as int, w),
                            Dir::UpRight,
                        ) && forall|v: int, q: Player|
                            0 <= v < w ==> !#[trigger] self.four_from(
                                q,
                                step_row(Dir::UpRight, 0, v),
                                step_col(Dir::UpRight, col as int, v),
                                Dir::UpRight,
                            );
                    let r0 = step_row(Dir::UpRight, 0, w);
                    let c0 = step_col(Dir::UpRight, col as int, w);
                    lemma_four_ends(*self, p, r0, c0, Dir::UpRight);
                    assert forall|r1: int, c1: int, d1: Dir, q: Player|
                        scan_pos(r1, c1, d1) < scan_pos(r0, c0, Dir::UpRight) implies !#[trigger] self.four_from(
                            q,
                            r1,
                            c1,
                            d1,
                        ) by {
                        if self.four_from(q, r1, c1, d1) && scan_pos(r1, c1, d1) >= 300 + col * 10 {
                            lemma_four_ends(*self, q, r1, c1, d1);
                            let v = scan_pos(r1, c1, d1) - (300 + col * 10);
                            assert(!self.four_from(
                                q,
                                step_row(Dir::UpRight, 0, v),
                                step_col(Dir::UpRight, col as int, v),
                                Dir::UpRight,
                            ));
                        }
                    }
                    assert(self.four_from(p, r0, c0, Dir::UpRight));
                    assert(self.wins(p));
                }
                return win;
            }
            proof {
                assert forall|r1: int, c1: int, d1: Dir, q: Player|
                    scan_pos(r1, c1, d1) < 300 + col * 10 + 10 implies !#[trigger] self.four_from(q, r1, c1, d1) by {
                    if self.four_from(q, r1, c1, d1) && scan_pos(r1, c1, d1) >= 300 + col * 10 {
                        lemma_four_ends(*self, q, r1, c1, d1);
                        let v = scan_pos(r1, c1, d1) - (300 + col * 10);
                        assert(!self.four_from(
                            q,
                            step_row(Dir::UpRight, 0, v),
                            step_col(Dir::UpRight, col as int, v),
                            Dir::UpRight,
                        ));
                    }
                }
            }
            col += 1;
        }
        // Rising diagonals towards the left, from the right edge
        let mut row: usize = 0;
        proof {
            self.lemma_no_window_between(300 + COLS * 10, 400);
        }
        while row < ROWS
            invariant
                row <= ROWS,
                self.clear_before(400 + row * 10),
            decreases ROWS - row,
        {
            let len: usize = if ROWS - row < COLS { ROWS - row } else { COLS };
            let mut win: Option<Player> = None;
            if len >= CONNECT {
                win = self.connect4(row, COLS - 1, Dir::UpLeft, len);
            }
            if let Some(p) = win {
                proof {
                    let w = choose|w: int|
                        0 <= w <= len - CONNECT && #[trigger] self.four_from(
                            p,
                            step_row(Dir::UpLeft, row as int, w),
                            step_col(Dir::UpLeft, COLS - 1, w),
                            Dir::UpLeft,
                        ) && forall|v: int, q: Player|
                            0 <= v < w ==> !#[trigger] self.four_from(
                                q,
                                step_row(Dir::UpLeft, row as int, v),
                                step_col(Dir::UpLeft, COLS - 1, v),
                                Dir::UpLeft,
                            );
                    let r0 = step_row(Dir::UpLeft, row as int, w);
                    let c0 = step_col(Dir::UpLeft, COLS - 1, w);
                    lemma_four_ends(*self, p, r0, c0, Dir::UpLeft);
                    assert forall|r1: int, c1: int, d1: Dir, q: Player|
                        scan_pos(r1, c1, d1) < scan_pos(r0, c0, Dir::UpLeft) implies !#[trigger] self.four_from(
                            q,
                            r1,
                            c1,
                            d1,
                        ) by {
                        if self.four_from(q, r1, c1, d1) && scan_pos(r1, c1, d1) >= 400 + row * 10 {
                            lemma_four_ends(*self, q, r1, c1, d1);
                            let v = scan_pos(r1, c1, d1) - (400 + row * 10);
                            assert(!self.four_from(
                                q,
                                step_row(Dir::UpLeft, row as int, v),
                                step_col(Dir::UpLeft, COLS - 1, v),
                                Dir::UpLeft,
                            ));
                        }
                    }
                    assert(self.four_from(p, r0, c0, Dir::UpLeft));
                    assert(self.wins(p));
                }
                return win;
            }
            proof {
                assert forall|r1: int, c1: int, d1: Dir, q: Player|
                    scan_pos(r1, c1, d1) < 400 + row * 10 + 10 implies !#[trigger] self.four_from(q, r1, c1, d1) by {
                    if self.four_from(q, r1, c1, d1) && scan_pos(r1, c1, d1) >= 400 + row * 10 {
                        lemma_four_ends(*self, q, r1, c1, d1);
                        let v = scan_pos(r1, c1, d1) - (400 + row * 10);
                        assert(!self.four_from(
                            q,
                            step_row(Dir::UpLeft, row as int, v),
                            step_col(Dir::UpLeft, COLS - 1, v),
                            Dir::UpLeft,
                        ));
                    }
                }
            }
            row += 1;
        }
        // Rising diagonals towards the left, from the bottom edge
        let mut col: usize = 0;
        proof {
            self.lemma_no_window_between(400 + ROWS * 10, 500);
        }
        while col < COLS - 1
            invariant
                col <= COLS - 1,
                self.clear_before(500 + col * 10),
            decreases COLS - col,
        {
            let len: usize = if col + 1 < ROWS { col + 1 } else { ROWS };
            let mut win: Option<Player> = None;
            if len >= CONNECT {
                win = self.connect4(0, col, Dir::UpLeft, len);
            }
            if let Some(p) = win {
                proof {
                    let w = choose|w: int|
                        0 <= w <= len - CONNECT && #[trigger] self.four_from(
                            p,
                            step_row(Dir::UpLeft, 0, w),
                            step_col(Dir::UpLeft, col as int, w),
                            Dir::UpLeft,
                        ) && forall|v: int, q: Player|
                            0 <= v < w ==> !#[trigger] self.four_from(
                                q,
                                step_row(Dir::UpLeft, 0, v),
                                step_col(Dir::UpLeft, col as int, v),
                                Dir::UpLeft,
                            );
                    let r0 = step_row(Dir::UpLeft, 0, w);
                    let c0 = step_col(Dir::UpLeft, col as int, w);
                    lemma_four_ends(*self, p, r0, c0, Dir::UpLeft);
                    assert forall|r1: int, c1: int, d1: Dir, q: Player|
                        scan_pos(r1, c1, d1) < scan_pos(r0, c0, Dir::UpLeft) implies !#[trigger] self.four_from(
                            q,
                            r1,
                            c1,
                            d1,
                        ) by {
                        if self.four_from(q, r1, c1, d1) && scan_pos(r1, c1, d1) >= 500 + col * 10 {
                            lemma_four_ends(*self, q, r1, c1, d1);
                            let v = scan_pos(r1, c1, d1) - (500 + col * 10);
                            assert(!self.four_from(
                                q,
                                step_row(Dir::UpLeft, 0, v),
                                step_col(Dir::UpLeft, col as int, v),
                                Dir::UpLeft,
                            ));
                        }
                    }
                    assert(self.four_from(p, r0, c0, Dir::UpLeft));
                    assert(self.wins(p));
                }
                return win;
            }
            proof {
                assert forall|r1: int, c1: int, d1: Dir, q: Player|
                    scan_pos(r1, c1, d1) < 500 + col * 10 + 10 implies !#[trigger] self.four_from(q, r1, c1, d1) by {
                    if self.four_from(q, r1, c1, d1) && scan_pos(r1, c1, d1) >= 500 + col * 10 {
                        lemma_four_ends(*self, q, r1, c1, d1);
                        let v = scan_pos(r1, c1, d1) - (500 + col * 10);
                        assert(!self.four_from(
                            q,
                            step_row(Dir::UpLeft, 0, v),
                            step_col(Dir::UpLeft, col as int, v),
                            Dir::UpLeft,
                        ));
                    }
                }
            }
            col += 1;
        }
        proof {
            self.lemma_no_window_between(500 + (COLS - 1) * 10, 700);
            assert forall|p: Player| !self.wins(p) by {
                if self.wins(p) {
                    let (r, c, d) = choose|r: int, c: int, d: Dir| self.four_from(p, r, c, d);
                    lemma_four_ends(*self, p, r, c, d);
                }
            }
        }
        None
    }

    /// No window that comes before `bound` in the scan order holds four pieces.
    pub open spec fn clear_before(self, bound: int) -> bool {
        forall|r: int, c: int, d: Dir, q: Player|
            scan_pos(r, c, d) < bound ==> !#[trigger] self.four_from(q, r, c, d)
    }

    /// `p` holds the first window, in the scan order, that holds four pieces.
    pub open spec fn first_win(self, p: Player) -> bool {
        exists|r: int, c: int, d: Dir|
            #[trigger] self.four_from(p, r, c, d) && self.clear_before(scan_pos(r, c, d))
    }

    /// No window on the board has its scan position in `lo .. hi`: what was
    /// clear before `lo` is clear before `hi`.
    proof fn lemma_no_window_between(self, lo: int, hi: int)
        requires
            self.clear_before(lo),
            forall|r: int, c: int, d: Dir|
                on_board(r, c) && on_board(step_row(d, r, CONNECT - 1), step_col(d, c, CONNECT - 1))
                    ==> !(lo <= #[trigger] scan_pos(r, c, d) < hi),
        ensures
            self.clear_before(hi),
    {
        assert forall|r: int, c: int, d: Dir, q: Player|
            scan_pos(r, c, d) < hi implies !#[trigger] self.four_from(q, r, c, d) by {
            if self.four_from(q, r, c, d) {
                lemma_four_ends(self, q, r, c, d);
            }
        }
    }
}

} // verus!
