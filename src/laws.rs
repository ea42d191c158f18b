use vstd::prelude::*;

use crate::board::Board;
use crate::piece::Player;
use crate::winner::{on_board, scan_pos, step_col, step_row, Dir};
use crate::{COLS, CONNECT, ROWS};

verus! {

/// Nobody has four in a row on an empty board.
pub proof fn lemma_empty_board_has_no_winner(b: Board)
    requires
        b.is_empty(),
    ensures
        !b.has_winner(),
{
    assert forall|p: Player| !b.wins(p) by {
        if b.wins(p) {
            let (r, c, d) = choose|r: int, c: int, d: Dir| b.four_from(p, r, c, d);
            assert(on_board(step_row(d, r, 0), step_col(d, c, 0)));
        }
    }
}

/// A player who has four in a row has at least four pieces on the board: so
/// nobody wins before some player has placed four pieces.
pub proof fn lemma_winner_has_four_pieces(b: Board, p: Player)
    requires
        b.wins(p),
    ensures
        b.squares_of(p).len() >= CONNECT,
{
    let (r, c, d) = choose|r: int, c: int, d: Dir| b.four_from(p, r, c, d);
    let ghost idx = |k: int| step_row(d, r, k) * COLS + step_col(d, c, k);
    assert forall|k: int| 0 <= k < CONNECT implies b.squares_of(p).contains(#[trigger] idx(k)) by {
        assert(on_board(step_row(d, r, k), step_col(d, c, k)));
        assert(b.at(step_row(d, r, k), step_col(d, c, k)) == crate::piece::Square::Piece(p));
    }
    let four = set![idx(0), idx(1), idx(2), idx(3)];
    assert(idx(0) != idx(1) && idx(0) != idx(2) && idx(0) != idx(3));
    assert(idx(1) != idx(2) && idx(1) != idx(3) && idx(2) != idx(3));
    assert(four.len() == 4) by {
        broadcast use vstd::set::group_set_axioms;

        assert(!set![idx(0)].contains(idx(1)));
        assert(!set![idx(0), idx(1)].contains(idx(2)));
        assert(!set![idx(0), idx(1), idx(2)].contains(idx(3)));
    }
    let all = vstd::set_lib::set_int_range(0, ROWS * COLS);
    assert(b.squares_of(p).subset_of(all));
    vstd::set_lib::lemma_int_range(0, ROWS * COLS);
    vstd::set_lib::lemma_len_subset(b.squares_of(p), all);
    assert(four.subset_of(b.squares_of(p))) by {
        assert(b.squares_of(p).contains(idx(0)));
        assert(b.squares_of(p).contains(idx(1)));
        assert(b.squares_of(p).contains(idx(2)));
        assert(b.squares_of(p).contains(idx(3)));
    }
    assert(b.squares_of(p).finite()) by {
        vstd::set_lib::lemma_set_subset_finite(all, b.squares_of(p));
    }
    vstd::set_lib::lemma_len_subset(four, b.squares_of(p));
}

/// Two windows on the board with the same scan position are the same window.
proof fn lemma_scan_pos_injective(r1: int, c1: int, d1: Dir, r2: int, c2: int, d2: Dir)
    requires
        on_board(r1, c1),
        on_board(step_row(d1, r1, CONNECT - 1), step_col(d1, c1, CONNECT - 1)),
        on_board(r2, c2),
        on_board(step_row(d2, r2, CONNECT - 1), step_col(d2, c2, CONNECT - 1)),
        scan_pos(r1, c1, d1) == scan_pos(r2, c2, d2),
    ensures
        r1 == r2 && c1 == c2 && d1 == d2,
{
}

/// At most one player holds the first winning window of a board.
pub proof fn lemma_first_win_unique(b: Board, p: Player, q: Player)
    requires
        b.first_win(p),
        b.first_win(q),
    ensures
        p == q,
{
    let (r1, c1, d1) = choose|r: int, c: int, d: Dir|
        #[trigger] b.four_from(p, r, c, d) && b.clear_before(scan_pos(r, c, d));
    let (r2, c2, d2) = choose|r: int, c: int, d: Dir|
        #[trigger] b.four_from(q, r, c, d) && b.clear_before(scan_pos(r, c, d));
    assert(on_board(step_row(d1, r1, 0), step_col(d1, c1, 0)));
    assert(on_board(step_row(d1, r1, CONNECT - 1), step_col(d1, c1, CONNECT - 1)));
    assert(on_board(step_row(d2, r2, 0), step_col(d2, c2, 0)));
    assert(on_board(step_row(d2, r2, CONNECT - 1), step_col(d2, c2, CONNECT - 1)));
    lemma_scan_pos_injective(r1, c1, d1, r2, c2, d2);
    assert(b.at(step_row(d1, r1, 0), step_col(d1, c1, 0)) == crate::piece::Square::Piece(p));
    assert(b.at(step_row(d2, r2, 0), step_col(d2, c2, 0)) == crate::piece::Square::Piece(q));
}

/// Asking a board twice who won, or whether the game is over, gives the same
/// answers: `x` and `y` are any two results that `winner` may return on `b`,
/// `o1` and `o2` any two that `over` may return.
pub proof fn lemma_queries_repeat(b: Board, x: Option<Player>, y: Option<Player>, o1: bool, o2: bool)
    requires
        x matches Some(p) ==> b.first_win(p),
        x is None <==> !b.has_winner(),
        y matches Some(p) ==> b.first_win(p),
        y is None <==> !b.has_winner(),
        o1 == (b.top_full() || b.has_winner()),
        o2 == (b.top_full() || b.has_winner()),
    ensures
        x == y,
        o1 == o2,
{
    if x is Some && y is Some {
        lemma_first_win_unique(b, x->0, y->0);
    }
}

} // verus!
