use connect4::{Board, Connect4, Player, Square, Turn, COLS, ROWS};

fn turn(player: Player, col: usize) -> Turn {
    Turn::new(player, col).unwrap()
}

/// Plays the columns in order, alternating from the current player.
fn play_all(game: &mut Connect4, cols: &[usize]) {
    for &c in cols {
        let player = game.player();
        assert!(game.play(turn(player, c)), "column {} refused", c);
    }
}

#[test]
fn it_works() {
    let result = 2 + 2;
    assert_eq!(result, 4);
}

#[test]
fn empty_board_offers_every_column() {
    let game = Connect4::new();
    let turns = game.turns();
    let cols: Vec<usize> = turns.iter().map(|t| t.pos()).collect();
    assert_eq!(cols, vec![0, 1, 2, 3, 4, 5, 6]);
    assert!(turns.iter().all(|t| t.player() == Player::Black));
    assert!(!game.over());
    assert_eq!(game.winner(), None);
}

#[test]
fn default_is_new() {
    let game = Connect4::default();
    assert_eq!(game.player(), Player::Black);
    assert_eq!(game.turns().len(), COLS);
}

#[test]
fn vertical_four_wins() {
    let mut game = Connect4::new();
    play_all(&mut game, &[3, 0, 3, 0, 3, 0]);
    assert_eq!(game.winner(), None);
    assert!(!game.over());
    play_all(&mut game, &[3]);
    for row in 0..4 {
        assert_eq!(game.board().get(row, 3), Square::Piece(Player::Black));
    }
    assert_eq!(game.winner(), Some(Player::Black));
    assert!(game.over());
}

#[test]
fn horizontal_four_wins() {
    let mut game = Connect4::new();
    play_all(&mut game, &[0, 0, 1, 1, 2, 2]);
    assert_eq!(game.winner(), None);
    play_all(&mut game, &[3]);
    assert_eq!(game.winner(), Some(Player::Black));
}

#[test]
fn rising_diagonal_wins() {
    let mut board = Board::new();
    let b = Player::Black;
    let w = Player::White;
    // Fill below the diagonal with white, then put black on (0,0), (1,1), (2,2), (3,3).
    for (player, col) in [(b, 0), (w, 1), (b, 1), (w, 2), (w, 2), (b, 2), (w, 3), (w, 3), (w, 3)] {
        assert!(board.play(&turn(player, col)));
    }
    assert_eq!(board.winner(), None);
    assert!(board.play(&turn(b, 3)));
    assert_eq!(board.get(3, 3), Square::Piece(b));
    assert_eq!(board.winner(), Some(b));
    assert!(board.over());
}

#[test]
fn falling_diagonal_wins() {
    let mut board = Board::new();
    let b = Player::Black;
    let w = Player::White;
    // White on (0,6), (1,5), (2,4), (3,3).
    for (player, col) in [(w, 6), (b, 5), (w, 5), (b, 4), (b, 4), (w, 4), (b, 3), (b, 3), (b, 3)] {
        assert!(board.play(&turn(player, col)));
    }
    assert_eq!(board.winner(), None);
    assert!(board.play(&turn(w, 3)));
    assert_eq!(board.winner(), Some(w));
}

#[test]
fn short_diagonal_high_on_the_board_wins() {
    let mut board = Board::new();
    let b = Player::Black;
    let w = Player::White;
    // Black on (2,3), (3,4), (4,5), (5,6): a diagonal of length four.
    let drops = [
        (w, 3), (b, 3), (b, 3), (w, 4), (b, 4), (w, 4), (b, 4), (b, 5), (w, 5), (b, 5), (b, 5),
        (b, 5), (w, 6), (w, 6), (b, 6), (b, 6), (w, 6),
    ];
    for (player, col) in drops {
        assert!(board.play(&turn(player, col)));
    }
    assert_eq!(board.winner(), None);
    assert!(board.play(&turn(b, 6)));
    assert_eq!(board.get(5, 6), Square::Piece(b));
    assert_eq!(board.winner(), Some(b));
}

#[test]
fn full_board_without_four_is_a_draw() {
    let mut game = Connect4::new();
    let cols = [
        5, 4, 5, 0, 6, 2, 4, 5, 5, 0, 4, 1, 1, 0, 4, 5, 6, 5, 3, 1, 1, 2, 2, 6, 2, 6, 6, 3, 6, 2,
        0, 3, 0, 3, 3, 4, 3, 1, 4, 2, 1, 0,
    ];
    for (i, &c) in cols.iter().enumerate() {
        assert!(!game.over(), "over before move {}", i);
        let player = game.player();
        assert!(game.play(turn(player, c)));
    }
    assert!(game.turns().is_empty());
    assert!(game.over());
    assert_eq!(game.winner(), None);
}

#[test]
fn seventh_drop_into_a_column_fails() {
    let mut board = Board::new();
    for i in 0..ROWS {
        let player = if i % 2 == 0 { Player::Black } else { Player::White };
        assert!(board.play(&turn(player, 2)));
    }
    let before = board;
    assert!(!board.play(&turn(Player::Black, 2)));
    for row in 0..ROWS {
        for col in 0..COLS {
            assert_eq!(board.get(row, col), before.get(row, col));
        }
    }
    assert_eq!(board.turns(Player::White).iter().map(|t| t.pos()).collect::<Vec<_>>(), vec![0, 1, 3, 4, 5, 6]);
}

#[test]
fn turn_outside_the_board_is_not_made() {
    assert!(Turn::new(Player::Black, COLS).is_none());
    assert!(Turn::new(Player::White, COLS + 10).is_none());
    let t = Turn::new(Player::White, COLS - 1).unwrap();
    assert_eq!(t.pos(), COLS - 1);
    assert_eq!(t.player(), Player::White);
}

#[test]
fn wrong_player_is_refused() {
    let mut game = Connect4::new();
    assert!(!game.play(turn(Player::White, 0)));
    assert_eq!(game.player(), Player::Black);
    assert_eq!(game.board().get(0, 0), Square::Empty);
    assert_eq!(game.turns().len(), COLS);
}

#[test]
fn successful_play_passes_the_turn() {
    let mut game = Connect4::new();
    assert!(game.play(turn(Player::Black, 4)));
    assert_eq!(game.player(), Player::White);
    assert_eq!(game.board().get(0, 4), Square::Piece(Player::Black));
    assert!(game.play(turn(Player::White, 4)));
    assert_eq!(game.player(), Player::Black);
    assert_eq!(game.board().get(1, 4), Square::Piece(Player::White));
}

#[test]
fn failed_play_keeps_the_turn() {
    let mut game = Connect4::new();
    play_all(&mut game, &[1, 1, 1, 1, 1, 1]);
    assert_eq!(game.player(), Player::Black);
    assert!(!game.play(turn(Player::Black, 1)));
    assert_eq!(game.player(), Player::Black);
}

#[test]
fn queries_repeat_their_answers() {
    let mut game = Connect4::new();
    play_all(&mut game, &[2, 3, 2, 3, 2, 3, 2]);
    let first = (game.winner(), game.over());
    assert_eq!(first, (Some(Player::Black), true));
    assert_eq!((game.winner(), game.over()), first);
    assert_eq!((game.winner(), game.over()), first);
}

#[test]
fn opponent_is_an_involution() {
    assert_eq!(Player::Black.opponent(), Player::White);
    assert_eq!(Player::White.opponent(), Player::Black);
    let mut p = Player::White;
    p.switch();
    assert_eq!(p, Player::Black);
}

#[test]
fn three_in_a_row_does_not_win() {
    let mut game = Connect4::new();
    play_all(&mut game, &[0, 6, 1, 6, 2, 5]);
    assert_eq!(game.winner(), None);
    assert!(!game.over());
    assert_eq!(Square::Empty.taken(), false);
    assert!(game.board().get(0, 0).taken());
}
