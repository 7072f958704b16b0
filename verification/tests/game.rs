use connect_four::{Cell, Game, GameError, Player, HEIGHT, WIDTH};

fn small() -> Game {
    Game::with_size(4, 3, 2).unwrap()
}

#[test]
fn test_diagonal_win() {
    let mut game = small();
    game.make_turn(0).unwrap();
    println!("");
    println!("{:?}", game.field().cells());
    game.make_turn(1).unwrap();
    println!("{:?}", game.field().cells());
    game.make_turn(1).unwrap();
    println!("{:?}", game.field().cells());
    assert_eq!(game.field().win_check(), Some(Player::Red));
    assert_eq!(game.make_turn(0), Err(GameError::AlreadyEnded));
}

#[test]
fn test_row_win() {
    let mut game = small();
    game.make_turn(0).unwrap();
    println!("");
    println!("{:?}", game.field().cells());
    game.make_turn(0).unwrap();
    println!("{:?}", game.field().cells());
    game.make_turn(1).unwrap();
    println!("{:?}", game.field().cells());
    assert_eq!(game.field().win_check(), Some(Player::Red));
    assert_eq!(game.make_turn(0), Err(GameError::AlreadyEnded));
}

#[test]
fn test_column_win() {
    let mut game = small();
    game.make_turn(0).unwrap();
    println!("");
    println!("{:?}", game.field().cells());
    game.make_turn(1).unwrap();
    println!("{:?}", game.field().cells());
    game.make_turn(0).unwrap();
    println!("{:?}", game.field().cells());
    assert_eq!(game.field().win_check(), Some(Player::Red));
    assert_eq!(game.make_turn(0), Err(GameError::AlreadyEnded));
}

#[test]
fn new_game_starts_with_red() {
    let game = Game::new();
    assert_eq!(game.current_turn(), Player::Red);
    assert_eq!(game.winner(), None);
    assert_eq!(game.turns(), 0);
    assert_eq!(game.field().width(), WIDTH);
    assert_eq!(game.field().height(), HEIGHT);
    assert!(game.field().cells().iter().all(|cell| cell.is_none()));
}

#[test]
fn players_take_turns() {
    assert_eq!(Player::Red.next(), Player::Blue);
    assert_eq!(Player::Blue.next(), Player::Red);
    let mut game = Game::new();
    game.make_turn(3).unwrap();
    assert_eq!(game.current_turn(), Player::Blue);
    assert_eq!(game.turns(), 1);
    assert_eq!(game.field().get(0, 3), Some(Some(Player::Red)));
    game.make_turn(3).unwrap();
    assert_eq!(game.current_turn(), Player::Red);
    assert_eq!(game.turns(), 2);
    assert_eq!(game.field().get(1, 3), Some(Some(Player::Blue)));
    assert_eq!(game.winner(), None);
}

#[test]
fn four_in_a_column_win_on_the_standard_board() {
    let mut game = Game::new();
    for _ in 0..3 {
        game.make_turn(0).unwrap();
        assert_eq!(game.winner(), None);
        game.make_turn(1).unwrap();
        assert_eq!(game.winner(), None);
    }
    assert_eq!(game.make_turn(0), Ok(()));
    assert_eq!(game.winner(), Some(Player::Red));
    assert_eq!(game.turns(), 7);
    // the turn passes on even with the winning move
    assert_eq!(game.current_turn(), Player::Blue);
    let before: Vec<Cell> = game.field().cells().to_vec();
    for column in 0..WIDTH + 2 {
        assert_eq!(game.make_turn(column), Err(GameError::AlreadyEnded));
    }
    assert_eq!(game.winner(), Some(Player::Red));
    assert_eq!(game.turns(), 7);
    assert_eq!(game.current_turn(), Player::Blue);
    assert_eq!(game.field().cells(), &before[..]);
}

#[test]
fn three_in_a_column_do_not_win_on_the_standard_board() {
    let mut game = Game::new();
    for _ in 0..2 {
        game.make_turn(0).unwrap();
        game.make_turn(1).unwrap();
    }
    game.make_turn(0).unwrap();
    assert_eq!(game.winner(), None);
}

#[test]
fn full_column_is_refused_and_not_counted() {
    let mut game = Game::new();
    for _ in 0..HEIGHT {
        game.make_turn(0).unwrap();
    }
    assert_eq!(game.winner(), None);
    assert_eq!(game.turns(), HEIGHT);
    let player = game.current_turn();
    let before: Vec<Cell> = game.field().cells().to_vec();
    assert_eq!(game.make_turn(0), Err(GameError::ColumnIsFull));
    assert_eq!(game.make_turn(0), Err(GameError::ColumnIsFull));
    assert_eq!(game.turns(), HEIGHT);
    assert_eq!(game.current_turn(), player);
    assert_eq!(game.winner(), None);
    assert_eq!(game.field().cells(), &before[..]);
    assert_eq!(game.make_turn(1), Ok(()));
    assert_eq!(game.turns(), HEIGHT + 1);
}

#[test]
fn missing_column_is_refused_and_not_counted() {
    let mut game = Game::new();
    game.make_turn(4).unwrap();
    let before: Vec<Cell> = game.field().cells().to_vec();
    assert_eq!(game.make_turn(WIDTH), Err(GameError::NoSuchColumn));
    assert_eq!(game.make_turn(WIDTH + 7), Err(GameError::NoSuchColumn));
    assert_eq!(game.turns(), 1);
    assert_eq!(game.current_turn(), Player::Blue);
    assert_eq!(game.winner(), None);
    assert_eq!(game.field().cells(), &before[..]);
}

#[test]
fn row_win_on_the_standard_board() {
    let mut game = Game::new();
    // Red: bottom row, columns 0 to 3. Blue answers on top of each.
    for column in 0..3 {
        game.make_turn(column).unwrap();
        game.make_turn(column).unwrap();
    }
    assert_eq!(game.winner(), None);
    game.make_turn(3).unwrap();
    assert_eq!(game.winner(), Some(Player::Red));
    assert_eq!(game.make_turn(4), Err(GameError::AlreadyEnded));
}

#[test]
fn rising_diagonal_win_on_the_standard_board() {
    let mut game = Game::new();
    // Red climbs from (0, 0) to (3, 3).
    let moves = [0, 1, 1, 2, 3, 2, 2, 3, 4, 3, 3];
    for (count, column) in moves.iter().enumerate() {
        assert_eq!(game.winner(), None, "after {} moves", count);
        game.make_turn(*column).unwrap();
    }
    assert_eq!(game.winner(), Some(Player::Red));
    assert_eq!(game.field().get(0, 0), Some(Some(Player::Red)));
    assert_eq!(game.field().get(1, 1), Some(Some(Player::Red)));
    assert_eq!(game.field().get(2, 2), Some(Some(Player::Red)));
    assert_eq!(game.field().get(3, 3), Some(Some(Player::Red)));
}

#[test]
fn falling_diagonal_win_for_blue() {
    let mut game = Game::new();
    // Blue climbs from (0, 4) to (3, 1).
    let moves = [2, 4, 2, 1, 3, 3, 4, 3, 1, 2, 1, 1];
    for (count, column) in moves.iter().enumerate() {
        assert_eq!(game.winner(), None, "after {} moves", count);
        game.make_turn(*column).unwrap();
    }
    assert_eq!(game.winner(), Some(Player::Blue));
    assert_eq!(game.field().get(0, 4), Some(Some(Player::Blue)));
    assert_eq!(game.field().get(1, 3), Some(Some(Player::Blue)));
    assert_eq!(game.field().get(2, 2), Some(Some(Player::Blue)));
    assert_eq!(game.field().get(3, 1), Some(Some(Player::Blue)));
    assert_eq!(game.current_turn(), Player::Red);
}

#[test]
fn a_board_too_small_to_win_on_fills_up() {
    let mut game = Game::with_size(2, 2, 3).unwrap();
    for column in [0, 0, 1, 1] {
        assert_eq!(game.make_turn(column), Ok(()));
    }
    assert_eq!(game.winner(), None);
    assert_eq!(game.turns(), 4);
    assert_eq!(game.make_turn(0), Err(GameError::ColumnIsFull));
    assert_eq!(game.make_turn(1), Err(GameError::ColumnIsFull));
    assert_eq!(game.make_turn(2), Err(GameError::NoSuchColumn));
}

#[test]
fn with_size_refuses_more_cells_than_can_be_counted_in_a_game() {
    assert!(Game::with_size(usize::MAX, 3, 4).is_none());
    assert!(Game::with_size(6, 7, 4).is_some());
}
