use connect_four::{Cell, Field, GameError, Player, HEIGHT, WIDTH, X_ROW};

fn occupied(field: &Field) -> usize {
    field.cells().iter().filter(|cell| cell.is_some()).count()
}

#[test]
fn standard_board_is_five_by_five() {
    let field = Field::new();
    assert_eq!((WIDTH, HEIGHT, X_ROW), (5, 5, 4));
    assert_eq!(field.width(), 5);
    assert_eq!(field.height(), 5);
    assert_eq!(field.x_row(), 4);
    assert_eq!(field.cells().len(), 25);
    assert!(field.cells().iter().all(|cell| cell.is_none()));
    assert_eq!(field.win_check(), None);
}

#[test]
fn drop_lands_in_the_lowest_empty_cell() {
    let mut field = Field::new();
    for column in 0..WIDTH {
        for row in 0..HEIGHT {
            let player = if (row + column) % 2 == 0 { Player::Red } else { Player::Blue };
            let before: Vec<Cell> = field.cells().to_vec();
            assert_eq!(field.throw_token(column, player), Ok(()));
            let mut expected = before.clone();
            expected[row * WIDTH + column] = Some(player);
            assert_eq!(field.cells(), &expected[..]);
            assert_eq!(occupied(&field), before.iter().filter(|c| c.is_some()).count() + 1);
            assert_eq!(field.get(row, column), Some(Some(player)));
        }
    }
    assert_eq!(occupied(&field), WIDTH * HEIGHT);
}

#[test]
fn drop_into_a_missing_column_changes_nothing() {
    let mut field = Field::new();
    field.throw_token(2, Player::Red).unwrap();
    let before: Vec<Cell> = field.cells().to_vec();
    assert_eq!(field.throw_token(WIDTH, Player::Blue), Err(GameError::NoSuchColumn));
    assert_eq!(field.throw_token(WIDTH + 1, Player::Blue), Err(GameError::NoSuchColumn));
    assert_eq!(field.throw_token(usize::MAX, Player::Blue), Err(GameError::NoSuchColumn));
    assert_eq!(field.cells(), &before[..]);
}

#[test]
fn drop_into_a_full_column_changes_nothing() {
    let mut field = Field::with_size(4, 3, 2).unwrap();
    field.throw_token(1, Player::Red).unwrap();
    field.throw_token(1, Player::Blue).unwrap();
    field.throw_token(1, Player::Red).unwrap();
    let before: Vec<Cell> = field.cells().to_vec();
    assert_eq!(field.throw_token(1, Player::Blue), Err(GameError::ColumnIsFull));
    assert_eq!(field.throw_token(1, Player::Red), Err(GameError::ColumnIsFull));
    assert_eq!(field.cells(), &before[..]);
    assert_eq!(field.throw_token(0, Player::Blue), Ok(()));
}

#[test]
fn drop_fills_a_gap_below_a_token() {
    let red = Some(Player::Red);
    let blue = Some(Player::Blue);
    let cells = vec![
        red, None, //
        None, red, //
        None, None,
    ];
    let mut field = Field::from_cells(2, 3, 3, cells).unwrap();
    assert_eq!(field.throw_token(1, Player::Blue), Ok(()));
    assert_eq!(field.cells(), [red, blue, None, red, None, None]);
    assert_eq!(field.throw_token(1, Player::Blue), Ok(()));
    assert_eq!(field.cells(), [red, blue, None, red, None, blue]);
    assert_eq!(field.throw_token(1, Player::Blue), Err(GameError::ColumnIsFull));
}

#[test]
fn get_reads_by_row_and_column() {
    let red = Some(Player::Red);
    let blue = Some(Player::Blue);
    let cells = vec![
        red, None, blue, None, //
        None, red, blue, red, //
        None, None, None, None,
    ];
    let field = Field::from_cells(4, 3, 2, cells).unwrap();
    assert_eq!(field.get(0, 0), Some(red));
    assert_eq!(field.get(0, 2), Some(blue));
    assert_eq!(field.get(1, 3), Some(red));
    assert_eq!(field.get(1, 0), Some(None));
    assert_eq!(field.get(2, 3), Some(None));
    assert_eq!(field.get(3, 0), None);
    assert_eq!(field.get(0, 4), None);
}

#[test]
fn from_cells_wants_one_cell_for_each_place() {
    assert!(Field::from_cells(4, 3, 2, vec![None; 12]).is_some());
    assert!(Field::from_cells(4, 3, 2, vec![None; 11]).is_none());
    assert!(Field::from_cells(4, 3, 2, vec![None; 13]).is_none());
    assert!(Field::from_cells(0, 3, 2, Vec::new()).is_some());
    assert!(Field::from_cells(usize::MAX, 2, 2, Vec::new()).is_none());
}

#[test]
fn with_size_refuses_more_cells_than_can_be_counted() {
    assert!(Field::with_size(usize::MAX, 2, 4).is_none());
    assert!(Field::with_size(2, usize::MAX, 4).is_none());
    let field = Field::with_size(3, 2, 4).unwrap();
    assert_eq!(field.cells(), [None; 6]);
    assert_eq!((field.width(), field.height(), field.x_row()), (3, 2, 4));
}

#[test]
fn win_check_reads_rows_then_columns_then_diagonals() {
    let red = Some(Player::Red);
    let blue = Some(Player::Blue);
    // Blue has two in the bottom row, Red two in the left column: the row
    // is scanned first.
    let cells = vec![
        red, blue, blue, //
        red, None, None, //
        None, None, None,
    ];
    let field = Field::from_cells(3, 3, 2, cells).unwrap();
    assert_eq!(field.win_check(), Some(Player::Blue));
    // Red has two in a column, Blue two on a diagonal: the column decides.
    let cells = vec![
        blue, red, None, //
        None, red, None, //
        None, None, blue,
    ];
    let field = Field::from_cells(3, 3, 2, cells).unwrap();
    assert_eq!(field.win_check(), Some(Player::Red));
}

#[test]
fn win_check_on_diagonals() {
    let red = Some(Player::Red);
    let blue = Some(Player::Blue);
    let rising = vec![
        red, blue, red, //
        blue, red, blue, //
        blue, red, red,
    ];
    let field = Field::from_cells(3, 3, 3, rising).unwrap();
    assert_eq!(field.win_check(), Some(Player::Red));
    let falling = vec![
        red, red, blue, //
        red, blue, red, //
        blue, red, blue,
    ];
    let field = Field::from_cells(3, 3, 3, falling).unwrap();
    assert_eq!(field.win_check(), Some(Player::Blue));
}

#[test]
fn win_check_ignores_runs_that_are_too_short() {
    let red = Some(Player::Red);
    let cells = vec![
        red, red, red, None, None, //
        None, None, None, None, None,
    ];
    let field = Field::from_cells(5, 2, 4, cells).unwrap();
    assert_eq!(field.win_check(), None);
}

#[test]
fn win_check_passes_over_a_line_with_equal_runs() {
    let red = Some(Player::Red);
    let blue = Some(Player::Blue);
    // Both players have a run of two in the only row: the row names nobody,
    // and no column is long enough.
    let cells = vec![red, red, blue, blue];
    let field = Field::from_cells(4, 1, 2, cells).unwrap();
    assert_eq!(field.win_check(), None);
}
