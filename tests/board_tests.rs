use connect_four::board::{Board, Cell, MoveResult, HEIGHT, WIDTH};

#[test]
fn check_vertical_win() {
    let mut board = Board::new();

    // fill first two columns up to 3 rows high, each with the same Cell.
    assert_eq!(board.make_moves(&vec![0, 1, 0, 1, 0, 1]), MoveResult::Ongoing);
    assert_eq!(board.make_move(0), MoveResult::WinX);

    // Fill last two columns, but make O win in the upper-right corner.
    board = Board::new();

    assert_eq!(
        board.make_moves(&vec![6, 5, 6, 5, 5, 6, 5, 6, 5, 6, 4]),
        MoveResult::Ongoing
    );
    assert_eq!(board.make_move(6), MoveResult::WinO);
}

#[test]
fn fill_board_with_horizontal_wins() {
    let mut board = Board::new();

    for col in 0..WIDTH {
        for _row in 0..HEIGHT {
            let result = board.make_move(col);
            if col < 3 {
                assert_eq!(result, MoveResult::Ongoing);
            } else if (board.get_move_count() % 2) == 0 {
                assert_eq!(result, MoveResult::WinO);
            } else {
                assert_eq!(result, MoveResult::WinX);
            }
        }
    }
}

#[test]
fn fill_board_with_diagonal_wins() {
    let mut board = Board::new();

    for row in 0..HEIGHT {
        if row & 1 == 0 {
            for col in 0..WIDTH {
                let result = board.make_move(col);
                if row < 3 {
                    assert_eq!(result, MoveResult::Ongoing);
                } else if (board.get_move_count() % 2) == 0 {
                    assert_eq!(result, MoveResult::WinO);
                } else {
                    assert_eq!(result, MoveResult::WinX);
                }
            }
        } else {
            for col in (0..WIDTH).rev() {
                let result = board.make_move(col);
                if row < 3 {
                    assert_eq!(result, MoveResult::Ongoing);
                } else if (board.get_move_count() % 2) == 0 {
                    assert_eq!(result, MoveResult::WinO);
                } else {
                    assert_eq!(result, MoveResult::WinX);
                }
            }
        }
    }
}

#[test]
fn fill_row() {
    let mut board = Board::new();
    let mut cell = Cell::X;

    for col in 0..WIDTH {
        board.make_move(col);
        assert!(board.get(col, 0) == cell);
        cell = cell.switch();
    }
}

#[test]
fn fill_col() {
    let mut board = Board::new();
    let mut cell = Cell::X;

    for row in 0..HEIGHT {
        assert!(board.make_move(0) == MoveResult::Ongoing);
        assert!(board.get(0, row) == cell);
        cell = cell.switch();
    }
    assert!(board.make_move(0) == MoveResult::Illegal);
}

#[test]
fn fresh_board_every_column_legal() {
    let board = Board::new();
    for col in 0..WIDTH {
        assert!(board.is_valid_move(col));
    }
    assert!(!board.is_valid_move(WIDTH));
    assert!(!board.is_valid_move(100));
    assert_eq!(board.get_move_count(), 0);
    assert!(!board.is_full());
}

#[test]
fn illegal_move_leaves_board_unchanged() {
    let mut board = Board::new();
    board.make_moves(&vec![3, 3, 3, 3, 3, 3]);
    let before = board;
    assert_eq!(board.make_move(3), MoveResult::Illegal);
    assert_eq!(board.make_move(WIDTH), MoveResult::Illegal);
    assert!(board == before);
    assert_eq!(board.get_move_count(), 6);
}

#[test]
fn three_in_a_column_is_no_win() {
    let mut board = Board::new();
    assert_eq!(board.make_moves(&vec![2, 4, 2, 4, 2]), MoveResult::Ongoing);
    assert_eq!(board.make_move(4), MoveResult::Ongoing);
}

#[test]
fn horizontal_win_at_left_edge() {
    let mut board = Board::new();
    assert_eq!(board.make_moves(&vec![0, 0, 1, 1, 2, 2]), MoveResult::Ongoing);
    assert_eq!(board.make_move(3), MoveResult::WinX);
}

#[test]
fn horizontal_win_at_right_edge_completed_in_middle() {
    let mut board = Board::new();
    assert_eq!(board.make_moves(&vec![6, 6, 5, 5, 3, 3]), MoveResult::Ongoing);
    assert_eq!(board.make_move(4), MoveResult::WinX);
}

#[test]
fn broken_row_is_no_win() {
    let mut board = Board::new();
    assert_eq!(board.make_moves(&vec![0, 6, 1, 6, 3, 5]), MoveResult::Ongoing);
    assert_eq!(board.make_move(4), MoveResult::Ongoing);
}

#[test]
fn rising_diagonal_win() {
    let mut board = Board::new();
    // X at (0,0),(1,1),(2,2) and finally (3,3).
    let moves = vec![0, 1, 1, 2, 2, 3, 2, 3, 3, 6];
    assert_eq!(board.make_moves(&moves), MoveResult::Ongoing);
    assert_eq!(board.make_move(3), MoveResult::WinX);
}

#[test]
fn falling_diagonal_win_for_second_player() {
    let mut board = Board::new();
    // O at (6,0),(5,1),(4,2) and finally (3,3).
    let moves = vec![5, 6, 4, 5, 3, 4, 0, 4, 3, 3, 0];
    assert_eq!(board.make_moves(&moves), MoveResult::Ongoing);
    assert_eq!(board.make_move(3), MoveResult::WinO);
}

#[test]
fn full_board_without_line_is_a_draw() {
    let moves = vec![
        6, 4, 6, 2, 3, 0, 0, 2, 1, 6, 6, 2, 4, 6, 4, 5, 3, 6, 1, 5, 1, 3, 0, 5, 2, 1, 2, 0, 2,
        3, 5, 4, 1, 1, 4, 3, 5, 4, 3, 5, 0,
    ];
    let mut board = Board::new();
    assert_eq!(board.make_moves(&moves), MoveResult::Ongoing);
    assert!(!board.is_full());
    assert_eq!(board.make_move(0), MoveResult::Draw);
    assert!(board.is_full());
    assert_eq!(board.get_move_count(), WIDTH * HEIGHT);
    for col in 0..WIDTH {
        assert!(!board.is_valid_move(col));
    }
}

#[test]
fn current_player_follows_parity() {
    let mut board = Board::new();
    let moves = [3, 3, 0, 6, 1, 2, 5, 4];
    for (i, col) in moves.iter().enumerate() {
        let expected = if i % 2 == 0 { Cell::X } else { Cell::O };
        assert_eq!(board.get_current_player(), expected);
        assert_eq!(board.get_move_count(), i);
        board.make_move(*col);
    }
    assert_eq!(board.get_current_player(), Cell::X);
}

#[test]
fn cells_and_symbols() {
    assert_eq!(Cell::Empty.to_char(), '.');
    assert_eq!(Cell::X.to_char(), 'X');
    assert_eq!(Cell::O.to_char(), 'O');
    assert_eq!(Cell::Empty.switch(), Cell::Empty);
    assert_eq!(Cell::X.switch(), Cell::O);
    assert_eq!(Cell::from(MoveResult::WinX), Cell::X);
    assert_eq!(Cell::from(MoveResult::WinO), Cell::O);
    assert_eq!(Cell::from(MoveResult::Draw), Cell::Empty);
    assert_eq!(Cell::from(MoveResult::Ongoing), Cell::Empty);
}

#[test]
fn get_reads_owners() {
    let mut board = Board::new();
    board.make_moves(&vec![2, 2, 5]);
    assert_eq!(board.get(2, 0), Cell::X);
    assert_eq!(board.get(2, 1), Cell::O);
    assert_eq!(board.get(5, 0), Cell::X);
    assert_eq!(board.get(2, 2), Cell::Empty);
    assert_eq!(board.get(0, 0), Cell::Empty);
}

#[test]
fn fill_every_column_then_illegal() {
    for col in 0..WIDTH {
        let mut board = Board::new();
        for _row in 0..HEIGHT {
            assert_eq!(board.make_move(col), MoveResult::Ongoing);
        }
        assert!(!board.is_valid_move(col));
        assert_eq!(board.make_move(col), MoveResult::Illegal);
        assert_eq!(board.get_move_count(), HEIGHT);
    }
}
