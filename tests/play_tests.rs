use connect_four::board::{Board, Cell, MoveResult};
use connect_four::play::{legal_columns, monte_carlo, score_result, Tally, NUM_GAMES};

#[test]
fn illegal_column_is_not_judged() {
    let mut board = Board::new();
    board.make_moves(&vec![1, 1, 1, 1, 1, 1]);
    assert_eq!(monte_carlo(&board, Cell::X, 1), None);
    assert_eq!(monte_carlo(&board, Cell::X, 7), None);
    assert_eq!(monte_carlo(&board, Cell::X, 1000), None);
}

#[test]
fn winning_move_scores_every_game() {
    let mut board = Board::new();
    board.make_moves(&vec![0, 1, 0, 1, 0, 1]);
    let tally = monte_carlo(&board, Cell::X, 0).unwrap();
    assert_eq!(
        tally,
        Tally { wins: NUM_GAMES as i64, plies: NUM_GAMES as u64 }
    );
    let other = monte_carlo(&board, Cell::O, 0).unwrap();
    assert_eq!(other.wins, -(NUM_GAMES as i64));
}

#[test]
fn drawing_last_move_scores_zero() {
    let moves = vec![
        6, 4, 6, 2, 3, 0, 0, 2, 1, 6, 6, 2, 4, 6, 4, 5, 3, 6, 1, 5, 1, 3, 0, 5, 2, 1, 2, 0, 2,
        3, 5, 4, 1, 1, 4, 3, 5, 4, 3, 5, 0,
    ];
    let mut board = Board::new();
    board.make_moves(&moves);
    let tally = monte_carlo(&board, Cell::O, 0).unwrap();
    assert_eq!(tally, Tally { wins: 0, plies: NUM_GAMES as u64 });
}

#[test]
fn forced_win_scores_positive() {
    // X holds (1,0) and (2,0); dropping in column 3 leaves two open ends.
    let mut board = Board::new();
    board.make_moves(&vec![1, 1, 2, 2]);
    let mut scores: Vec<f64> = Vec::new();
    for _ in 0..50 {
        let tally = monte_carlo(&board, Cell::X, 3).unwrap();
        assert!(tally.plies >= NUM_GAMES as u64);
        scores.push(tally.wins as f64 / tally.plies as f64);
    }
    scores.sort_by(|a, b| a.partial_cmp(b).unwrap());
    assert!(scores[25] > 0.001);
}

#[test]
fn tally_bounds_on_fresh_board() {
    let board = Board::new();
    let tally = monte_carlo(&board, Cell::X, 3).unwrap();
    assert!(tally.wins.abs() <= NUM_GAMES as i64);
    assert!(tally.plies >= NUM_GAMES as u64);
    assert!(tally.plies <= (NUM_GAMES * 42) as u64);
}

#[test]
fn result_values() {
    assert_eq!(score_result(MoveResult::WinX, Cell::X), 1);
    assert_eq!(score_result(MoveResult::WinX, Cell::O), -1);
    assert_eq!(score_result(MoveResult::WinO, Cell::O), 1);
    assert_eq!(score_result(MoveResult::Draw, Cell::X), 0);
    assert_eq!(score_result(MoveResult::Ongoing, Cell::O), 0);
}

#[test]
fn legal_columns_skip_full_ones() {
    let mut board = Board::new();
    assert_eq!(legal_columns(&board), vec![0, 1, 2, 3, 4, 5, 6]);
    board.make_moves(&vec![2, 2, 2, 2, 2, 2, 5, 5, 5, 5, 5, 5]);
    assert_eq!(legal_columns(&board), vec![0, 1, 3, 4, 6]);
}
