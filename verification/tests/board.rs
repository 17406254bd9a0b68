use tic_tac_toe::Board;
use tic_tac_toe::Player;

#[test]
fn new_board_is_empty_with_no_winner() {
    let b = Board::new();
    for row in 0..3u8 {
        for col in 0..3u8 {
            assert_eq!(b.get((row, col)), Player::EMPTY);
        }
    }
    assert_eq!(b.winner(), Player::EMPTY);
    assert!(!b.terminal());
    assert_eq!(b.player(), Player::X);
    assert_eq!(b.latest_move, None);
}

#[test]
fn player_alternates_with_each_successful_move() {
    let mut b = Board::new();
    assert_eq!(b.player(), Player::X);
    assert!(b.play_move((0, 0)));
    assert_eq!(b.player(), Player::O);
    assert!(b.play_move((1, 1)));
    assert_eq!(b.player(), Player::X);
    assert!(b.play_move((2, 2)));
    assert_eq!(b.player(), Player::O);
}

#[test]
fn rejected_move_does_not_change_the_player() {
    let mut b = Board::new();
    assert!(b.play_move((0, 0)));
    assert!(!b.play_move((0, 0)));
    assert_eq!(b.player(), Player::O);
}

#[test]
fn out_of_range_move_is_rejected_and_board_unchanged() {
    let mut b = Board::new();
    assert!(b.play_move((0, 1)));
    let before: Vec<Player> = b.cells.clone();
    assert!(!b.play_move((5, 5)));
    assert_eq!(b.cells, before);
    assert!(!b.play_move((0, 3)));
    assert!(!b.play_move((3, 0)));
    assert_eq!(b.cells, before);
}

#[test]
fn occupied_cell_move_is_rejected_and_board_unchanged() {
    let mut b = Board::new();
    assert!(b.play_move((2, 2)));
    let before: Vec<Player> = b.cells.clone();
    assert!(!b.play_move((2, 2)));
    assert_eq!(b.cells, before);
}

#[test]
fn winner_is_empty_on_nonterminal_board_without_complete_line() {
    let x = Player::X;
    let o = Player::O;
    let e = Player::EMPTY;
    let b = Board::from(vec![x, o, e, e, x, o, o, e, x]);
    // The main diagonal is complete here, so break it for this check.
    let b2 = Board::from(vec![x, o, e, e, x, o, o, e, e]);
    assert_eq!(b2.winner(), Player::EMPTY);
    assert!(!b2.terminal());
    // And the completed diagonal really is a win, as a contrast.
    assert_eq!(b.winner(), Player::X);
}

#[test]
fn each_winning_line_is_reported_for_x() {
    let lines: [[usize; 3]; 8] = [
        [0, 1, 2],
        [3, 4, 5],
        [6, 7, 8],
        [0, 3, 6],
        [1, 4, 7],
        [2, 5, 8],
        [0, 4, 8],
        [2, 4, 6],
    ];
    for line in lines.iter() {
        let mut cells = vec![Player::EMPTY; 9];
        for &i in line.iter() {
            cells[i] = Player::X;
        }
        let b = Board::from(cells);
        assert_eq!(b.winner(), Player::X);
        assert!(b.terminal());
    }
}

#[test]
fn each_winning_line_is_reported_for_o() {
    let lines: [[usize; 3]; 8] = [
        [0, 1, 2],
        [3, 4, 5],
        [6, 7, 8],
        [0, 3, 6],
        [1, 4, 7],
        [2, 5, 8],
        [0, 4, 8],
        [2, 4, 6],
    ];
    for line in lines.iter() {
        let mut cells = vec![Player::EMPTY; 9];
        for &i in line.iter() {
            cells[i] = Player::O;
        }
        let b = Board::from(cells);
        assert_eq!(b.winner(), Player::O);
        assert!(b.terminal());
    }
}

#[test]
fn full_drawn_board_is_terminal_with_no_winner() {
    let x = Player::X;
    let o = Player::O;
    let b = Board::from(vec![x, o, x, x, o, o, o, x, x]);
    assert!(b.terminal());
    assert_eq!(b.winner(), Player::EMPTY);
}

#[test]
fn terminal_iff_winner_or_no_empty_cell() {
    let x = Player::X;
    let o = Player::O;
    let e = Player::EMPTY;
    // A winner with empty cells left: terminal.
    let won = Board::from(vec![x, x, x, o, o, e, e, e, e]);
    assert_eq!(won.winner(), Player::X);
    assert!(won.terminal());
    // No winner, empty cells left: not terminal.
    let open_board = Board::from(vec![x, o, e, e, e, e, e, e, e]);
    assert_eq!(open_board.winner(), Player::EMPTY);
    assert!(!open_board.terminal());
}

#[test]
fn successors_cover_exactly_the_empty_cells_in_row_major_order() {
    let x = Player::X;
    let o = Player::O;
    let e = Player::EMPTY;
    let b = Board::from(vec![x, e, o, e, x, e, o, e, e]);
    let moves = b.possible_moves(Player::X);
    assert_eq!(moves.len(), 5);
    let expected: [(u8, u8); 5] = [(0, 1), (1, 0), (1, 2), (2, 1), (2, 2)];
    for (child, want) in moves.iter().zip(expected.iter()) {
        assert_eq!(child.latest_move, Some(*want));
        // The tagged cell now holds the player's mark...
        assert_eq!(child.get(*want), Player::X);
        // ...and every other cell is unchanged: the child differs in one cell.
        let mut changed = 0;
        for row in 0..3u8 {
            for col in 0..3u8 {
                if child.get((row, col)) != b.get((row, col)) {
                    changed += 1;
                }
            }
        }
        assert_eq!(changed, 1);
    }
}

#[test]
fn successors_of_full_board_are_none() {
    let x = Player::X;
    let o = Player::O;
    let b = Board::from(vec![x, o, x, x, o, o, o, x, x]);
    assert_eq!(b.possible_moves(Player::X).len(), 0);
}

#[test]
fn reset_clears_every_cell() {
    let mut b = Board::new();
    assert!(b.play_move((0, 0)));
    assert!(b.play_move((1, 1)));
    b.reset();
    for row in 0..3u8 {
        for col in 0..3u8 {
            assert_eq!(b.get((row, col)), Player::EMPTY);
        }
    }
    assert_eq!(b.player(), Player::X);
}

#[test]
fn render_draws_marks_row_by_row() {
    let mut b = Board::new();
    assert!(b.play_move((0, 0)));
    assert!(b.play_move((1, 1)));
    assert_eq!(b.render(), "X * * \n* O * \n* * * \n");
}

#[test]
fn from_keeps_the_given_cells() {
    let x = Player::X;
    let o = Player::O;
    let e = Player::EMPTY;
    let b = Board::from(vec![x, o, e, e, e, e, e, e, e]);
    assert_eq!(b.get((0, 0)), Player::X);
    assert_eq!(b.get((0, 1)), Player::O);
    assert_eq!(b.get((2, 2)), Player::EMPTY);
    assert_eq!(b.latest_move, None);
}
