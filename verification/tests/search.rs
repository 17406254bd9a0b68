use tic_tac_toe::Ai;
use tic_tac_toe::Board;
use tic_tac_toe::Player;
use tic_tac_toe::session::MoveOutcome;
use tic_tac_toe::session::handle_move_event;

#[test]
fn best_move_never_names_an_occupied_cell() {
    let ai = Ai::new();
    let x = Player::X;
    let o = Player::O;
    let e = Player::EMPTY;
    let b = Board::from(vec![x, o, e, e, x, e, e, e, o]);
    let cell = ai.best_move(&b);
    assert!(cell.0 < 3 && cell.1 < 3);
    assert_eq!(b.get(cell), Player::EMPTY);
}

#[test]
fn best_move_is_deterministic() {
    let ai = Ai::new();
    let mut b = Board::new();
    assert!(b.play_move((0, 2)));
    let first = ai.best_move(&b);
    let second = ai.best_move(&b);
    assert_eq!(first, second);
}

#[test]
fn immediate_win_is_taken() {
    // Two first-mover marks on the top row, its third cell empty, first
    // mover to move: the winning cell is chosen over every other branch.
    let ai = Ai::new();
    let x = Player::X;
    let o = Player::O;
    let e = Player::EMPTY;
    let b = Board::from(vec![x, x, e, o, e, e, e, o, e]);
    assert_eq!(b.player(), Player::X);
    assert_eq!(ai.best_move(&b), (0, 2));
}

#[test]
fn reply_to_center_opening_avoids_a_forced_loss() {
    let ai = Ai::new();
    let mut b = Board::new();
    assert!(b.play_move((1, 1)));
    assert_eq!(b.player(), Player::O);
    let reply = ai.best_move(&b);
    // Only a corner reply avoids a forced first-mover win; the tie-break
    // picks the first corner in row-major order.
    let corners = [(0u8, 0u8), (0, 2), (2, 0), (2, 2)];
    assert!(corners.contains(&reply));
    assert_eq!(reply, (0, 0));
    // And after the reply, the first mover indeed has no immediate win to
    // take on the next move.
    assert!(b.play_move(reply));
    let x_next = ai.best_move(&b);
    let mut probe = Board::from(b.cells.clone());
    assert!(probe.play_move(x_next));
    assert_eq!(probe.winner(), Player::EMPTY);
}

#[test]
fn block_of_an_immediate_threat() {
    // First mover threatens the top row; the second mover must block it.
    let ai = Ai::new();
    let x = Player::X;
    let o = Player::O;
    let e = Player::EMPTY;
    let b = Board::from(vec![x, x, e, e, o, e, e, e, e]);
    assert_eq!(b.player(), Player::O);
    assert_eq!(ai.best_move(&b), (0, 2));
}

#[test]
fn session_resets_a_terminal_board() {
    let ai = Ai::new();
    let x = Player::X;
    let o = Player::O;
    let e = Player::EMPTY;
    let mut b = Board::from(vec![x, x, x, o, o, e, e, e, e]);
    let outcome = handle_move_event(&ai, &mut b, (2, 2));
    assert_eq!(outcome, MoveOutcome::Cleared);
    for row in 0..3u8 {
        for col in 0..3u8 {
            assert_eq!(b.get((row, col)), Player::EMPTY);
        }
    }
}

#[test]
fn session_lets_the_search_play_the_first_mover() {
    let ai = Ai::new();
    let mut b = Board::new();
    // The first mover is to move, so the event's cell is ignored and the
    // search's choice is played.
    let outcome = handle_move_event(&ai, &mut b, (2, 2));
    match outcome {
        MoveOutcome::Placed(who, cell) => {
            assert_eq!(who, Player::X);
            assert_eq!(b.get(cell), Player::X);
        }
        _ => panic!("expected a placed mark"),
    }
}

#[test]
fn session_plays_the_chosen_cell_for_the_second_mover() {
    let ai = Ai::new();
    let mut b = Board::new();
    assert!(b.play_move((1, 1)));
    let outcome = handle_move_event(&ai, &mut b, (0, 1));
    assert_eq!(outcome, MoveOutcome::Placed(Player::O, (0, 1)));
    assert_eq!(b.get((0, 1)), Player::O);
}

#[test]
fn session_rejects_an_invalid_cell_for_the_second_mover() {
    let ai = Ai::new();
    let mut b = Board::new();
    assert!(b.play_move((1, 1)));
    let before: Vec<Player> = b.cells.clone();
    let outcome = handle_move_event(&ai, &mut b, (1, 1));
    assert_eq!(outcome, MoveOutcome::Rejected);
    assert_eq!(b.cells, before);
    let outcome2 = handle_move_event(&ai, &mut b, (7, 0));
    assert_eq!(outcome2, MoveOutcome::Rejected);
    assert_eq!(b.cells, before);
}
