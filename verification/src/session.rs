//! The live game session's decision step: what one confirmed "cell chosen"
//! event does to the board, with the surrounding event loop left to the
//! caller.

use vstd::prelude::*;

use crate::ai::Ai;
use crate::ai::best_cell;
use crate::board::Board;
use crate::board::Cell;
use crate::board::Player;
use crate::board::cell_index;
use crate::board::move_ok;
use crate::board::player_spec;
use crate::board::terminal_spec;

verus! {

/// What a single event did to the live board.
#[derive(Clone, Copy, Debug, PartialEq, Eq)]
pub enum MoveOutcome {
    /// The board was terminal: it was reset to all-empty instead of moving.
    Cleared,
    /// The given player's mark was placed at the given cell.
    Placed(Player, Cell),
    /// The chosen cell was off the board or occupied: nothing changed.
    Rejected,
}

/// One confirmed "cell chosen" event against the live board. A terminal
/// board is acknowledged by resetting it. Otherwise the first mover's side is
/// played by the search and the second mover's by the given cell; an invalid
/// cell leaves the board unchanged.
pub fn handle_move_event(ai: &Ai, board: &mut Board, chosen: Cell) -> (r: MoveOutcome)
    requires
        old(board).wf(),
    ensures
        final(board).wf(),
        terminal_spec(old(board)@) ==> (r == MoveOutcome::Cleared && forall|i: int|
            0 <= i < 9 ==> final(board)@[i] == Player::EMPTY),
        (!terminal_spec(old(board)@) && player_spec(old(board)@) == Player::X) ==> (r
            == MoveOutcome::Placed(Player::X, best_cell(old(board)@)) && final(board)@ == old(
            board,
        )@.update(cell_index(best_cell(old(board)@)), Player::X)),
        (!terminal_spec(old(board)@) && player_spec(old(board)@) == Player::O && move_ok(
            old(board)@,
            chosen,
        )) ==> (r == MoveOutcome::Placed(Player::O, chosen) && final(board)@ == old(
            board,
        )@.update(cell_index(chosen), Player::O)),
        (!terminal_spec(old(board)@) && player_spec(old(board)@) == Player::O && !move_ok(
            old(board)@,
            chosen,
        )) ==> (r == MoveOutcome::Rejected && final(board)@ == old(board)@),
{
    if board.terminal() {
        board.reset();
        return MoveOutcome::Cleared;
    }
    let mover = board.player();
    let cell = if mover == Player::X {
        ai.best_move(board)
    } else {
        chosen
    };
    if board.play_move(cell) {
        MoveOutcome::Placed(mover, cell)
    } else {
        MoveOutcome::Rejected
    }
}

} // verus!
