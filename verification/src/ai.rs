//! Exhaustive adversarial search: full-depth minimax over the game tree,
//! scoring terminal boards and picking the best immediate move for the side
//! to move, with first-encountered tie-break in row-major order.

use vstd::prelude::*;

use crate::board::Board;
use crate::board::Cell;
use crate::board::Player;
use crate::board::cell_index;
use crate::board::cell_of;
use crate::board::count;
use crate::board::empties;
use crate::board::lemma_count_up_to_bounds;
use crate::board::lemma_count_update;
use crate::board::lemma_empties_props;
use crate::board::player_spec;
use crate::board::terminal_spec;
use crate::board::wins;

verus! {

/// The mark played by the maximizing side (the first mover) or by the
/// minimizing side (the second mover).
pub open spec fn mark_of(maximizing: bool) -> Player {
    if maximizing {
        Player::X
    } else {
        Player::O
    }
}

/// Zero-sum terminal score: +1 when the first mover has won, -1 when the
/// second mover has won, 0 for a draw.
pub open spec fn score(s: Seq<Player>) -> int {
    if wins(s, Player::X) {
        1int
    } else if wins(s, Player::O) {
        -1int
    } else {
        0int
    }
}

/// Every listed index lies on the board and names an empty cell.
pub open spec fn idxs_ok(s: Seq<Player>, idxs: Seq<int>) -> bool {
    forall|k: int|
        0 <= k < idxs.len() ==> 0 <= #[trigger] idxs[k] < 9 && s[idxs[k]] == Player::EMPTY
}

/// The minimax value of a position: its score when terminal, otherwise the
/// best value among the successors obtained by filling one empty cell with
/// the side to move's mark.
pub open spec fn minimax(s: Seq<Player>, maximizing: bool) -> int
    decreases count(s, Player::EMPTY), 10int,
        when s.len() == 9
{
    if terminal_spec(s) {
        score(s)
    } else {
        proof {
            lemma_empties_props(s);
            lemma_count_up_to_bounds(s, Player::EMPTY, 9);
        }
        best_val(s, empties(s), maximizing)
    }
}

/// The running best over the successors named by `idxs`: a fold that starts
/// below (above) every reachable score and takes each child's minimax value
/// when it strictly improves.
pub open spec fn best_val(s: Seq<Player>, idxs: Seq<int>, maximizing: bool) -> int
    decreases count(s, Player::EMPTY), idxs.len(),
        when s.len() == 9 && idxs_ok(s, idxs)
{
    if idxs.len() == 0 {
        if maximizing {
            -2int
        } else {
            2int
        }
    } else {
        proof {
            assert(0 <= idxs[idxs.len() - 1] < 9 && s[idxs[idxs.len() - 1]] == Player::EMPTY);
            lemma_count_update(s, idxs[idxs.len() - 1], mark_of(maximizing));
            lemma_count_up_to_bounds(
                s.update(idxs[idxs.len() - 1], mark_of(maximizing)),
                Player::EMPTY,
                9,
            );
        }
        let rest = best_val(s, idxs.drop_last(), maximizing);
        let child = minimax(s.update(idxs[idxs.len() - 1], mark_of(maximizing)), !maximizing);
        if maximizing {
            if child > rest {
                child
            } else {
                rest
            }
        } else {
            if child < rest {
                child
            } else {
                rest
            }
        }
    }
}

/// The minimax value of the successor reached by filling `idxs[k]`.
pub open spec fn child_score(s: Seq<Player>, idxs: Seq<int>, k: int, maximizing: bool) -> int {
    minimax(s.update(idxs[k], mark_of(maximizing)), !maximizing)
}

/// Strict improvement: only a strictly better score replaces the running
/// best, so the first-encountered best stands among ties.
pub open spec fn beats(a: int, b: int, maximizing: bool) -> bool {
    if maximizing {
        a > b
    } else {
        a < b
    }
}

/// The position, within `idxs`, of the first successor whose minimax value
/// equals `target`.
pub open spec fn first_best_pos(
    s: Seq<Player>,
    idxs: Seq<int>,
    maximizing: bool,
    target: int,
) -> int
    decreases idxs.len(),
{
    if idxs.len() == 0 {
        0
    } else if child_score(s, idxs, 0, maximizing) == target {
        0
    } else {
        1 + first_best_pos(s, idxs.drop_first(), maximizing, target)
    }
}

/// The search maximizes exactly when the first mover is to move.
pub open spec fn maximizing_for(s: Seq<Player>) -> bool {
    player_spec(s) == Player::X
}

/// The position, in row-major successor order, of the move the search picks.
pub open spec fn chosen_pos(s: Seq<Player>, maximizing: bool) -> int {
    first_best_pos(s, empties(s), maximizing, minimax(s, maximizing))
}

/// The flat cell index of the move the search picks.
pub open spec fn chosen_index(s: Seq<Player>, maximizing: bool) -> int {
    empties(s)[chosen_pos(s, maximizing)]
}

/// The coordinates the search picks for the side to move: the first
/// successor, in row-major order, achieving the position's minimax value.
pub open spec fn best_cell(s: Seq<Player>) -> Cell {
    cell_of(chosen_index(s, maximizing_for(s)))
}

/// Minimax values of whole positions stay within the terminal scores.
pub proof fn lemma_minimax_range(s: Seq<Player>, maximizing: bool)
    requires
        s.len() == 9,
    ensures
        -1 <= minimax(s, maximizing) <= 1,
    decreases count(s, Player::EMPTY), 10int,
{
    if !terminal_spec(s) {
        lemma_empties_props(s);
        lemma_count_up_to_bounds(s, Player::EMPTY, 9);
        lemma_best_val_range(s, empties(s), maximizing);
    }
}

/// Over at least one successor, the running best is itself a minimax value,
/// so it stays within the terminal scores.
pub proof fn lemma_best_val_range(s: Seq<Player>, idxs: Seq<int>, maximizing: bool)
    requires
        s.len() == 9,
        idxs_ok(s, idxs),
        idxs.len() > 0,
    ensures
        -1 <= best_val(s, idxs, maximizing) <= 1,
    decreases count(s, Player::EMPTY), idxs.len(),
{
    let last = idxs[idxs.len() - 1];
    assert(0 <= last < 9 && s[last] == Player::EMPTY);
    lemma_count_update(s, last, mark_of(maximizing));
    lemma_count_up_to_bounds(s.update(last, mark_of(maximizing)), Player::EMPTY, 9);
    lemma_minimax_range(s.update(last, mark_of(maximizing)), !maximizing);
    assert(idxs_ok(s, idxs.drop_last()));
    if idxs.len() > 1 {
        lemma_best_val_range(s, idxs.drop_last(), maximizing);
    } else {
        assert(best_val(s, idxs.drop_last(), maximizing) == if maximizing {
            -2int
        } else {
            2int
        });
    }
}

/// `first_best_pos` finds exactly the position whose successor scores the
/// target while every earlier successor does not.
pub proof fn lemma_first_best_pos(
    s: Seq<Player>,
    idxs: Seq<int>,
    maximizing: bool,
    target: int,
    p: int,
)
    requires
        0 <= p < idxs.len(),
        child_score(s, idxs, p, maximizing) == target,
        forall|k: int| 0 <= k < p ==> #[trigger] child_score(s, idxs, k, maximizing) != target,
    ensures
        first_best_pos(s, idxs, maximizing, target) == p,
    decreases p,
{
    if p > 0 {
        let rest = idxs.drop_first();
        assert(child_score(s, idxs, 0, maximizing) != target);
        assert forall|k: int| 0 <= k < p - 1 implies #[trigger] child_score(
            s,
            rest,
            k,
            maximizing,
        ) != target by {
            assert(rest[k] == idxs[k + 1]);
            assert(child_score(s, idxs, k + 1, maximizing) != target);
        }
        assert(rest[p - 1] == idxs[p]);
        assert(child_score(s, rest, p - 1, maximizing) == target);
        lemma_first_best_pos(s, rest, maximizing, target, p - 1);
    }
}

/// Over at least one successor, the running best is achieved by some
/// successor and not beaten by any.
pub proof fn lemma_best_val_achieved(s: Seq<Player>, idxs: Seq<int>, maximizing: bool)
    requires
        s.len() == 9,
        idxs_ok(s, idxs),
        idxs.len() > 0,
    ensures
        exists|k: int|
            0 <= k < idxs.len() && #[trigger] child_score(s, idxs, k, maximizing) == best_val(
                s,
                idxs,
                maximizing,
            ),
        forall|k: int|
            0 <= k < idxs.len() ==> !beats(
                #[trigger] child_score(s, idxs, k, maximizing),
                best_val(s, idxs, maximizing),
                maximizing,
            ),
    decreases idxs.len(),
{
    let v = best_val(s, idxs, maximizing);
    let last = idxs.len() - 1;
    let rest = idxs.drop_last();
    assert(0 <= idxs[last] < 9 && s[idxs[last]] == Player::EMPTY);
    assert(idxs_ok(s, rest));
    lemma_count_update(s, idxs[last], mark_of(maximizing));
    lemma_minimax_range(s.update(idxs[last], mark_of(maximizing)), !maximizing);
    let cl = child_score(s, idxs, last, maximizing);
    let vr = best_val(s, rest, maximizing);
    assert(v == if beats(cl, vr, maximizing) {
        cl
    } else {
        vr
    });
    assert forall|k: int| 0 <= k < idxs.len() - 1 implies #[trigger] child_score(
        s,
        rest,
        k,
        maximizing,
    ) == child_score(s, idxs, k, maximizing) by {
        assert(rest[k] == idxs[k]);
    }
    if idxs.len() == 1 {
        assert(cl == v);
        assert(child_score(s, idxs, 0, maximizing) == v);
    } else {
        lemma_best_val_achieved(s, rest, maximizing);
        if beats(cl, vr, maximizing) {
            assert(child_score(s, idxs, last, maximizing) == v);
            assert forall|k: int| 0 <= k < idxs.len() implies !beats(
                #[trigger] child_score(s, idxs, k, maximizing),
                v,
                maximizing,
            ) by {
                if k < last {
                    assert(!beats(child_score(s, rest, k, maximizing), vr, maximizing));
                }
            }
        } else {
            let k0 = choose|k: int|
                0 <= k < rest.len() && #[trigger] child_score(s, rest, k, maximizing) == vr;
            assert(child_score(s, idxs, k0, maximizing) == v);
            assert forall|k: int| 0 <= k < idxs.len() implies !beats(
                #[trigger] child_score(s, idxs, k, maximizing),
                v,
                maximizing,
            ) by {
                if k < last {
                    assert(!beats(child_score(s, rest, k, maximizing), vr, maximizing));
                }
            }
        }
    }
}

/// When some successor scores the target, `first_best_pos` names the first
/// one that does.
pub proof fn lemma_first_best_pos_finds(
    s: Seq<Player>,
    idxs: Seq<int>,
    maximizing: bool,
    target: int,
)
    requires
        exists|k: int|
            0 <= k < idxs.len() && #[trigger] child_score(s, idxs, k, maximizing) == target,
    ensures
        0 <= first_best_pos(s, idxs, maximizing, target) < idxs.len(),
        child_score(s, idxs, first_best_pos(s, idxs, maximizing, target), maximizing) == target,
        forall|k: int|
            0 <= k < first_best_pos(s, idxs, maximizing, target) ==> #[trigger] child_score(
                s,
                idxs,
                k,
                maximizing,
            ) != target,
    decreases idxs.len(),
{
    if child_score(s, idxs, 0, maximizing) == target {
    } else {
        let rest = idxs.drop_first();
        let kw = choose|k: int|
            0 <= k < idxs.len() && #[trigger] child_score(s, idxs, k, maximizing) == target;
        assert(kw > 0);
        assert(rest[kw - 1] == idxs[kw]);
        assert(child_score(s, rest, kw - 1, maximizing) == target);
        lemma_first_best_pos_finds(s, rest, maximizing, target);
        let p = first_best_pos(s, rest, maximizing, target);
        assert(first_best_pos(s, idxs, maximizing, target) == 1 + p);
        assert forall|k: int| 0 <= k < 1 + p implies #[trigger] child_score(s, idxs, k, maximizing)
            != target by {
            if k > 0 {
                assert(rest[k - 1] == idxs[k]);
                assert(child_score(s, rest, k - 1, maximizing) != target);
            }
        }
    }
}

/// Law: the search's choice is optimal. On a non-terminal position the chosen
/// successor exists, keeps the position's minimax value exactly, and no other
/// successor scores strictly better.
pub proof fn lemma_best_cell_optimal(s: Seq<Player>, maximizing: bool)
    requires
        s.len() == 9,
        !terminal_spec(s),
    ensures
        0 <= chosen_pos(s, maximizing) < empties(s).len(),
        child_score(s, empties(s), chosen_pos(s, maximizing), maximizing) == minimax(s, maximizing),
        forall|k: int|
            0 <= k < empties(s).len() ==> !beats(
                #[trigger] child_score(s, empties(s), k, maximizing),
                minimax(s, maximizing),
                maximizing,
            ),
{
    lemma_empties_props(s);
    lemma_count_up_to_bounds(s, Player::EMPTY, 9);
    lemma_best_val_achieved(s, empties(s), maximizing);
    assert(minimax(s, maximizing) == best_val(s, empties(s), maximizing));
    lemma_first_best_pos_finds(s, empties(s), maximizing, minimax(s, maximizing));
}

/// Law: playing the search's move never worsens the mover's guaranteed
/// outcome: the board reached by placing the mover's mark on `best_cell`
/// has, for the opponent, exactly the minimax value the position had. In
/// particular a side that could not be forced to lose still cannot be after
/// the chosen move.
pub proof fn lemma_best_cell_keeps_value(s: Seq<Player>)
    requires
        s.len() == 9,
        !terminal_spec(s),
    ensures
        minimax(
            s.update(cell_index(best_cell(s)), player_spec(s)),
            !maximizing_for(s),
        ) == minimax(s, maximizing_for(s)),
{
    let m = maximizing_for(s);
    lemma_best_cell_optimal(s, m);
    lemma_empties_props(s);
    let ci = chosen_index(s, m);
    assert(0 <= ci < 9);
    assert(cell_index(cell_of(ci)) == ci);
    assert(player_spec(s) == mark_of(m));
}

/// The move selector. It holds no state: the chosen move is a function of the
/// board alone.
pub struct Ai {}

impl Ai {
    pub fn new() -> Self {
        Self {  }
    }

    /// The game-optimal next move for the side to move, under the zero-sum
    /// scoring, with first-encountered tie-break in row-major order. The
    /// returned coordinates always name an empty on-board cell.
    pub fn best_move(&self, board: &Board) -> (r: Cell)
        requires
            board.wf(),
            !terminal_spec(board@),
        ensures
            r == best_cell(board@),
            r.0 < 3,
            r.1 < 3,
            board@[cell_index(r)] == Player::EMPTY,
    {
        let player = board.player();
        let maximizing_player = player == Player::X;
        let result = self.alphabeta(board, maximizing_player);
        let chosen = result.1.unwrap();
        let cell = chosen.latest_move.unwrap();
        proof {
            lemma_empties_props(board@);
            let ci = chosen_index(board@, maximizing_player);
            assert(0 <= ci < 9 && board@[ci] == Player::EMPTY);
            assert(cell_index(cell_of(ci)) == ci);
        }
        cell
    }

    /// Full-depth minimax from `node`. Returns the position's value and, for
    /// a non-terminal position, the successor carrying the chosen move; a
    /// terminal position has no move to offer.
    fn alphabeta(&self, node: &Board, maximizing_player: bool) -> (r: (i32, Option<Board>))
        requires
            node.wf(),
        ensures
            r.0 as int == minimax(node@, maximizing_player),
            terminal_spec(node@) ==> r.1 is None,
            !terminal_spec(node@) ==> (r.1 matches Some(b) && b.wf() && b@ == node@.update(
                chosen_index(node@, maximizing_player),
                mark_of(maximizing_player),
            ) && b.latest_move == Some(cell_of(chosen_index(node@, maximizing_player)))),
            !terminal_spec(node@) ==> 0 <= chosen_pos(node@, maximizing_player) < empties(
                node@,
            ).len(),
        decreases count(node@, Player::EMPTY),
    {
        if node.terminal() {
            let value: i32 = match node.winner() {
                Player::X => 1,
                Player::O => -1,
                Player::EMPTY => 0,
            };
            return (value, None);
        }
        let mark = if maximizing_player {
            Player::X
        } else {
            Player::O
        };
        let mut children = node.possible_moves(mark);
        proof {
            lemma_empties_props(node@);
            lemma_count_up_to_bounds(node@, Player::EMPTY, 9);
        }
        let ghost s = node@;
        let ghost idxs = empties(s);
        let mut value: i32 = if maximizing_player {
            -2
        } else {
            2
        };
        let mut best_i: usize = 0;
        let mut i: usize = 0;
        while i < children.len()
            invariant
                node.wf(),
                s == node@,
                idxs == empties(s),
                idxs_ok(s, idxs),
                !terminal_spec(s),
                mark == mark_of(maximizing_player),
                children@.len() == idxs.len(),
                idxs.len() == count(s, Player::EMPTY),
                0 < idxs.len() <= 9,
                forall|k: int|
                    0 <= k < children@.len() ==> (#[trigger] children@[k]).wf() && children@[k]@
                        == s.update(idxs[k], mark) && children@[k].latest_move == Some(
                        cell_of(idxs[k]),
                    ),
                0 <= i <= children@.len(),
                value as int == best_val(s, idxs.take(i as int), maximizing_player),
                -2 <= value <= 2,
                i > 0 ==> best_i < i,
                i > 0 ==> child_score(s, idxs, best_i as int, maximizing_player) == value as int,
                forall|k: int|
                    0 <= k < best_i ==> beats(
                        value as int,
                        #[trigger] child_score(s, idxs, k, maximizing_player),
                        maximizing_player,
                    ),
                forall|k: int|
                    0 <= k < i ==> !beats(
                        #[trigger] child_score(s, idxs, k, maximizing_player),
                        value as int,
                        maximizing_player,
                    ),
            decreases children@.len() - i,
        {
            proof {
                assert(0 <= idxs[i as int] < 9 && s[idxs[i as int]] == Player::EMPTY);
                lemma_count_update(s, idxs[i as int], mark);
                lemma_count_up_to_bounds(s.update(idxs[i as int], mark), Player::EMPTY, 9);
            }
            let child_result = self.alphabeta(&children[i], !maximizing_player);
            let test_value = child_result.0;
            proof {
                lemma_minimax_range(s.update(idxs[i as int], mark), !maximizing_player);
                assert(test_value as int == child_score(s, idxs, i as int, maximizing_player));
                assert(idxs_ok(s, idxs.take(i as int + 1)));
                assert(idxs.take(i as int + 1).drop_last() =~= idxs.take(i as int));
                assert(idxs.take(i as int + 1)[idxs.take(i as int + 1).len() - 1] == idxs[i as int]);
            }
            let replace = if maximizing_player {
                test_value > value
            } else {
                test_value < value
            };
            if replace {
                value = test_value;
                best_i = i;
            }
            i = i + 1;
        }
        proof {
            assert(idxs.take(i as int) =~= idxs);
            assert(minimax(s, maximizing_player) == best_val(s, empties(s), maximizing_player));
            lemma_first_best_pos(s, idxs, maximizing_player, value as int, best_i as int);
        }
        let chosen = children.swap_remove(best_i);
        (value, Some(chosen))
    }
}

} // verus!
