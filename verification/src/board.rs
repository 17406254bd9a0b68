//! The game board: a 3x3 grid of cell marks, with pure classification of the
//! position (player to move, winner, terminal-ness) and enumeration of
//! successor positions in row-major order.

use vstd::prelude::*;
use vstd::string::StringExecFns;

verus! {

/// The occupant of one grid cell: the first mover's mark, the second mover's
/// mark, or nothing.
#[derive(Clone, Copy, Debug, PartialEq, Eq, Structural)]
pub enum Player {
    X,
    O,
    EMPTY,
}

/// A (row, column) coordinate pair, each component in 0..3 when valid.
pub type Cell = (u8, u8);

/// A 3x3 board held as nine cells in row-major order, together with the move
/// that produced it (set only on boards built by `possible_moves`).
pub struct Board {
    pub cells: Vec<Player>,
    pub latest_move: Option<Cell>,
}

impl View for Board {
    type V = Seq<Player>;

    open spec fn view(&self) -> Seq<Player> {
        self.cells@
    }
}

/// The flat row-major index of a coordinate pair.
pub open spec fn cell_index(cell: Cell) -> int {
    cell.0 * 3 + cell.1
}

/// The coordinate pair of a flat row-major index.
pub open spec fn cell_of(i: int) -> Cell {
    (((i / 3) as u8), ((i % 3) as u8))
}

/// How many of the first `n` cells hold the mark `p`.
pub open spec fn count_up_to(s: Seq<Player>, p: Player, n: int) -> int
    decreases n,
{
    if n <= 0 {
        0
    } else {
        count_up_to(s, p, n - 1) + if s[n - 1] == p {
            1int
        } else {
            0int
        }
    }
}

/// How many cells of the whole board hold the mark `p`.
pub open spec fn count(s: Seq<Player>, p: Player) -> int {
    count_up_to(s, p, s.len() as int)
}

/// Cells `a`, `b`, `c` all hold the mark `p`.
pub open spec fn line_won(s: Seq<Player>, a: int, b: int, c: int, p: Player) -> bool {
    s[a] == p && s[b] == p && s[c] == p
}

/// Some winning line (3 rows, 3 columns, 2 diagonals) is fully held by `p`.
pub open spec fn wins(s: Seq<Player>, p: Player) -> bool {
    ||| line_won(s, 0, 1, 2, p)
    ||| line_won(s, 3, 4, 5, p)
    ||| line_won(s, 6, 7, 8, p)
    ||| line_won(s, 0, 3, 6, p)
    ||| line_won(s, 1, 4, 7, p)
    ||| line_won(s, 2, 5, 8, p)
    ||| line_won(s, 0, 4, 8, p)
    ||| line_won(s, 2, 4, 6, p)
}

/// The reported winner: the first mover's mark is checked before the second
/// mover's, and `EMPTY` stands for "no winner".
pub open spec fn winner_spec(s: Seq<Player>) -> Player {
    if wins(s, Player::X) {
        Player::X
    } else if wins(s, Player::O) {
        Player::O
    } else {
        Player::EMPTY
    }
}

/// The side to move: the first mover exactly when the two mark counts agree.
pub open spec fn player_spec(s: Seq<Player>) -> Player {
    if count(s, Player::X) == count(s, Player::O) {
        Player::X
    } else {
        Player::O
    }
}

/// A position is terminal when somebody has won or no cell is left empty.
pub open spec fn terminal_spec(s: Seq<Player>) -> bool {
    winner_spec(s) != Player::EMPTY || count(s, Player::EMPTY) == 0
}

/// A move is accepted when its coordinates are on the board and the target
/// cell is empty.
pub open spec fn move_ok(s: Seq<Player>, cell: Cell) -> bool {
    cell.0 < 3 && cell.1 < 3 && s[cell_index(cell)] == Player::EMPTY
}

/// The counts reachable by alternating moves from the empty board: the first
/// mover's marks equal the second mover's, or exceed them by exactly one.
pub open spec fn balanced(s: Seq<Player>) -> bool {
    count(s, Player::X) == count(s, Player::O) || count(s, Player::X) == count(s, Player::O) + 1
}

/// The two characters that draw one cell.
pub open spec fn mark_text(p: Player) -> Seq<char> {
    match p {
        Player::X => seq!['X', ' '],
        Player::O => seq!['O', ' '],
        Player::EMPTY => seq!['*', ' '],
    }
}

/// The text of the first `n` cells: two characters per cell, a line break
/// after every third.
pub open spec fn rendered_up_to(s: Seq<Player>, n: int) -> Seq<char>
    decreases n,
{
    if n <= 0 {
        Seq::empty()
    } else {
        rendered_up_to(s, n - 1) + mark_text(s[n - 1]) + if n % 3 == 0 {
            seq!['\n']
        } else {
            Seq::<char>::empty()
        }
    }
}

/// The text of the whole board: three lines of three marks.
pub open spec fn rendered(s: Seq<Player>) -> Seq<char> {
    rendered_up_to(s, 9)
}

pub proof fn lemma_count_up_to_bounds(s: Seq<Player>, p: Player, n: int)
    requires
        0 <= n <= s.len(),
    ensures
        0 <= count_up_to(s, p, n) <= n,
    decreases n,
{
    if n > 0 {
        lemma_count_up_to_bounds(s, p, n - 1);
    }
}

pub proof fn lemma_count_up_to_update(s: Seq<Player>, i: int, m: Player, p: Player, n: int)
    requires
        0 <= i < s.len(),
        0 <= n <= s.len(),
    ensures
        count_up_to(s.update(i, m), p, n) == count_up_to(s, p, n) + if i < n {
            (if m == p {
                1int
            } else {
                0int
            }) - (if s[i] == p {
                1int
            } else {
                0int
            })
        } else {
            0int
        },
    decreases n,
{
    if n > 0 {
        lemma_count_up_to_update(s, i, m, p, n - 1);
    }
}

/// Placing the mark `m` on the empty cell `i` raises the count of `m` by one,
/// lowers the count of empty cells by one, and keeps every other count.
pub proof fn lemma_count_update(s: Seq<Player>, i: int, m: Player)
    requires
        0 <= i < s.len(),
        s[i] == Player::EMPTY,
        m != Player::EMPTY,
    ensures
        count(s.update(i, m), m) == count(s, m) + 1,
        count(s.update(i, m), Player::EMPTY) == count(s, Player::EMPTY) - 1,
        forall|q: Player| q != m && q != Player::EMPTY ==> count(s.update(i, m), q) == count(s, q),
    decreases s.len(),
{
    let n = s.len() as int;
    lemma_count_up_to_update(s, i, m, m, n);
    lemma_count_up_to_update(s, i, m, Player::EMPTY, n);
    assert forall|q: Player| q != m && q != Player::EMPTY implies count(s.update(i, m), q) == count(
        s,
        q,
    ) by {
        lemma_count_up_to_update(s, i, m, q, n);
    }
}

/// The flat indices of the empty cells among the first `n`, in increasing
/// (row-major) order.
pub open spec fn empties_up_to(s: Seq<Player>, n: int) -> Seq<int>
    decreases n,
{
    if n <= 0 {
        Seq::empty()
    } else if s[n - 1] == Player::EMPTY {
        empties_up_to(s, n - 1).push(n - 1)
    } else {
        empties_up_to(s, n - 1)
    }
}

/// The flat indices of all empty cells, in increasing (row-major) order.
pub open spec fn empties(s: Seq<Player>) -> Seq<int> {
    empties_up_to(s, s.len() as int)
}

pub proof fn lemma_empties_up_to(s: Seq<Player>, n: int)
    requires
        0 <= n <= s.len(),
    ensures
        empties_up_to(s, n).len() == count_up_to(s, Player::EMPTY, n),
        forall|k: int|
            0 <= k < empties_up_to(s, n).len() ==> 0 <= #[trigger] empties_up_to(s, n)[k] < n && s[
                empties_up_to(s, n)[k]
            ] == Player::EMPTY,
        forall|k1: int, k2: int|
            #![trigger empties_up_to(s, n)[k1], empties_up_to(s, n)[k2]]
            0 <= k1 < k2 < empties_up_to(s, n).len() ==> empties_up_to(s, n)[k1] < empties_up_to(
                s,
                n,
            )[k2],
        forall|j: int|
            0 <= j < n && s[j] == Player::EMPTY ==> exists|k: int|
                0 <= k < empties_up_to(s, n).len() && #[trigger] empties_up_to(s, n)[k] == j,
    decreases n,
{
    if n > 0 {
        lemma_empties_up_to(s, n - 1);
        let prev = empties_up_to(s, n - 1);
        let cur = empties_up_to(s, n);
        if s[n - 1] == Player::EMPTY {
            assert forall|j: int| 0 <= j < n && s[j] == Player::EMPTY implies exists|k: int|
                0 <= k < cur.len() && #[trigger] cur[k] == j by {
                if j == n - 1 {
                    assert(cur[cur.len() - 1] == j);
                } else {
                    let k = choose|k: int| 0 <= k < prev.len() && #[trigger] prev[k] == j;
                    assert(cur[k] == j);
                }
            }
        }
    }
}

/// Law: the successor enumeration order. The empty-cell indices form a
/// strictly increasing sequence: exactly one entry per empty cell, scanned
/// row 0 left-to-right, then row 1, then row 2.
pub proof fn lemma_empties_props(s: Seq<Player>)
    requires
        s.len() == 9,
    ensures
        empties(s).len() == count(s, Player::EMPTY),
        forall|k: int|
            0 <= k < empties(s).len() ==> 0 <= #[trigger] empties(s)[k] < 9 && s[empties(s)[k]]
                == Player::EMPTY,
        forall|k1: int, k2: int|
            #![trigger empties(s)[k1], empties(s)[k2]]
            0 <= k1 < k2 < empties(s).len() ==> empties(s)[k1] < empties(s)[k2],
        forall|j: int|
            0 <= j < 9 && s[j] == Player::EMPTY ==> exists|k: int|
                0 <= k < empties(s).len() && #[trigger] empties(s)[k] == j,
{
    lemma_empties_up_to(s, 9);
}

/// Law: on any board reachable by alternating moves (balanced mark counts),
/// a successful move flips the side to move.
pub proof fn lemma_player_alternates(s: Seq<Player>, cell: Cell)
    requires
        s.len() == 9,
        balanced(s),
        move_ok(s, cell),
    ensures
        player_spec(s.update(cell_index(cell), player_spec(s))) == (if player_spec(s) == Player::X {
            Player::O
        } else {
            Player::X
        }),
{
    lemma_count_update(s, cell_index(cell), player_spec(s));
}

/// Law: a successful move keeps the board reachable: the balanced-count
/// invariant of boards built by alternating moves is preserved, so the
/// alternation law applies again to the next move.
pub proof fn lemma_balanced_preserved(s: Seq<Player>, cell: Cell)
    requires
        s.len() == 9,
        balanced(s),
        move_ok(s, cell),
    ensures
        balanced(s.update(cell_index(cell), player_spec(s))),
{
    lemma_count_update(s, cell_index(cell), player_spec(s));
}

/// Law: the all-empty board has no winner.
pub proof fn lemma_empty_board_no_winner(s: Seq<Player>)
    requires
        s.len() == 9,
        forall|i: int| 0 <= i < 9 ==> s[i] == Player::EMPTY,
    ensures
        winner_spec(s) == Player::EMPTY,
{
}

/// Law: a board where no line is complete for either mark has no winner.
pub proof fn lemma_no_line_no_winner(s: Seq<Player>)
    requires
        s.len() == 9,
        !wins(s, Player::X),
        !wins(s, Player::O),
    ensures
        winner_spec(s) == Player::EMPTY,
{
}

/// Law: a complete line of one mark makes that mark the winner, except on the
/// malformed boards where both marks hold complete lines at once, which report
/// the first mover and are unreachable through `play_move`.
pub proof fn lemma_complete_line_wins(s: Seq<Player>, p: Player)
    requires
        s.len() == 9,
        p != Player::EMPTY,
        wins(s, p),
        p == Player::O ==> !wins(s, Player::X),
    ensures
        winner_spec(s) == p,
{
}

/// Law: a position is terminal exactly when the winner is not `EMPTY` or no
/// empty cell remains.
pub proof fn lemma_terminal_iff(s: Seq<Player>)
    ensures
        terminal_spec(s) <==> (winner_spec(s) != Player::EMPTY || count(s, Player::EMPTY) == 0),
{
}

impl Board {
    /// Nine cells, row-major.
    pub open spec fn wf(&self) -> bool {
        self@.len() == 9
    }

    /// The all-empty starting board.
    pub fn new() -> (r: Board)
        ensures
            r.wf(),
            forall|i: int| 0 <= i < 9 ==> r@[i] == Player::EMPTY,
            r.latest_move is None,
    {
        Board { cells: vec![Player::EMPTY;9], latest_move: None }
    }

    /// A board built from nine given cells in row-major order.
    pub fn from(cells: Vec<Player>) -> (r: Board)
        requires
            cells@.len() == 9,
        ensures
            r.wf(),
            r@ == cells@,
            r.latest_move is None,
    {
        Board { cells, latest_move: None }
    }

    /// The mark at the given coordinates.
    pub fn get(&self, cell: Cell) -> (r: Player)
        requires
            self.wf(),
            cell.0 < 3,
            cell.1 < 3,
        ensures
            r == self@[cell_index(cell)],
    {
        self.cells[(cell.0 as usize) * 3 + (cell.1 as usize)]
    }

    fn count_marks(&self, p: Player) -> (r: usize)
        requires
            self.wf(),
        ensures
            r == count(self@, p),
    {
        let mut n: usize = 0;
        let mut i: usize = 0;
        while i < 9
            invariant
                self.wf(),
                0 <= i <= 9,
                n == count_up_to(self@, p, i as int),
                n <= i,
            decreases 9 - i,
        {
            if self.cells[i] == p {
                n = n + 1;
            }
            i = i + 1;
        }
        n
    }

    /// The side to move, derived by counting marks: the first mover when the
    /// counts agree, the second mover otherwise.
    pub fn player(&self) -> (r: Player)
        requires
            self.wf(),
        ensures
            r == player_spec(self@),
    {
        let x_count = self.count_marks(Player::X);
        let o_count = self.count_marks(Player::O);
        if x_count == o_count {
            Player::X
        } else {
            Player::O
        }
    }

    fn line_held(&self, a: usize, b: usize, c: usize, p: Player) -> (r: bool)
        requires
            self.wf(),
            a < 9,
            b < 9,
            c < 9,
        ensures
            r == line_won(self@, a as int, b as int, c as int, p),
    {
        self.cells[a] == p && self.cells[b] == p && self.cells[c] == p
    }

    fn wins_for(&self, p: Player) -> (r: bool)
        requires
            self.wf(),
        ensures
            r == wins(self@, p),
    {
        self.line_held(0, 1, 2, p) || self.line_held(3, 4, 5, p) || self.line_held(6, 7, 8, p)
            || self.line_held(0, 3, 6, p) || self.line_held(1, 4, 7, p) || self.line_held(
            2,
            5,
            8,
            p,
        ) || self.line_held(0, 4, 8, p) || self.line_held(2, 4, 6, p)
    }

    /// Scans the eight winning lines, the first mover's mark before the second
    /// mover's; `EMPTY` means no line is complete.
    pub fn winner(&self) -> (r: Player)
        requires
            self.wf(),
        ensures
            r == winner_spec(self@),
    {
        if self.wins_for(Player::X) {
            Player::X
        } else if self.wins_for(Player::O) {
            Player::O
        } else {
            Player::EMPTY
        }
    }

    /// Whether the position is over: a winner exists or no cell is empty.
    pub fn terminal(&self) -> (r: bool)
        requires
            self.wf(),
        ensures
            r == terminal_spec(self@),
    {
        if !(self.winner() == Player::EMPTY) {
            return true;
        }
        self.count_marks(Player::EMPTY) == 0
    }

    /// Places the current player's mark at the given coordinates. Returns
    /// false, and changes nothing, when the coordinates are off the board or
    /// the cell is occupied.
    pub fn play_move(&mut self, cell: Cell) -> (r: bool)
        requires
            old(self).wf(),
        ensures
            final(self).wf(),
            r == move_ok(old(self)@, cell),
            r ==> final(self)@ == old(self)@.update(cell_index(cell), player_spec(old(self)@)),
            !r ==> final(self)@ == old(self)@,
            final(self).latest_move == old(self).latest_move,
    {
        if cell.0 > 2 || cell.1 > 2 {
            return false;
        }
        let idx: usize = (cell.0 as usize) * 3 + (cell.1 as usize);
        if !(self.cells[idx] == Player::EMPTY) {
            return false;
        }
        let p = self.player();
        self.cells[idx] = p;
        true
    }

    /// For every empty cell, in row-major scan order, a fresh copy of this
    /// board with that one cell set to `player`'s mark, tagged with the
    /// coordinate that was filled.
    pub fn possible_moves(&self, player: Player) -> (r: Vec<Board>)
        requires
            self.wf(),
        ensures
            r@.len() == count(self@, Player::EMPTY),
            forall|k: int|
                0 <= k < r@.len() ==> (#[trigger] r@[k]).wf() && r@[k]@ == self@.update(
                    empties(self@)[k],
                    player,
                ) && r@[k].latest_move == Some(cell_of(empties(self@)[k])),
    {
        let mut moves: Vec<Board> = Vec::new();
        let mut i: usize = 0;
        while i < 9
            invariant
                self.wf(),
                0 <= i <= 9,
                moves@.len() == empties_up_to(self@, i as int).len(),
                forall|k: int|
                    0 <= k < moves@.len() ==> (#[trigger] moves@[k]).wf() && moves@[k]@
                        == self@.update(empties_up_to(self@, i as int)[k], player) && moves@[
                        k
                    ].latest_move == Some(cell_of(empties_up_to(self@, i as int)[k])),
            decreases 9 - i,
        {
            if self.cells[i] == Player::EMPTY {
                let mut child_cells: Vec<Player> = Vec::new();
                let mut j: usize = 0;
                while j < 9
                    invariant
                        self.wf(),
                        i < 9,
                        0 <= j <= 9,
                        child_cells@.len() == j,
                        forall|t: int|
                            0 <= t < j ==> #[trigger] child_cells@[t] == (if t == i {
                                player
                            } else {
                                self@[t]
                            }),
                    decreases 9 - j,
                {
                    if j == i {
                        child_cells.push(player);
                    } else {
                        child_cells.push(self.cells[j]);
                    }
                    j = j + 1;
                }
                let row: u8 = (i / 3) as u8;
                let col: u8 = (i % 3) as u8;
                let child = Board { cells: child_cells, latest_move: Some((row, col)) };
                proof {
                    assert(child@ =~= self@.update(i as int, player));
                }
                moves.push(child);
            }
            i = i + 1;
        }
        proof {
            lemma_empties_up_to(self@, 9);
        }
        moves
    }

    /// The board drawn as text, row by row: `X`, `O` or `*` per cell, each
    /// followed by a space, and a line break after each row.
    pub fn render(&self) -> (r: String)
        requires
            self.wf(),
        ensures
            r@ == rendered(self@),
    {
        let mut buf = String::new();
        let mut i: usize = 0;
        while i < 9
            invariant
                self.wf(),
                0 <= i <= 9,
                buf@ == rendered_up_to(self@, i as int),
            decreases 9 - i,
        {
            let piece = match self.cells[i] {
                Player::X => "X ",
                Player::O => "O ",
                Player::EMPTY => "* ",
            };
            buf.append(piece);
            proof {
                reveal_strlit("X ");
                reveal_strlit("O ");
                reveal_strlit("* ");
                assert(buf@ =~= rendered_up_to(self@, i as int) + mark_text(self@[i as int]));
            }
            if i % 3 == 2 {
                buf.append("\n");
                proof {
                    reveal_strlit("\n");
                }
            }
            proof {
                assert(buf@ =~= rendered_up_to(self@, i as int + 1));
            }
            i = i + 1;
        }
        buf
    }

    /// Sets every cell back to empty.
    pub fn reset(&mut self)
        requires
            old(self).wf(),
        ensures
            final(self).wf(),
            forall|i: int| 0 <= i < 9 ==> final(self)@[i] == Player::EMPTY,
            final(self).latest_move == old(self).latest_move,
    {
        self.cells = vec![Player::EMPTY;9];
    }
}

} // verus!
