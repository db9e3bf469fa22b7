use vstd::prelude::*;
use crate::board::Board;
use crate::grid::Mark;

verus! {

/// How a position ends for the machine, from worst to best.
#[derive(Copy, Clone, PartialEq, Eq, Debug, Structural)]
pub enum Outcome {
    Loss,
    Draw,
    Win,
}

impl Outcome {
    /// The place of an outcome in the order `Loss < Draw < Win`.
    pub open spec fn rank(self) -> int {
        match self {
            Outcome::Loss => 0,
            Outcome::Draw => 1,
            Outcome::Win => 2,
        }
    }

    /// The greater of two outcomes.
    pub open spec fn better(self, other: Outcome) -> Outcome {
        if self.rank() >= other.rank() {
            self
        } else {
            other
        }
    }

    /// The smaller of two outcomes.
    pub open spec fn worse(self, other: Outcome) -> Outcome {
        if self.rank() <= other.rank() {
            self
        } else {
            other
        }
    }

    /// The place of an outcome in the order `Loss < Draw < Win`.
    pub fn score(self) -> (r: u8)
        ensures
            r == self.rank(),
    {
        match self {
            Outcome::Loss => 0,
            Outcome::Draw => 1,
            Outcome::Win => 2,
        }
    }

    /// The greater of two outcomes.
    pub fn max_with(self, other: Outcome) -> (r: Outcome)
        ensures
            r == self.better(other),
    {
        if self.score() >= other.score() {
            self
        } else {
            other
        }
    }

    /// The smaller of two outcomes.
    pub fn min_with(self, other: Outcome) -> (r: Outcome)
        ensures
            r == self.worse(other),
    {
        if self.score() <= other.score() {
            self
        } else {
            other
        }
    }
}

/// The number of empty cells.
pub open spec fn empty_count(cells: Seq<Option<Mark>>) -> nat
    decreases cells.len(),
{
    if cells.len() == 0 {
        0
    } else {
        let rest = empty_count(cells.drop_last());
        if cells.last() is None {
            rest + 1
        } else {
            rest
        }
    }
}

/// Marking an empty cell leaves one empty cell fewer.
pub proof fn lemma_mark_fills(cells: Seq<Option<Mark>>, i: int, m: Mark)
    requires
        0 <= i < cells.len(),
        cells[i] is None,
    ensures
        empty_count(cells.update(i, Some(m))) + 1 == empty_count(cells),
    decreases cells.len(),
{
    let marked = cells.update(i, Some(m));
    if i == cells.len() - 1 {
        assert(marked.drop_last() =~= cells.drop_last());
    } else {
        lemma_mark_fills(cells.drop_last(), i, m);
        assert(marked.drop_last() =~= cells.drop_last().update(i, Some(m)));
    }
}

/// Where no cell is empty the count is zero, and the other way round.
proof fn lemma_empty_count_zero(cells: Seq<Option<Mark>>)
    ensures
        empty_count(cells) == 0 <==> forall|i: int|
            0 <= i < cells.len() ==> (#[trigger] cells[i]) is Some,
    decreases cells.len(),
{
    if cells.len() > 0 {
        let front = cells.drop_last();
        lemma_empty_count_zero(front);
        if empty_count(cells) == 0 {
            assert forall|i: int| 0 <= i < cells.len() implies (#[trigger] cells[i]) is Some by {
                if i < cells.len() - 1 {
                    assert(front[i] is Some);
                }
            }
        }
        if forall|i: int| 0 <= i < cells.len() ==> (#[trigger] cells[i]) is Some {
            assert forall|i: int| 0 <= i < front.len() implies (#[trigger] front[i]) is Some by {
                assert(cells[i] is Some);
            }
            assert(cells.last() is Some);
        }
    }
}

/// The board is full exactly when it has no empty cell to count.
pub proof fn lemma_full_counts_zero(b: Board)
    ensures
        b.is_full() <==> empty_count(b.cells) == 0,
{
    lemma_empty_count_zero(b.cells);
}

/// On a fresh board every cell counts as empty.
pub proof fn lemma_fresh_board_count(side: nat)
    ensures
        empty_count(Board::empty(side).cells) == side * side,
{
    lemma_all_empty_count(Board::empty(side).cells);
}

proof fn lemma_all_empty_count(cells: Seq<Option<Mark>>)
    requires
        forall|i: int| 0 <= i < cells.len() ==> (#[trigger] cells[i]) is None,
    ensures
        empty_count(cells) == cells.len(),
    decreases cells.len(),
{
    if cells.len() > 0 {
        lemma_all_empty_count(cells.drop_last());
    }
}

/// How a finished game ends for the side `machine`: a filled line decides,
/// a full board without one is a draw, and anything else is not finished.
pub open spec fn classify(b: Board, machine: Mark) -> Option<Outcome> {
    match b.winner() {
        Some(w) => if w == machine {
            Some(Outcome::Win)
        } else {
            Some(Outcome::Loss)
        },
        None => if b.is_full() {
            Some(Outcome::Draw)
        } else {
            None
        },
    }
}

/// The mark that moves: the machine's own where it is the machine's turn,
/// the other one where it is not.
pub open spec fn mover(machine: Mark, machines_turn: bool) -> Mark {
    if machines_turn {
        machine
    } else {
        machine.other()
    }
}

/// What the machine gets from position `b` when both sides play as well
/// as they can: the outcome of a finished game, else the best that the side
/// to move finds among its moves, the greatest for the machine and the
/// smallest for its opponent.
pub open spec fn value(b: Board, machine: Mark, machines_turn: bool) -> Outcome
    decreases empty_count(b.cells), b.cells.len() + 1,
{
    match classify(b, machine) {
        Some(o) => o,
        None => best_reply(b, machine, machines_turn, b.cells.len() as int),
    }
}

/// The best that the side to move finds among its moves to the empty cells
/// of index below `n`: `Loss` for the machine and `Win` for its opponent
/// where there is no such move.
pub open spec fn best_reply(b: Board, machine: Mark, machines_turn: bool, n: int) -> Outcome
    decreases empty_count(b.cells), n,
{
    if n <= 0 || n > b.cells.len() {
        if machines_turn {
            Outcome::Loss
        } else {
            Outcome::Win
        }
    } else {
        let rest = best_reply(b, machine, machines_turn, n - 1);
        if b.cells[n - 1] is None {
            proof {
                lemma_mark_fills(b.cells, n - 1, mover(machine, machines_turn));
            }
            let reply = value(
                b.place(n - 1, mover(machine, machines_turn)),
                machine,
                !machines_turn,
            );
            if machines_turn {
                rest.better(reply)
            } else {
                rest.worse(reply)
            }
        } else {
            rest
        }
    }
}

/// What the machine gets by marking cell `i` of `b`, its opponent moving next.
pub open spec fn reply_value(b: Board, machine: Mark, i: int) -> Outcome {
    value(b.place(i, machine), machine, false)
}

/// Cell `i` is the move that the machine makes in position `b`: the first
/// empty cell, by index, among those whose value is greatest; or, where
/// every move loses, the last empty cell.
pub open spec fn selects(b: Board, machine: Mark, i: int) -> bool {
    let top = best_reply(b, machine, true, b.cells.len() as int);
    &&& 0 <= i < b.cells.len()
    &&& b.cells[i] is None
    &&& if top != Outcome::Loss {
        &&& reply_value(b, machine, i) == top
        &&& forall|j: int|
            0 <= j < i && b.cells[j] is None ==> #[trigger] reply_value(b, machine, j) != top
    } else {
        forall|j: int| i < j < b.cells.len() ==> (#[trigger] b.cells[j]) is Some
    }
}

/// The cell that the machine marks in position `b`.
pub open spec fn selected(b: Board, machine: Mark) -> int {
    choose|i: int| selects(b, machine, i)
}

/// Looking at more moves cannot make the best one worse for the side that
/// moves.
pub proof fn lemma_best_reply_monotone(
    b: Board,
    machine: Mark,
    machines_turn: bool,
    n: int,
    m: int,
)
    requires
        0 <= n <= m <= b.cells.len(),
    ensures
        machines_turn ==> best_reply(b, machine, true, n).rank() <= best_reply(
            b,
            machine,
            true,
            m,
        ).rank(),
        !machines_turn ==> best_reply(b, machine, false, n).rank() >= best_reply(
            b,
            machine,
            false,
            m,
        ).rank(),
    decreases m - n,
{
    if n < m {
        lemma_best_reply_monotone(b, machine, machines_turn, n, m - 1);
    }
}

/// The best reply among the first `n` cells is at least as good for the
/// side that moves as each of the moves it was taken from.
pub proof fn lemma_best_reply_bounds(b: Board, machine: Mark, n: int, i: int)
    requires
        0 <= i < n <= b.cells.len(),
        b.cells[i] is None,
    ensures
        reply_value(b, machine, i).rank() <= best_reply(b, machine, true, n).rank(),
    decreases n,
{
    if i < n - 1 {
        lemma_best_reply_bounds(b, machine, n - 1, i);
    }
}

/// Where the best reply among the first `n` cells is better than a loss,
/// one of those moves has that value.
pub proof fn lemma_best_reply_reached(b: Board, machine: Mark, n: int) -> (i: int)
    requires
        0 <= n <= b.cells.len(),
        best_reply(b, machine, true, n) != Outcome::Loss,
    ensures
        0 <= i < n,
        b.cells[i] is None,
        reply_value(b, machine, i) == best_reply(b, machine, true, n),
        forall|j: int|
            0 <= j < i && b.cells[j] is None ==> (#[trigger] reply_value(b, machine, j)).rank()
                < best_reply(b, machine, true, n).rank(),
    decreases n,
{
    let rest = best_reply(b, machine, true, n - 1);
    let top = best_reply(b, machine, true, n);
    if b.cells[n - 1] is None && reply_value(b, machine, n - 1).rank() > rest.rank() {
        assert forall|j: int| 0 <= j < n - 1 && b.cells[j] is None implies (#[trigger] reply_value(
            b,
            machine,
            j,
        )).rank() < top.rank() by {
            lemma_best_reply_bounds(b, machine, n - 1, j);
        }
        n - 1
    } else {
        assert(top == rest);
        lemma_best_reply_reached(b, machine, n - 1)
    }
}

/// At most one cell is the machine's move.
pub proof fn lemma_selects_unique(b: Board, machine: Mark, i: int, j: int)
    requires
        selects(b, machine, i),
        selects(b, machine, j),
    ensures
        i == j,
{
    let top = best_reply(b, machine, true, b.cells.len() as int);
    if top != Outcome::Loss {
        if i < j {
            assert(reply_value(b, machine, i) != top);
        } else if j < i {
            assert(reply_value(b, machine, j) != top);
        }
    } else {
        if i < j {
            assert(b.cells[j] is Some);
        } else if j < i {
            assert(b.cells[i] is Some);
        }
    }
}

/// The last empty cell among the first `n`, where there is one.
pub proof fn lemma_last_empty(cells: Seq<Option<Mark>>, n: int) -> (i: int)
    requires
        0 <= n <= cells.len(),
        exists|k: int| 0 <= k < n && (#[trigger] cells[k]) is None,
    ensures
        0 <= i < n,
        cells[i] is None,
        forall|j: int| i < j < n ==> (#[trigger] cells[j]) is Some,
    decreases n,
{
    if cells[n - 1] is None {
        n - 1
    } else {
        let k = choose|k: int| 0 <= k < n && (#[trigger] cells[k]) is None;
        assert(0 <= k < n - 1 && cells[k] is None);
        lemma_last_empty(cells, n - 1)
    }
}

/// On a board with an empty cell the machine has exactly one move, and it
/// is a legal one.
pub proof fn lemma_selected_exists(b: Board, machine: Mark)
    requires
        !b.is_full(),
    ensures
        selects(b, machine, selected(b, machine)),
        0 <= selected(b, machine) < b.cells.len(),
        b.cells[selected(b, machine)] is None,
{
    let n = b.cells.len() as int;
    let top = best_reply(b, machine, true, n);
    if top != Outcome::Loss {
        let i = lemma_best_reply_reached(b, machine, n);
        assert(selects(b, machine, i));
    } else {
        let k = choose|k: int| 0 <= k < n && !((#[trigger] b.cells[k]) is Some);
        assert(b.cells[k] is None);
        let i = lemma_last_empty(b.cells, n);
        assert(selects(b, machine, i));
    }
}

/// The machine's move is as good as any other: no legal move has a greater
/// value. So it never picks a move that lets its opponent force a win
/// where a move exists that does not.
pub proof fn lemma_selected_is_optimal(b: Board, machine: Mark, j: int)
    requires
        !b.is_full(),
        0 <= j < b.cells.len(),
        b.cells[j] is None,
    ensures
        reply_value(b, machine, j).rank() <= reply_value(b, machine, selected(b, machine)).rank(),
        reply_value(b, machine, j) != Outcome::Loss ==> reply_value(
            b,
            machine,
            selected(b, machine),
        ) != Outcome::Loss,
{
    let n = b.cells.len() as int;
    lemma_selected_exists(b, machine);
    lemma_best_reply_bounds(b, machine, n, j);
}

/// The machine's move keeps what the position is worth: where the game is
/// not over, the position after the move has the value of the position
/// before it.
pub proof fn lemma_selected_attains_value(b: Board, machine: Mark)
    requires
        classify(b, machine) is None,
    ensures
        reply_value(b, machine, selected(b, machine)) == value(b, machine, true),
{
    let n = b.cells.len() as int;
    lemma_selected_exists(b, machine);
    lemma_best_reply_bounds(b, machine, n, selected(b, machine));
}

} // verus!
