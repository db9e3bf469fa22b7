use vstd::prelude::*;
use vstd::arithmetic::div_mod::{
    lemma_div_pos_is_pos, lemma_fundamental_div_mod, lemma_fundamental_div_mod_converse,
    lemma_mod_bound,
};
use crate::grid::Mark;

verus! {

/// The first of two optional marks that is present.
pub open spec fn first_of(a: Option<Mark>, b: Option<Mark>) -> Option<Mark> {
    if a is Some {
        a
    } else {
        b
    }
}

/// The mathematical model of a square board: its side length and its cells,
/// row by row, so that the cell in column `x` of row `y` has index
/// `y * side + x`.
pub struct Board {
    pub side: nat,
    pub cells: Seq<Option<Mark>>,
}

impl Board {
    /// The side is at least two and there is one cell per position.
    pub open spec fn wf(self) -> bool {
        &&& self.side >= 2
        &&& self.cells.len() == self.side * self.side
    }

    /// The board of the given side on which no cell is marked.
    pub open spec fn empty(side: nat) -> Board {
        Board { side, cells: Seq::new(side * side, |i: int| None::<Mark>) }
    }

    /// The cell in column `x` of row `y`.
    pub open spec fn at(self, x: int, y: int) -> Option<Mark> {
        self.cells[y * self.side + x]
    }

    /// The board with mark `m` in cell `i`.
    pub open spec fn place(self, i: int, m: Mark) -> Board {
        Board { side: self.side, cells: self.cells.update(i, Some(m)) }
    }

    /// The board with cell `i` emptied.
    pub open spec fn erase(self, i: int) -> Board {
        Board { side: self.side, cells: self.cells.update(i, None) }
    }

    /// Every cell holds a mark.
    pub open spec fn is_full(self) -> bool {
        forall|i: int| 0 <= i < self.cells.len() ==> (#[trigger] self.cells[i]) is Some
    }

    /// The `k`-th cell of the diagonal that runs from the top right corner
    /// to the bottom left one.
    pub open spec fn antidiagonal_cell(self, k: int) -> Option<Mark> {
        self.at(self.side - 1 - k, k)
    }

    /// Every cell of column `x` holds `m`.
    pub open spec fn column_owned(self, x: int, m: Mark) -> bool {
        forall|y: int| 0 <= y < self.side ==> #[trigger] self.at(x, y) == Some(m)
    }

    /// Every cell of row `y` holds `m`.
    pub open spec fn row_owned(self, y: int, m: Mark) -> bool {
        forall|x: int| 0 <= x < self.side ==> #[trigger] self.at(x, y) == Some(m)
    }

    /// Every cell of the diagonal from the top left corner holds `m`.
    pub open spec fn diagonal_owned(self, m: Mark) -> bool {
        forall|k: int| 0 <= k < self.side ==> #[trigger] self.at(k, k) == Some(m)
    }

    /// Every cell of the diagonal from the top right corner holds `m`.
    pub open spec fn antidiagonal_owned(self, m: Mark) -> bool {
        forall|k: int| 0 <= k < self.side ==> #[trigger] self.antidiagonal_cell(k) == Some(m)
    }

    /// The mark that fills column `x`, if one does.
    pub open spec fn column_winner(self, x: int) -> Option<Mark> {
        if self.column_owned(x, Mark::Cross) {
            Some(Mark::Cross)
        } else if self.column_owned(x, Mark::Nought) {
            Some(Mark::Nought)
        } else {
            None
        }
    }

    /// The mark that fills row `y`, if one does.
    pub open spec fn row_winner(self, y: int) -> Option<Mark> {
        if self.row_owned(y, Mark::Cross) {
            Some(Mark::Cross)
        } else if self.row_owned(y, Mark::Nought) {
            Some(Mark::Nought)
        } else {
            None
        }
    }

    /// The mark that fills the diagonal from the top left corner, if one does.
    pub open spec fn diagonal_winner(self) -> Option<Mark> {
        if self.diagonal_owned(Mark::Cross) {
            Some(Mark::Cross)
        } else if self.diagonal_owned(Mark::Nought) {
            Some(Mark::Nought)
        } else {
            None
        }
    }

    /// The mark that fills the diagonal from the top right corner, if one does.
    pub open spec fn antidiagonal_winner(self) -> Option<Mark> {
        if self.antidiagonal_owned(Mark::Cross) {
            Some(Mark::Cross)
        } else if self.antidiagonal_owned(Mark::Nought) {
            Some(Mark::Nought)
        } else {
            None
        }
    }

    /// The winner of the leftmost filled column among the first `n` columns.
    pub open spec fn first_column_winner(self, n: int) -> Option<Mark>
        decreases n,
    {
        if n <= 0 {
            None
        } else {
            first_of(self.first_column_winner(n - 1), self.column_winner(n - 1))
        }
    }

    /// The winner of the topmost filled row among the first `n` rows.
    pub open spec fn first_row_winner(self, n: int) -> Option<Mark>
        decreases n,
    {
        if n <= 0 {
            None
        } else {
            first_of(self.first_row_winner(n - 1), self.row_winner(n - 1))
        }
    }

    /// The mark that fills a line. Columns are looked at first, from the
    /// left, then rows, from the top, then the two diagonals; the first
    /// filled line decides.
    pub open spec fn winner(self) -> Option<Mark> {
        first_of(
            self.first_column_winner(self.side as int),
            first_of(
                self.first_row_winner(self.side as int),
                first_of(self.diagonal_winner(), self.antidiagonal_winner()),
            ),
        )
    }

    /// Mark `m` fills at least one column, row or diagonal.
    pub open spec fn has_line(self, m: Mark) -> bool {
        ||| exists|x: int| 0 <= x < self.side && #[trigger] self.column_owned(x, m)
        ||| exists|y: int| 0 <= y < self.side && #[trigger] self.row_owned(y, m)
        ||| self.diagonal_owned(m)
        ||| self.antidiagonal_owned(m)
    }
}

/// A mark put on an empty cell and taken off again leaves the board as it
/// was.
pub proof fn lemma_trial_move_undone(b: Board, i: int, m: Mark)
    requires
        0 <= i < b.cells.len(),
        b.cells[i] is None,
    ensures
        b.place(i, m).erase(i) == b,
{
    assert(b.place(i, m).erase(i).cells =~= b.cells);
}

/// The index of the cell in column `x` of row `y` lies on the board.
pub proof fn lemma_cell_index(side: int, x: int, y: int)
    requires
        0 <= x < side,
        0 <= y < side,
    ensures
        0 <= y * side + x < side * side,
{
    assert((y + 1) * side <= side * side) by (nonlinear_arith)
        requires
            0 <= y + 1 <= side,
    ;
    assert((y + 1) * side == y * side + side) by (nonlinear_arith);
    assert(0 <= y * side) by (nonlinear_arith)
        requires
            0 <= y,
            0 <= side,
    ;
}

/// An index on the board splits into a row and a column of the board.
pub proof fn lemma_index_split(side: int, i: int)
    requires
        0 < side,
        0 <= i < side * side,
    ensures
        0 <= i % side < side,
        0 <= i / side < side,
        i == (i / side) * side + i % side,
{
    lemma_mod_bound(i, side);
    lemma_div_pos_is_pos(i, side);
    lemma_fundamental_div_mod(i, side);
    let q = i / side;
    let r = i % side;
    assert(i == q * side + r) by (nonlinear_arith)
        requires
            i == side * q + r,
    ;
    assert(q < side) by (nonlinear_arith)
        requires
            q * side + r < side * side,
            0 <= r,
            0 < side,
    ;
}

/// The index of the cell in column `x` of row `y` splits into `y` and `x`.
pub proof fn lemma_index_join(side: int, x: int, y: int)
    requires
        0 <= x < side,
        0 <= y < side,
    ensures
        (y * side + x) % side == x,
        (y * side + x) / side == y,
{
    lemma_fundamental_div_mod_converse(y * side + x, side, y, x);
}

/// A board without marks is well formed, has no winner and, all its cells
/// being empty, is not full.
pub proof fn lemma_empty_board(side: nat)
    requires
        side >= 2,
    ensures
        Board::empty(side).wf(),
        !Board::empty(side).is_full(),
        Board::empty(side).winner() is None,
        forall|i: int| 0 <= i < side * side ==> (#[trigger] Board::empty(side).cells[i]) is None,
{
    let b = Board::empty(side);
    assert(side * side >= 4) by (nonlinear_arith)
        requires
            side >= 2,
    ;
    assert(b.cells[0] is None);
    lemma_winner_fills_a_line(b);
    assert(!b.has_line(Mark::Cross)) by {
        lemma_empty_has_no_line(side, Mark::Cross);
    }
    assert(!b.has_line(Mark::Nought)) by {
        lemma_empty_has_no_line(side, Mark::Nought);
    }
}

/// Among the first `n` columns none is filled exactly when the scan over
/// them finds no winner, and a winner found fills one of them.
pub proof fn lemma_first_column_winner(b: Board, n: int)
    requires
        0 <= n,
    ensures
        b.first_column_winner(n) is None <==> forall|x: int|
            0 <= x < n ==> (#[trigger] b.column_winner(x)) is None,
        forall|m: Mark|
            b.first_column_winner(n) == Some(m) ==> exists|x: int|
                0 <= x < n && #[trigger] b.column_owned(x, m),
    decreases n,
{
    if n > 0 {
        lemma_first_column_winner(b, n - 1);
        if b.first_column_winner(n - 1) is Some {
            let w = choose|x: int| 0 <= x < n - 1 && (#[trigger] b.column_winner(x)) is Some;
            assert forall|m: Mark| b.first_column_winner(n) == Some(m) implies exists|x: int|
                0 <= x < n && #[trigger] b.column_owned(x, m) by {
                let x = choose|x: int| 0 <= x < n - 1 && #[trigger] b.column_owned(x, m);
                assert(b.column_owned(x, m));
            }
        } else if b.column_winner(n - 1) is Some {
            assert forall|m: Mark| b.first_column_winner(n) == Some(m) implies exists|x: int|
                0 <= x < n && #[trigger] b.column_owned(x, m) by {
                assert(b.column_owned(n - 1, m));
            }
        }
    }
}

/// Among the first `n` rows none is filled exactly when the scan over them
/// finds no winner, and a winner found fills one of them.
pub proof fn lemma_first_row_winner(b: Board, n: int)
    requires
        0 <= n,
    ensures
        b.first_row_winner(n) is None <==> forall|y: int|
            0 <= y < n ==> (#[trigger] b.row_winner(y)) is None,
        forall|m: Mark|
            b.first_row_winner(n) == Some(m) ==> exists|y: int|
                0 <= y < n && #[trigger] b.row_owned(y, m),
    decreases n,
{
    if n > 0 {
        lemma_first_row_winner(b, n - 1);
        if b.first_row_winner(n - 1) is Some {
            let w = choose|y: int| 0 <= y < n - 1 && (#[trigger] b.row_winner(y)) is Some;
            assert forall|m: Mark| b.first_row_winner(n) == Some(m) implies exists|y: int|
                0 <= y < n && #[trigger] b.row_owned(y, m) by {
                let y = choose|y: int| 0 <= y < n - 1 && #[trigger] b.row_owned(y, m);
                assert(b.row_owned(y, m));
            }
        } else if b.row_winner(n - 1) is Some {
            assert forall|m: Mark| b.first_row_winner(n) == Some(m) implies exists|y: int|
                0 <= y < n && #[trigger] b.row_owned(y, m) by {
                assert(b.row_owned(n - 1, m));
            }
        }
    }
}

/// A column whose cells all hold the same thing is won by the mark they
/// hold, and by nobody if they are empty.
pub proof fn lemma_uniform_column(b: Board, x: int, c: Option<Mark>)
    requires
        b.side >= 1,
        forall|k: int| 0 <= k < b.side ==> #[trigger] b.at(x, k) == c,
    ensures
        b.column_winner(x) == c,
{
    assert(b.at(x, 0) == c);
}

/// A row whose cells all hold the same thing is won by the mark they hold,
/// and by nobody if they are empty.
pub proof fn lemma_uniform_row(b: Board, y: int, c: Option<Mark>)
    requires
        b.side >= 1,
        forall|k: int| 0 <= k < b.side ==> #[trigger] b.at(k, y) == c,
    ensures
        b.row_winner(y) == c,
{
    assert(b.at(0, y) == c);
}

/// If the cells of the diagonal from the top left corner all hold the same
/// thing, it is won by the mark they hold, and by nobody if they are empty.
pub proof fn lemma_uniform_diagonal(b: Board, c: Option<Mark>)
    requires
        b.side >= 1,
        forall|k: int| 0 <= k < b.side ==> #[trigger] b.at(k, k) == c,
    ensures
        b.diagonal_winner() == c,
{
    assert(b.at(0, 0) == c);
}

/// If the cells of the diagonal from the top right corner all hold the same
/// thing, it is won by the mark they hold, and by nobody if they are empty.
pub proof fn lemma_uniform_antidiagonal(b: Board, c: Option<Mark>)
    requires
        b.side >= 1,
        forall|k: int| 0 <= k < b.side ==> #[trigger] b.antidiagonal_cell(k) == c,
    ensures
        b.antidiagonal_winner() == c,
{
    assert(b.antidiagonal_cell(0) == c);
}

/// A winner found among the first `n` columns is still the one found among
/// the first `m`, for `m` beyond `n`.
pub proof fn lemma_first_column_winner_keeps(b: Board, n: int, m: int)
    requires
        0 <= n <= m,
        b.first_column_winner(n) is Some,
    ensures
        b.first_column_winner(m) == b.first_column_winner(n),
    decreases m - n,
{
    if n < m {
        lemma_first_column_winner_keeps(b, n, m - 1);
    }
}

/// A winner found among the first `n` rows is still the one found among the
/// first `m`, for `m` beyond `n`.
pub proof fn lemma_first_row_winner_keeps(b: Board, n: int, m: int)
    requires
        0 <= n <= m,
        b.first_row_winner(n) is Some,
    ensures
        b.first_row_winner(m) == b.first_row_winner(n),
    decreases m - n,
{
    if n < m {
        lemma_first_row_winner_keeps(b, n, m - 1);
    }
}

/// The winner is a mark that fills a line; there is none exactly when no
/// line is filled; and where only one of the two marks fills a line, that
/// mark is the winner.
pub proof fn lemma_winner_fills_a_line(b: Board)
    requires
        b.wf(),
    ensures
        b.winner() is None <==> !b.has_line(Mark::Cross) && !b.has_line(Mark::Nought),
        forall|m: Mark| b.winner() == Some(m) ==> b.has_line(m),
        forall|m: Mark| b.has_line(m) && !b.has_line(m.other()) ==> b.winner() == Some(m),
{
    let n = b.side as int;
    lemma_first_column_winner(b, n);
    lemma_first_row_winner(b, n);
    assert forall|m: Mark| b.has_line(m) implies b.winner() is Some by {
        if exists|x: int| 0 <= x < b.side && #[trigger] b.column_owned(x, m) {
            let x = choose|x: int| 0 <= x < b.side && #[trigger] b.column_owned(x, m);
            assert(b.column_winner(x) is Some);
        } else if exists|y: int| 0 <= y < b.side && #[trigger] b.row_owned(y, m) {
            let y = choose|y: int| 0 <= y < b.side && #[trigger] b.row_owned(y, m);
            assert(b.row_winner(y) is Some);
        }
    }
    assert forall|m: Mark| b.has_line(m) && !b.has_line(m.other()) implies b.winner() == Some(
        m,
    ) by {
        let w = b.winner()->0;
        assert(b.has_line(w));
    }
}

proof fn lemma_empty_has_no_line(side: nat, m: Mark)
    requires
        side >= 2,
    ensures
        !Board::empty(side).has_line(m),
{
    let b = Board::empty(side);
    assert forall|x: int| 0 <= x < side implies !#[trigger] b.column_owned(x, m) by {
        lemma_cell_index(side as int, x, 0);
        assert(b.at(x, 0) is None);
    }
    assert forall|y: int| 0 <= y < side implies !#[trigger] b.row_owned(y, m) by {
        lemma_cell_index(side as int, 0, y);
        assert(b.at(0, y) is None);
    }
    lemma_cell_index(side as int, 0, 0);
    assert(b.at(0, 0) is None);
    lemma_cell_index(side as int, side - 1, 0);
    assert(b.antidiagonal_cell(0) is None);
}

} // verus!
