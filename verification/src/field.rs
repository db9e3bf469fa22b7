use vstd::prelude::*;
use crate::board::{
    Board, lemma_cell_index, lemma_empty_board, lemma_first_column_winner_keeps,
    lemma_first_row_winner_keeps, lemma_index_join, lemma_index_split, lemma_uniform_antidiagonal,
    lemma_uniform_column, lemma_uniform_diagonal, lemma_uniform_row,
};
pub use crate::grid::Mark;

verus! {

/// A square board, stored column by column: `data[x][y]` is the cell in
/// column `x` of row `y`.
#[derive(Debug)]
pub struct Field {
    data: Vec<Vec<Option<Mark>>>,
}

impl View for Field {
    type V = Board;

    closed spec fn view(&self) -> Board {
        let side = self.data@.len();
        Board {
            side,
            cells: Seq::new(
                side * side,
                |i: int| self.data@[i % (side as int)]@[i / (side as int)],
            ),
        }
    }
}

impl Field {
    /// The side is at least two and every column has as many cells as
    /// there are columns.
    pub closed spec fn wf(&self) -> bool {
        &&& self.data@.len() >= 2
        &&& forall|x: int|
            0 <= x < self.data@.len() ==> (#[trigger] self.data@[x])@.len() == self.data@.len()
    }

    /// A well-formed field has a well-formed board.
    pub proof fn lemma_wf(&self)
        requires
            self.wf(),
        ensures
            self@.wf(),
    {
    }

    /// The board's cell in column `x` of row `y` is the stored one.
    proof fn lemma_at(&self, x: int, y: int)
        requires
            self.wf(),
            0 <= x < self.data@.len(),
            0 <= y < self.data@.len(),
        ensures
            self@.at(x, y) == self.data@[x]@[y],
            0 <= y * self.data@.len() + x < self@.cells.len(),
    {
        let side = self.data@.len() as int;
        lemma_cell_index(side, x, y);
        lemma_index_join(side, x, y);
    }

    /// An empty field of `side_length` columns and as many rows.
    pub fn new(side_length: usize) -> (f: Field)
        requires
            side_length >= 2,
        ensures
            f.wf(),
            f@ == Board::empty(side_length as nat),
            !f@.is_full(),
    {
        let mut data: Vec<Vec<Option<Mark>>> = Vec::new();
        let mut x: usize = 0;
        while x < side_length
            invariant
                x <= side_length,
                data@.len() == x,
                forall|i: int|
                    0 <= i < x ==> (#[trigger] data@[i])@.len() == side_length && forall|j: int|
                        0 <= j < side_length ==> (#[trigger] data@[i]@[j]) is None,
            decreases side_length - x,
        {
            let column: Vec<Option<Mark>> = vec![None; side_length];
            data.push(column);
            x += 1;
        }
        let f = Field { data };
        proof {
            let side = side_length as int;
            lemma_empty_board(side_length as nat);
            assert forall|i: int| 0 <= i < side * side implies (#[trigger] f@.cells[i]) is None by {
                lemma_index_split(side, i);
            }
            assert(f@.cells =~= Board::empty(side_length as nat).cells);
        }
        f
    }

    /// The number of columns, which is the number of rows.
    pub fn get_size(&self) -> (n: usize)
        ensures
            n == self@.side,
    {
        self.data.len()
    }

    /// What the cell in column `x` of row `y` holds.
    pub fn get_at(&self, x: usize, y: usize) -> (c: Option<Mark>)
        requires
            self.wf(),
            x < self@.side,
            y < self@.side,
        ensures
            c == self@.at(x as int, y as int),
    {
        proof {
            self.lemma_at(x as int, y as int);
        }
        self.data[x][y]
    }

    /// Marks the cell in column `x` of row `y` if it is empty; otherwise
    /// reports the mark that it holds and changes nothing.
    pub fn set_at(&mut self, x: usize, y: usize, what: Mark) -> (r: Result<(), Mark>)
        requires
            old(self).wf(),
            x < old(self)@.side,
            y < old(self)@.side,
        ensures
            final(self).wf(),
            match old(self)@.at(x as int, y as int) {
                Some(m) => r == Err::<(), Mark>(m) && final(self)@ == old(self)@,
                None => r == Ok::<(), Mark>(()) && final(self)@ == old(self)@.place(
                    y * old(self)@.side + x,
                    what,
                ),
            },
    {
        proof {
            self.lemma_at(x as int, y as int);
        }
        match self.data[x][y] {
            Some(side) => Err(side),
            None => {
                self.put(x, y, Some(what));
                Ok(())
            },
        }
    }

    /// Empties the cell in column `x` of row `y`, whatever it held.
    pub fn unset_at(&mut self, x: usize, y: usize)
        requires
            old(self).wf(),
            x < old(self)@.side,
            y < old(self)@.side,
        ensures
            final(self).wf(),
            final(self)@ == old(self)@.erase(y * old(self)@.side + x),
    {
        self.put(x, y, None);
    }

    /// Stores `c` in column `x` of row `y`.
    fn put(&mut self, x: usize, y: usize, c: Option<Mark>)
        requires
            old(self).wf(),
            x < old(self)@.side,
            y < old(self)@.side,
        ensures
            final(self).wf(),
            final(self)@.side == old(self)@.side,
            final(self)@.cells == old(self)@.cells.update(y * old(self)@.side + x, c),
    {
        self.data[x][y] = c;
        proof {
            let side = self.data@.len() as int;
            let ind = y * side + x;
            lemma_cell_index(side, x as int, y as int);
            lemma_index_join(side, x as int, y as int);
            assert forall|i: int| 0 <= i < side * side implies #[trigger] self@.cells[i] == old(
                self,
            )@.cells.update(ind, c)[i] by {
                lemma_index_split(side, i);
            }
        }
    }

    /// Empties every cell.
    pub fn clear(&mut self)
        requires
            old(self).wf(),
        ensures
            final(self).wf(),
            final(self)@ == Board::empty(old(self)@.side),
    {
        let side = self.data.len();
        let mut x: usize = 0;
        while x < side
            invariant
                self.wf(),
                side == self.data@.len(),
                x <= side,
                forall|i: int, j: int|
                    0 <= i < x && 0 <= j < side ==> (#[trigger] self.data@[i]@[j]) is None,
            decreases side - x,
        {
            let mut y: usize = 0;
            while y < side
                invariant
                    self.wf(),
                    side == self.data@.len(),
                    x < side,
                    y <= side,
                    forall|i: int, j: int|
                        0 <= i < x && 0 <= j < side ==> (#[trigger] self.data@[i]@[j]) is None,
                    forall|j: int| 0 <= j < y ==> (#[trigger] self.data@[x as int]@[j]) is None,
                decreases side - y,
            {
                self.data[x][y] = None;
                y += 1;
            }
            x += 1;
        }
        proof {
            let n = side as int;
            assert forall|i: int| 0 <= i < n * n implies (#[trigger] self@.cells[i]) is None by {
                lemma_index_split(n, i);
            }
            assert(self@.cells =~= Board::empty(side as nat).cells);
        }
    }

    /// Whether every cell holds a mark.
    pub fn is_full(&self) -> (full: bool)
        requires
            self.wf(),
        ensures
            full == self@.is_full(),
    {
        let side = self.data.len();
        let mut x: usize = 0;
        while x < side
            invariant
                self.wf(),
                side == self.data@.len(),
                x <= side,
                forall|i: int, j: int|
                    0 <= i < x && 0 <= j < side ==> (#[trigger] self.data@[i]@[j]) is Some,
            decreases side - x,
        {
            let mut y: usize = 0;
            while y < side
                invariant
                    self.wf(),
                    side == self.data@.len(),
                    x < side,
                    y <= side,
                    forall|j: int| 0 <= j < y ==> (#[trigger] self.data@[x as int]@[j]) is Some,
                decreases side - y,
            {
                if self.data[x][y].is_none() {
                    proof {
                        self.lemma_at(x as int, y as int);
                    }
                    return false;
                }
                y += 1;
            }
            x += 1;
        }
        proof {
            let n = side as int;
            assert forall|i: int| 0 <= i < n * n implies (#[trigger] self@.cells[i]) is Some by {
                lemma_index_split(n, i);
            }
        }
        true
    }
}

fn get_col_winner(f: &Field, col_ind: usize) -> (w: Option<Mark>)
    requires
        f.wf(),
        col_ind < f@.side,
    ensures
        w == f@.column_winner(col_ind as int),
{
    let ghost b = f@;
    let ghost x = col_ind as int;
    let side = f.data.len();
    let col = &f.data[col_ind];
    let first = col[0];
    proof {
        f.lemma_at(x, 0);
    }
    let mut y: usize = 1;
    while y < side
        invariant
            f.wf(),
            b == f@,
            x == col_ind,
            side == f.data@.len(),
            col_ind < side,
            col@ == f.data@[x]@,
            1 <= y <= side,
            forall|k: int| 0 <= k < y ==> #[trigger] b.at(x, k) == first,
        decreases side - y,
    {
        proof {
            f.lemma_at(x, y as int);
        }
        if col[y] != first {
            assert(b.at(x, y as int) != b.at(x, 0));
            return None;
        }
        y += 1;
    }
    proof {
        lemma_uniform_column(b, x, first);
    }
    first
}

fn get_row_winner(f: &Field, row_ind: usize) -> (w: Option<Mark>)
    requires
        f.wf(),
        row_ind < f@.side,
    ensures
        w == f@.row_winner(row_ind as int),
{
    let ghost b = f@;
    let ghost y = row_ind as int;
    let first = f.data[0][row_ind];
    proof {
        f.lemma_at(0, y);
    }
    let mut col_ind: usize = 1;
    while col_ind < f.get_size()
        invariant
            f.wf(),
            b == f@,
            y == row_ind,
            row_ind < f.data@.len(),
            1 <= col_ind <= f.data@.len(),
            forall|k: int| 0 <= k < col_ind ==> #[trigger] b.at(k, y) == first,
        decreases f.data@.len() - col_ind,
    {
        proof {
            f.lemma_at(col_ind as int, y);
        }
        if f.data[col_ind][row_ind] != first {
            assert(b.at(col_ind as int, y) != b.at(0, y));
            return None;
        }
        col_ind += 1;
    }
    proof {
        lemma_uniform_row(b, y, first);
    }
    first
}

fn get_inc_diag_winner(f: &Field) -> (w: Option<Mark>)
    requires
        f.wf(),
    ensures
        w == f@.diagonal_winner(),
{
    let ghost b = f@;
    let first = f.data[0][0];
    proof {
        f.lemma_at(0, 0);
    }
    let mut i: usize = 1;
    while i < f.get_size()
        invariant
            f.wf(),
            b == f@,
            1 <= i <= f.data@.len(),
            forall|k: int| 0 <= k < i ==> #[trigger] b.at(k, k) == first,
        decreases f.data@.len() - i,
    {
        proof {
            f.lemma_at(i as int, i as int);
        }
        if f.data[i][i] != first {
            assert(b.at(i as int, i as int) != b.at(0, 0));
            return None;
        }
        i += 1;
    }
    proof {
        lemma_uniform_diagonal(b, first);
    }
    first
}

fn get_mix_diag_winner(f: &Field) -> (w: Option<Mark>)
    requires
        f.wf(),
    ensures
        w == f@.antidiagonal_winner(),
{
    let ghost b = f@;
    let last_ind = f.get_size() - 1;
    let first = f.data[0][last_ind];
    proof {
        f.lemma_at(0, last_ind as int);
    }
    let mut i: usize = 1;
    while i < f.get_size()
        invariant
            f.wf(),
            b == f@,
            last_ind == f.data@.len() - 1,
            1 <= i <= f.data@.len(),
            forall|k: int| last_ind - i < k <= last_ind ==> #[trigger] b.antidiagonal_cell(k) == first,
        decreases f.data@.len() - i,
    {
        proof {
            f.lemma_at(i as int, last_ind - i);
        }
        if f.data[i][last_ind - i] != first {
            assert(b.antidiagonal_cell(last_ind - i) != b.antidiagonal_cell(last_ind as int));
            return None;
        }
        i += 1;
    }
    proof {
        lemma_uniform_antidiagonal(b, first);
    }
    first
}

/// The mark that fills a column, a row or one of the two diagonals, if any
/// does. Columns are looked at first, from the left, then rows, from the
/// top, then the diagonal from the top left corner, then the other one.
pub fn get_winner(f: &Field) -> (w: Option<Mark>)
    requires
        f.wf(),
    ensures
        w == f@.winner(),
{
    let mut col_ind: usize = 0;
    while col_ind < f.get_size()
        invariant
            f.wf(),
            col_ind <= f@.side,
            f@.first_column_winner(col_ind as int) is None,
        decreases f@.side - col_ind,
    {
        if let Some(w) = get_col_winner(f, col_ind) {
            proof {
                lemma_first_column_winner_keeps(f@, col_ind + 1, f@.side as int);
            }
            return Some(w);
        }
        col_ind += 1;
    }
    let mut row_ind: usize = 0;
    while row_ind < f.get_size()
        invariant
            f.wf(),
            row_ind <= f@.side,
            f@.first_column_winner(f@.side as int) is None,
            f@.first_row_winner(row_ind as int) is None,
        decreases f@.side - row_ind,
    {
        if let Some(w) = get_row_winner(f, row_ind) {
            proof {
                lemma_first_row_winner_keeps(f@, row_ind + 1, f@.side as int);
            }
            return Some(w);
        }
        row_ind += 1;
    }
    if let Some(w) = get_inc_diag_winner(f) {
        return Some(w);
    }
    if let Some(w) = get_mix_diag_winner(f) {
        return Some(w);
    }
    None
}

} // verus!
