use vstd::prelude::*;
use crate::board::{
    Board, lemma_cell_index, lemma_empty_board, lemma_first_column_winner_keeps,
    lemma_first_row_winner_keeps, lemma_uniform_antidiagonal, lemma_uniform_column,
    lemma_uniform_diagonal, lemma_uniform_row,
};

verus! {

/// One of the two players' symbols.
#[derive(Copy, Clone, PartialEq, Eq, Debug, Structural)]
pub enum Mark {
    Cross,
    Nought,
}

impl Mark {
    /// The mark of the other player.
    pub open spec fn other(self) -> Mark {
        match self {
            Mark::Cross => Mark::Nought,
            Mark::Nought => Mark::Cross,
        }
    }

    /// The mark of the other player.
    pub fn opponent(self) -> (m: Mark)
        ensures
            m == self.other(),
    {
        match self {
            Mark::Cross => Mark::Nought,
            Mark::Nought => Mark::Cross,
        }
    }
}

/// A square board, stored as one flat sequence of cells, row by row.
#[derive(Debug)]
pub struct Grid {
    side_length: usize,
    data: Vec<Option<Mark>>,
}

impl View for Grid {
    type V = Board;

    closed spec fn view(&self) -> Board {
        Board { side: self.side_length as nat, cells: self.data@ }
    }
}

impl Grid {
    /// The side is at least two and there is one cell per position.
    pub open spec fn wf(&self) -> bool {
        self@.wf()
    }

    /// An empty board of `side_length` rows and as many columns.
    pub fn new(side_length: usize) -> (g: Grid)
        requires
            side_length >= 2,
            side_length * side_length <= usize::MAX,
        ensures
            g.wf(),
            g@ == Board::empty(side_length as nat),
            !g@.is_full(),
    {
        let g = Grid { side_length, data: vec![None; side_length * side_length] };
        proof {
            lemma_empty_board(side_length as nat);
            assert(g@.cells =~= Board::empty(side_length as nat).cells);
        }
        g
    }

    /// The number of cells.
    pub fn get_size(&self) -> (n: usize)
        ensures
            n == self@.cells.len(),
    {
        self.data.len()
    }

    /// The number of rows, which is the number of columns.
    pub fn get_side_length(&self) -> (n: usize)
        ensures
            n == self@.side,
    {
        self.side_length
    }

    /// What the cell of index `ind` holds.
    pub fn get_at_ind(&self, ind: usize) -> (c: Option<Mark>)
        requires
            ind < self@.cells.len(),
        ensures
            c == self@.cells[ind as int],
    {
        self.data[ind]
    }

    /// What the cell in column `x` of row `y` holds.
    pub fn get_at_pos(&self, x: usize, y: usize) -> (c: Option<Mark>)
        requires
            self.wf(),
            x < self@.side,
            y < self@.side,
        ensures
            c == self@.at(x as int, y as int),
    {
        proof {
            lemma_position(self, x as int, y as int);
        }
        self.get_at_ind(y * self.side_length + x)
    }

    /// Marks the cell of index `ind` if it is empty; otherwise reports the
    /// mark that it holds and changes nothing.
    pub fn set_at_ind(&mut self, ind: usize, what: Mark) -> (r: Result<(), Mark>)
        requires
            ind < old(self)@.cells.len(),
        ensures
            old(self).wf() ==> final(self).wf(),
            match old(self)@.cells[ind as int] {
                Some(m) => r == Err::<(), Mark>(m) && final(self)@ == old(self)@,
                None => r == Ok::<(), Mark>(()) && final(self)@ == old(self)@.place(
                    ind as int,
                    what,
                ),
            },
    {
        match self.data[ind] {
            Some(side) => Err(side),
            None => {
                self.data.set(ind, Some(what));
                Ok(())
            },
        }
    }

    /// Marks the cell in column `x` of row `y` if it is empty; otherwise
    /// reports the mark that it holds and changes nothing.
    pub fn set_at_pos(&mut self, x: usize, y: usize, what: Mark) -> (r: Result<(), Mark>)
        requires
            old(self).wf(),
            x < old(self)@.side,
            y < old(self)@.side,
        ensures
            final(self).wf(),
            match old(self)@.at(x as int, y as int) {
                Some(m) => r == Err::<(), Mark>(m) && final(self)@ == old(self)@,
                None => r == Ok::<(), Mark>(()) && final(self)@ == old(self)@.place(
                    y * old(self)@.side + x,
                    what,
                ),
            },
    {
        proof {
            lemma_position(self, x as int, y as int);
        }
        self.set_at_ind(y * self.side_length + x, what)
    }

    /// Empties the cell of index `ind`, whatever it held.
    pub fn unset_at_ind(&mut self, ind: usize)
        requires
            ind < old(self)@.cells.len(),
        ensures
            old(self).wf() ==> final(self).wf(),
            final(self)@ == old(self)@.erase(ind as int),
    {
        self.data.set(ind, None);
    }

    /// Whether every cell holds a mark.
    pub fn is_full(&self) -> (full: bool)
        ensures
            full == self@.is_full(),
    {
        let mut i: usize = 0;
        while i < self.data.len()
            invariant
                i <= self.data.len(),
                forall|k: int| 0 <= k < i ==> (#[trigger] self.data@[k]) is Some,
            decreases self.data.len() - i,
        {
            if self.data[i].is_none() {
                return false;
            }
            i += 1;
        }
        true
    }
}

/// The cell in column `x` of row `y` is stored at an index that fits.
proof fn lemma_position(g: &Grid, x: int, y: int)
    requires
        g.wf(),
        0 <= x < g@.side,
        0 <= y < g@.side,
    ensures
        0 <= y * g.side_length <= y * g.side_length + x < g.data.len() <= usize::MAX,
        g.data@[y * g.side_length + x] == g@.at(x, y),
{
    lemma_cell_index(g.side_length as int, x, y);
    assert(0 <= y * g.side_length) by (nonlinear_arith)
        requires
            0 <= y,
            0 <= g.side_length,
    ;
}

fn get_col_winner(g: &Grid, col_ind: usize) -> (w: Option<Mark>)
    requires
        g.wf(),
        col_ind < g@.side,
    ensures
        w == g@.column_winner(col_ind as int),
{
    let ghost b = g@;
    let ghost x = col_ind as int;
    proof {
        lemma_position(g, x, 0);
    }
    let first = g.data[col_ind];
    let mut y: usize = 1;
    while y < g.side_length
        invariant
            g.wf(),
            b == g@,
            x == col_ind,
            col_ind < g.side_length,
            1 <= y <= g.side_length,
            forall|k: int| 0 <= k < y ==> #[trigger] b.at(x, k) == first,
        decreases g.side_length - y,
    {
        proof {
            lemma_position(g, x, y as int);
        }
        if g.data[y * g.side_length + col_ind] != first {
            assert(b.at(x, y as int) != b.at(x, 0));
            return None;
        }
        y += 1;
    }
    proof {
        lemma_uniform_column(b, x, first);
    }
    first
}

fn get_row_winner(g: &Grid, row_ind: usize) -> (w: Option<Mark>)
    requires
        g.wf(),
        row_ind < g@.side,
    ensures
        w == g@.row_winner(row_ind as int),
{
    let ghost b = g@;
    let ghost y = row_ind as int;
    proof {
        lemma_position(g, 0, y);
    }
    let start_ind = row_ind * g.side_length;
    let first = g.data[start_ind];
    let mut x: usize = 1;
    while x < g.side_length
        invariant
            g.wf(),
            b == g@,
            y == row_ind,
            row_ind < g.side_length,
            start_ind == row_ind * g.side_length,
            1 <= x <= g.side_length,
            forall|k: int| 0 <= k < x ==> #[trigger] b.at(k, y) == first,
        decreases g.side_length - x,
    {
        proof {
            lemma_position(g, x as int, y);
        }
        if g.data[start_ind + x] != first {
            assert(b.at(x as int, y) != b.at(0, y));
            return None;
        }
        x += 1;
    }
    proof {
        lemma_uniform_row(b, y, first);
    }
    first
}

fn get_inc_diag_winner(g: &Grid) -> (w: Option<Mark>)
    requires
        g.wf(),
    ensures
        w == g@.diagonal_winner(),
{
    let ghost b = g@;
    proof {
        lemma_position(g, 0, 0);
    }
    let first = g.data[0];
    let mut k: usize = 1;
    while k < g.side_length
        invariant
            g.wf(),
            b == g@,
            1 <= k <= g.side_length,
            forall|j: int| 0 <= j < k ==> #[trigger] b.at(j, j) == first,
        decreases g.side_length - k,
    {
        proof {
            lemma_position(g, k as int, k as int);
        }
        if g.data[k * g.side_length + k] != first {
            assert(b.at(k as int, k as int) != b.at(0, 0));
            return None;
        }
        k += 1;
    }
    proof {
        lemma_uniform_diagonal(b, first);
    }
    first
}

fn get_mix_diag_winner(g: &Grid) -> (w: Option<Mark>)
    requires
        g.wf(),
    ensures
        w == g@.antidiagonal_winner(),
{
    let ghost b = g@;
    let last_ind = g.side_length - 1;
    proof {
        lemma_position(g, last_ind as int, 0);
    }
    let first = g.data[last_ind];
    let mut k: usize = 1;
    while k < g.side_length
        invariant
            g.wf(),
            b == g@,
            last_ind == g.side_length - 1,
            1 <= k <= g.side_length,
            forall|j: int| 0 <= j < k ==> #[trigger] b.antidiagonal_cell(j) == first,
        decreases g.side_length - k,
    {
        proof {
            lemma_position(g, last_ind - k, k as int);
        }
        if g.data[k * g.side_length + (last_ind - k)] != first {
            assert(b.antidiagonal_cell(k as int) != b.antidiagonal_cell(0));
            return None;
        }
        k += 1;
    }
    proof {
        lemma_uniform_antidiagonal(b, first);
    }
    first
}

/// The mark that fills a column, a row or one of the two diagonals, if any
/// does. Columns are looked at first, from the left, then rows, from the
/// top, then the diagonal from the top left corner, then the other one.
pub fn get_winner(g: &Grid) -> (w: Option<Mark>)
    requires
        g.wf(),
    ensures
        w == g@.winner(),
{
    let mut col_ind: usize = 0;
    while col_ind < g.get_side_length()
        invariant
            g.wf(),
            col_ind <= g@.side,
            g@.first_column_winner(col_ind as int) is None,
        decreases g@.side - col_ind,
    {
        if let Some(w) = get_col_winner(g, col_ind) {
            proof {
                lemma_first_column_winner_keeps(g@, col_ind + 1, g@.side as int);
            }
            return Some(w);
        }
        col_ind += 1;
    }
    let mut row_ind: usize = 0;
    while row_ind < g.get_side_length()
        invariant
            g.wf(),
            row_ind <= g@.side,
            g@.first_column_winner(g@.side as int) is None,
            g@.first_row_winner(row_ind as int) is None,
        decreases g@.side - row_ind,
    {
        if let Some(w) = get_row_winner(g, row_ind) {
            proof {
                lemma_first_row_winner_keeps(g@, row_ind + 1, g@.side as int);
            }
            return Some(w);
        }
        row_ind += 1;
    }
    if let Some(w) = get_inc_diag_winner(g) {
        return Some(w);
    }
    if let Some(w) = get_mix_diag_winner(g) {
        return Some(w);
    }
    None
}

} // verus!
