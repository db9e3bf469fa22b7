use vstd::prelude::*;
use crate::board::Board;
use crate::grid::{Grid, Mark};

verus! {

/// The character that shows what a cell holds.
pub open spec fn symbol_of(cell: Option<Mark>) -> char {
    match cell {
        Some(Mark::Cross) => 'X',
        Some(Mark::Nought) => 'O',
        None => ' ',
    }
}

/// The character of a decimal digit.
pub open spec fn digit_char(d: nat) -> char {
    if d == 0 {
        '0'
    } else if d == 1 {
        '1'
    } else if d == 2 {
        '2'
    } else if d == 3 {
        '3'
    } else if d == 4 {
        '4'
    } else if d == 5 {
        '5'
    } else if d == 6 {
        '6'
    } else if d == 7 {
        '7'
    } else if d == 8 {
        '8'
    } else {
        '9'
    }
}

/// A number written in decimal digits.
pub open spec fn numeral(n: nat) -> Seq<char>
    decreases n,
{
    if n < 10 {
        seq![digit_char(n)]
    } else {
        numeral(n / 10).push(digit_char(n % 10))
    }
}

/// So many blanks.
pub open spec fn blanks(n: nat) -> Seq<char> {
    Seq::new(n, |i: int| ' ')
}

/// The text in the middle of a field three characters wide, the odd blank
/// after it; a longer text as it is.
pub open spec fn centered(text: Seq<char>) -> Seq<char> {
    if text.len() >= 3 {
        text
    } else {
        let room = (3 - text.len()) as nat;
        blanks(room / 2) + text + blanks((room - room / 2) as nat)
    }
}

/// The line above the board, as far as the first `n` columns: their
/// numbers, each in its field with a blank after it.
pub open spec fn heading(n: nat) -> Seq<char>
    decreases n,
{
    if n == 0 {
        seq!['\n', ' ', ' ', ' ', ' ']
    } else {
        heading((n - 1) as nat) + centered(numeral((n - 1) as nat)) + seq![' ']
    }
}

/// The line of row `row`, as far as its first `n` cells: the row's number
/// and then the cells, each in its field with a bar after it.
pub open spec fn row_line(b: Board, row: nat, n: nat) -> Seq<char>
    decreases n,
{
    if n == 0 {
        seq!['\n'] + centered(numeral(row)) + seq!['|']
    } else {
        row_line(b, row, (n - 1) as nat) + centered(
            seq![symbol_of(b.at(n - 1, row as int))],
        ) + seq!['|']
    }
}

/// The lines of the first `n` rows.
pub open spec fn row_lines(b: Board, n: nat) -> Seq<char>
    decreases n,
{
    if n == 0 {
        Seq::empty()
    } else {
        row_lines(b, (n - 1) as nat) + row_line(b, (n - 1) as nat, b.side)
    }
}

/// The board as text: the numbers of the columns, then the rows from the
/// top, each with its number before it.
pub open spec fn picture(b: Board) -> Seq<char> {
    heading(b.side) + row_lines(b, b.side) + seq!['\n']
}

/// Calls `String::push`, which appends one character to the end of a
/// string.
#[verifier::external_body]
fn push_char(text: &mut String, c: char)
    ensures
        final(text)@ == old(text)@.push(c),
{
    text.push(c)
}

/// The character that shows what a cell holds.
pub fn symbol(cell: Option<Mark>) -> (c: char)
    ensures
        c == symbol_of(cell),
{
    match cell {
        Some(Mark::Cross) => 'X',
        Some(Mark::Nought) => 'O',
        None => ' ',
    }
}

fn digit(d: usize) -> (c: char)
    requires
        d < 10,
    ensures
        c == digit_char(d as nat),
{
    if d == 0 {
        '0'
    } else if d == 1 {
        '1'
    } else if d == 2 {
        '2'
    } else if d == 3 {
        '3'
    } else if d == 4 {
        '4'
    } else if d == 5 {
        '5'
    } else if d == 6 {
        '6'
    } else if d == 7 {
        '7'
    } else if d == 8 {
        '8'
    } else {
        '9'
    }
}

/// Appends a number in decimal digits.
fn push_numeral(out: &mut Vec<char>, n: usize)
    ensures
        final(out)@ == old(out)@ + numeral(n as nat),
    decreases n,
{
    if n >= 10 {
        push_numeral(out, n / 10);
    }
    out.push(digit(n % 10));
}

/// Appends a text in the middle of a field three characters wide.
fn push_centered(out: &mut Vec<char>, text: &Vec<char>)
    ensures
        final(out)@ == old(out)@ + centered(text@),
{
    let len = text.len();
    let room: usize = if len >= 3 {
        0
    } else {
        3 - len
    };
    let before = room / 2;
    let ghost start = out@;
    push_blanks(out, before);
    let mut i: usize = 0;
    while i < len
        invariant
            len == text@.len(),
            i <= len,
            out@ == start + blanks(before as nat) + text@.take(i as int),
        decreases len - i,
    {
        out.push(text[i]);
        i += 1;
    }
    push_blanks(out, room - before);
}

/// Appends so many blanks.
fn push_blanks(out: &mut Vec<char>, n: usize)
    ensures
        final(out)@ == old(out)@ + blanks(n as nat),
{
    let mut i: usize = 0;
    while i < n
        invariant
            i <= n,
            out@ == old(out)@ + blanks(i as nat),
        decreases n - i,
    {
        out.push(' ');
        i += 1;
    }
}

/// Appends a number in the middle of a field three characters wide.
fn push_label(out: &mut Vec<char>, n: usize)
    ensures
        final(out)@ == old(out)@ + centered(numeral(n as nat)),
{
    let mut digits: Vec<char> = Vec::new();
    push_numeral(&mut digits, n);
    push_centered(out, &digits);
}

impl Grid {
    /// The board as text, for a player to look at.
    pub fn to_text(&self) -> (text: String)
        requires
            self.wf(),
        ensures
            text@ == picture(self@),
    {
        let side = self.get_side_length();
        let mut out: Vec<char> = Vec::new();
        out.push('\n');
        push_blanks(&mut out, 4);
        let mut col: usize = 0;
        while col < side
            invariant
                col <= side,
                out@ == heading(col as nat),
            decreases side - col,
        {
            push_label(&mut out, col);
            out.push(' ');
            col += 1;
        }
        let mut row: usize = 0;
        while row < side
            invariant
                self.wf(),
                side == self@.side,
                row <= side,
                out@ == heading(side as nat) + row_lines(self@, row as nat),
            decreases side - row,
        {
            let ghost above = out@;
            out.push('\n');
            push_label(&mut out, row);
            out.push('|');
            let mut col: usize = 0;
            while col < side
                invariant
                    self.wf(),
                    side == self@.side,
                    row < side,
                    col <= side,
                    out@ == above + row_line(self@, row as nat, col as nat),
                decreases side - col,
            {
                let mut cell: Vec<char> = Vec::new();
                cell.push(symbol(self.get_at_pos(col, row)));
                push_centered(&mut out, &cell);
                out.push('|');
                col += 1;
            }
            row += 1;
        }
        out.push('\n');
        let mut text = String::new();
        let mut i: usize = 0;
        while i < out.len()
            invariant
                i <= out@.len(),
                text@ == out@.take(i as int),
            decreases out@.len() - i,
        {
            push_char(&mut text, out[i]);
            i += 1;
        }
        text
    }
}

} // verus!
