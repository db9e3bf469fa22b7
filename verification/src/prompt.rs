use vstd::prelude::*;
use crate::grid::Mark;

verus! {

/// The largest side that a game can be asked for.
pub const MAX_GRID_SIZE: usize = 50;

/// Which of the two coordinates of a cell a line of text was read for.
#[derive(Copy, Clone, PartialEq, Eq, Debug, Structural)]
pub enum Axis {
    Column,
    Row,
}

/// Why what the player typed, or asked for, cannot be used.
#[derive(Copy, Clone, PartialEq, Eq, Debug, Structural)]
pub enum InputError {
    /// The text does not start with a side length between two and the
    /// largest one.
    GridSize,
    /// The text names neither of the two marks.
    Side,
    /// The text is not a number.
    Index(Axis),
    /// The number does not name a column, or a row, of the board.
    IndexOutOfRange(Axis, usize),
    /// The cell already holds the given mark.
    Occupied(Mark),
    /// The text is neither a yes nor a no.
    Answer,
}

/// Whether `char::is_whitespace` holds of `c`.
pub uninterp spec fn white_space(c: char) -> bool;

/// Calls `char::is_whitespace`, which tells whether a character has the
/// Unicode property `White_Space`; the result depends on the character alone.
#[verifier::external_body]
fn is_white_space(c: char) -> (r: bool)
    ensures
        r == white_space(c),
{
    c.is_whitespace()
}

/// The text without the white space that it starts with.
pub open spec fn trim_start(s: Seq<char>) -> Seq<char>
    decreases s.len(),
{
    if s.len() > 0 && white_space(s[0]) {
        trim_start(s.drop_first())
    } else {
        s
    }
}

/// The text without the white space that it ends with.
pub open spec fn trim_end(s: Seq<char>) -> Seq<char>
    decreases s.len(),
{
    if s.len() > 0 && white_space(s.last()) {
        trim_end(s.drop_last())
    } else {
        s
    }
}

/// The text without the white space around it.
pub open spec fn trimmed(s: Seq<char>) -> Seq<char> {
    trim_end(trim_start(s))
}

/// One of the ten decimal digits.
pub open spec fn is_digit(c: char) -> bool {
    '0' <= c <= '9'
}

/// The number that a decimal digit stands for.
pub open spec fn digit_value(c: char) -> nat {
    (c as u32 - '0' as u32) as nat
}

/// How many decimal digits the text starts with.
pub open spec fn leading_digits(s: Seq<char>) -> nat
    decreases s.len(),
{
    if s.len() > 0 && is_digit(s[0]) {
        1 + leading_digits(s.drop_first())
    } else {
        0
    }
}

/// Every character is a decimal digit.
pub open spec fn all_digits(s: Seq<char>) -> bool {
    forall|i: int| 0 <= i < s.len() ==> is_digit(#[trigger] s[i])
}

/// The number that a text of decimal digits stands for.
pub open spec fn decimal(s: Seq<char>) -> nat
    decreases s.len(),
{
    if s.len() == 0 {
        0
    } else {
        decimal(s.drop_last()) * 10 + digit_value(s.last())
    }
}

/// The number written in the text: one or more decimal digits, with or
/// without a plus sign before them, and nothing else.
pub open spec fn number(s: Seq<char>) -> Option<nat> {
    let digits = if s.len() > 0 && s[0] == '+' {
        s.drop_first()
    } else {
        s
    };
    if digits.len() > 0 && all_digits(digits) {
        Some(decimal(digits))
    } else {
        None
    }
}

/// The side length that a line of text asks for: the number that the
/// text starts with, white space aside, where it lies between two and the
/// largest side.
pub open spec fn grid_size_of(line: Seq<char>) -> Result<usize, InputError> {
    let text = trimmed(line);
    let digits = text.take(leading_digits(text) as int);
    if digits.len() > 0 && 2 <= decimal(digits) <= MAX_GRID_SIZE {
        Ok(decimal(digits) as usize)
    } else {
        Err(InputError::GridSize)
    }
}

/// The mark that the machine plays when the player has chosen by a line
/// of text: the one that the player did not name.
pub open spec fn ai_side_of(line: Seq<char>) -> Result<Mark, InputError> {
    let text = trimmed(line);
    if text == seq!['X'] || text == seq!['x'] {
        Ok(Mark::Nought)
    } else if text == seq!['O'] || text == seq!['o'] {
        Ok(Mark::Cross)
    } else {
        Err(InputError::Side)
    }
}

/// The column or row that a line of text names on a board of the given
/// side: the number written in it, white space aside, where it is below the
/// side.
pub open spec fn index_of(line: Seq<char>, side: usize, name: Axis) -> Result<
    usize,
    InputError,
> {
    match number(trimmed(line)) {
        Some(n) => if n > usize::MAX {
            Err(InputError::Index(name))
        } else if n < side {
            Ok(n as usize)
        } else {
            Err(InputError::IndexOutOfRange(name, n as usize))
        },
        None => Err(InputError::Index(name)),
    }
}

/// Whether a line of text asks for another game.
pub open spec fn answer_of(line: Seq<char>) -> Result<bool, InputError> {
    let text = trimmed(line);
    if text == seq!['Y'] || text == seq!['y'] {
        Ok(true)
    } else if text == seq!['N'] || text == seq!['n'] {
        Ok(false)
    } else {
        Err(InputError::Answer)
    }
}

/// A number of several digits is at least the number without its last digit.
pub proof fn lemma_decimal_grows(s: Seq<char>, n: int)
    requires
        0 <= n <= s.len(),
    ensures
        decimal(s.take(n)) <= decimal(s),
    decreases s.len() - n,
{
    if n < s.len() {
        lemma_decimal_grows(s, n + 1);
        assert(s.take(n + 1).drop_last() =~= s.take(n));
    } else {
        assert(s.take(n) =~= s);
    }
}

/// The characters of a text, one by one.
fn chars_of(line: &str) -> (chars: Vec<char>)
    ensures
        chars@ == line@,
{
    let len = line.unicode_len();
    let mut chars: Vec<char> = Vec::new();
    let mut i: usize = 0;
    while i < len
        invariant
            len == line@.len(),
            i <= len,
            chars@ == line@.take(i as int),
        decreases len - i,
    {
        chars.push(line.get_char(i));
        i += 1;
    }
    chars
}

/// Where the text begins and ends once the white space around it is left out.
fn trim(chars: &Vec<char>) -> (bounds: (usize, usize))
    ensures
        bounds.0 <= bounds.1 <= chars@.len(),
        chars@.subrange(bounds.0 as int, bounds.1 as int) == trimmed(chars@),
{
    let ghost s = chars@;
    let len = chars.len();
    let mut start: usize = 0;
    assert(s.subrange(0, len as int) =~= s);
    while start < len && is_white_space(chars[start])
        invariant
            s == chars@,
            len == s.len(),
            start <= len,
            trim_start(s) == trim_start(s.subrange(start as int, len as int)),
        decreases len - start,
    {
        assert(s.subrange(start as int, len as int).drop_first() =~= s.subrange(
            start + 1,
            len as int,
        ));
        start += 1;
    }
    let ghost t = s.subrange(start as int, len as int);
    let mut end: usize = len;
    while start < end && is_white_space(chars[end - 1])
        invariant
            s == chars@,
            len == s.len(),
            t == s.subrange(start as int, len as int),
            start <= end <= len,
            trim_end(t) == trim_end(s.subrange(start as int, end as int)),
        decreases end - start,
    {
        assert(s.subrange(start as int, end as int).drop_last() =~= s.subrange(
            start as int,
            end - 1,
        ));
        end -= 1;
    }
    (start, end)
}

/// Reads the side length of a new game from a line of text.
pub fn grid_size_prompt(line: &str) -> (r: Result<usize, InputError>)
    ensures
        r == grid_size_of(line@),
{
    let chars = chars_of(line);
    let (start, end) = trim(&chars);
    let ghost text = trimmed(line@);
    let mut value: usize = 0;
    let mut i: usize = start;
    proof {
        assert(text.subrange(0, text.len() as int) =~= text);
    }
    while i < end && is_decimal_digit(chars[i])
        invariant
            chars@ == line@,
            text == chars@.subrange(start as int, end as int),
            start <= i <= end <= chars@.len(),
            leading_digits(text) == (i - start) + leading_digits(
                text.subrange(i - start, text.len() as int),
            ),
            value <= MAX_GRID_SIZE ==> value == decimal(text.take(i - start)),
            value > MAX_GRID_SIZE ==> decimal(text.take(i - start)) > MAX_GRID_SIZE,
            value <= 10 * MAX_GRID_SIZE + 9,
        decreases end - i,
    {
        proof {
            let rest = text.subrange(i - start, text.len() as int);
            assert(rest.drop_first() =~= text.subrange(i - start + 1, text.len() as int));
            assert(text.take(i - start + 1).drop_last() =~= text.take(i - start));
        }
        if value <= MAX_GRID_SIZE {
            value = value * 10 + digit_of(chars[i]);
        }
        i += 1;
    }
    if i > start && 2 <= value && value <= MAX_GRID_SIZE {
        Ok(value)
    } else {
        Err(InputError::GridSize)
    }
}

/// Whether the character is one of the ten decimal digits.
fn is_decimal_digit(c: char) -> (r: bool)
    ensures
        r == is_digit(c),
{
    '0' <= c && c <= '9'
}

/// The number that a decimal digit stands for.
fn digit_of(c: char) -> (d: usize)
    requires
        is_digit(c),
    ensures
        d == digit_value(c),
        d <= 9,
{
    (c as u32 - '0' as u32) as usize
}

/// Reads from a line of text which mark the player wants, and gives the
/// mark that is left for the machine.
pub fn ai_side_prompt(line: &str) -> (r: Result<Mark, InputError>)
    ensures
        r == ai_side_of(line@),
{
    let chars = chars_of(line);
    let (start, end) = trim(&chars);
    let ghost text = trimmed(line@);
    if end - start == 1 {
        let c = chars[start];
        assert(text =~= seq![c]);
        assert(seq![c][0] == c);
        if c == 'X' || c == 'x' {
            return Ok(Mark::Nought);
        }
        if c == 'O' || c == 'o' {
            return Ok(Mark::Cross);
        }
        assert(seq!['X'][0] == 'X' && seq!['x'][0] == 'x' && seq!['O'][0] == 'O' && seq!['o'][0]
            == 'o');
        Err(InputError::Side)
    } else {
        assert(seq!['X'].len() == 1 && seq!['x'].len() == 1 && seq!['O'].len() == 1
            && seq!['o'].len() == 1);
        Err(InputError::Side)
    }
}

/// Reads from a line of text whether the player wants another game.
pub fn continue_prompt(line: &str) -> (r: Result<bool, InputError>)
    ensures
        r == answer_of(line@),
{
    let chars = chars_of(line);
    let (start, end) = trim(&chars);
    let ghost text = trimmed(line@);
    if end - start == 1 {
        let c = chars[start];
        assert(text =~= seq![c]);
        assert(seq![c][0] == c);
        if c == 'Y' || c == 'y' {
            return Ok(true);
        }
        if c == 'N' || c == 'n' {
            return Ok(false);
        }
        assert(seq!['Y'][0] == 'Y' && seq!['y'][0] == 'y' && seq!['N'][0] == 'N' && seq!['n'][0]
            == 'n');
        Err(InputError::Answer)
    } else {
        assert(seq!['Y'].len() == 1 && seq!['y'].len() == 1 && seq!['N'].len() == 1
            && seq!['n'].len() == 1);
        Err(InputError::Answer)
    }
}

/// Reads the number of a column or of a row from a line of text, for a
/// board of side `grid_side_length`.
pub fn index_prompt(line: &str, grid_side_length: usize, name: Axis) -> (r: Result<
    usize,
    InputError,
>)
    ensures
        r == index_of(line@, grid_side_length, name),
{
    let chars = chars_of(line);
    let (start, end) = trim(&chars);
    let ghost text = trimmed(line@);
    let first = if start < end && chars[start] == '+' {
        start + 1
    } else {
        start
    };
    let ghost digits = chars@.subrange(first as int, end as int);
    proof {
        if first > start {
            assert(text.drop_first() =~= digits);
        } else {
            if text.len() > 0 {
            }
        }
    }
    if first == end {
        return Err(InputError::Index(name));
    }
    let mut value: usize = 0;
    let mut i: usize = first;
    while i < end
        invariant
            digits == chars@.subrange(first as int, end as int),
            digits.len() > 0,
            number(trimmed(line@)) == (if all_digits(digits) {
                Some(decimal(digits))
            } else {
                None
            }),
            first <= i <= end <= chars@.len(),
            all_digits(digits.take(i - first)),
            value == decimal(digits.take(i - first)),
        decreases end - i,
    {
        let c = chars[i];
        if !is_decimal_digit(c) {
            assert(!is_digit(digits[i - first]));
            return Err(InputError::Index(name));
        }
        proof {
            assert(digits.take(i - first + 1).drop_last() =~= digits.take(i - first));
            lemma_decimal_grows(digits, i - first + 1);
        }
        let tenfold = match value.checked_mul(10) {
            Some(t) => t,
            None => {
                return Err(InputError::Index(name));
            },
        };
        value = match tenfold.checked_add(digit_of(c)) {
            Some(v) => v,
            None => {
                return Err(InputError::Index(name));
            },
        };
        i += 1;
    }
    assert(digits.take(digits.len() as int) =~= digits);
    if value < grid_side_length {
        Ok(value)
    } else {
        Err(InputError::IndexOutOfRange(name, value))
    }
}

} // verus!
