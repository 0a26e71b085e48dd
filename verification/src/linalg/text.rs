//! The text form of a matrix: one line for each row, the cells of a row
//! parted by single spaces. How the text of one cell reads as a value is the
//! caller's to say; the grid around the cells is read here.

use crate::linalg::matrix::Matrix;
use vstd::prelude::*;
use vstd::string::StringExecFns;

verus! {

/// Whether `c` is white space to `char::is_whitespace`.
pub uninterp spec fn white_space(c: char) -> bool;

/// `char::is_whitespace`: whether `c` has the Unicode property `White_Space`.
/// Believed of it: the answer is a function of `c` alone, named `white_space`.
#[verifier::external_body]
fn is_white_space(c: char) -> (space: bool)
    ensures
        space == white_space(c),
{
    c.is_whitespace()
}

/// `String::push`: appends one character to a string. Believed of it: the
/// string afterwards holds what it held, and then `c`.
#[verifier::external_body]
fn push_char(text: &mut String, c: char)
    ensures
        final(text)@ == old(text)@.push(c),
{
    text.push(c)
}

/// The string of the characters given, in their order.
pub fn text_of(chars: &Vec<char>) -> (text: String)
    ensures
        text@ == chars@,
{
    let mut text = String::new();
    let mut i: usize = 0;
    while i < chars.len()
        invariant
            i <= chars.len(),
            text@ == chars@.take(i as int),
        decreases chars.len() - i,
    {
        push_char(&mut text, chars[i]);
        assert(chars@.take(i + 1) == chars@.take(i as int).push(chars@[i as int]));
        i += 1;
    }
    assert(chars@.take(i as int) == chars@);
    text
}

/// The first place at or after `from` that holds no white space, or the end.
pub open spec fn skip_space(s: Seq<char>, from: int) -> int
    decreases s.len() - from,
{
    if 0 <= from < s.len() && white_space(s[from]) {
        skip_space(s, from + 1)
    } else {
        from
    }
}

/// The end of the last stretch before `to` that ends without white space and
/// does not go back beyond `from`.
pub open spec fn back_space(s: Seq<char>, from: int, to: int) -> int
    decreases to - from,
{
    if from < to <= s.len() && white_space(s[to - 1]) {
        back_space(s, from, to - 1)
    } else {
        to
    }
}

/// `s` without the white space at its start and at its end.
pub open spec fn trimmed(s: Seq<char>) -> Seq<char> {
    let start = skip_space(s, 0);
    s.subrange(start, back_space(s, start, s.len() as int))
}

/// The pieces of `s` between the occurrences of `separator`, in their order:
/// one more piece than there are occurrences, empty pieces included.
pub open spec fn split_on(s: Seq<char>, separator: char) -> Seq<Seq<char>>
    decreases s.len(),
{
    if s.len() == 0 {
        seq![Seq::<char>::empty()]
    } else {
        let before = split_on(s.drop_last(), separator);
        if s.last() == separator {
            before.push(Seq::<char>::empty())
        } else {
            before.update(before.len() - 1, before.last().push(s.last()))
        }
    }
}

/// The tokens of a grid text: the text is trimmed, its lines are the pieces
/// between line feeds, and the tokens of a line are its pieces between spaces.
pub open spec fn grid_tokens(s: Seq<char>) -> Seq<Seq<Seq<char>>> {
    split_on(trimmed(s), '\n').map_values(|line: Seq<char>| split_on(line, ' '))
}

/// The message of the error for a line that has fewer tokens than the first.
pub open spec fn missing_cell() -> Seq<char> {
    "a line has fewer cells than the first line"@
}

/// `parse_cell` may read `token` as `value`.
pub open spec fn accepts<T, F: Fn(&str) -> Result<T, String>>(
    parse_cell: F,
    token: Seq<char>,
    value: T,
) -> bool {
    exists|t: &str| t@ == token && #[trigger] call_ensures(parse_cell, (t,), Ok::<T, String>(value))
}

/// `parse_cell` may refuse `token` with `message`.
pub open spec fn rejects<T, F: Fn(&str) -> Result<T, String>>(
    parse_cell: F,
    token: Seq<char>,
    message: Seq<char>,
) -> bool {
    exists|t: &str, e: String|
        t@ == token && e@ == message && #[trigger] call_ensures(
            parse_cell,
            (t,),
            Err::<T, String>(e),
        )
}

/// Cell `(r1, c1)` comes before cell `(r2, c2)` in row-major order.
pub open spec fn comes_before(r1: int, c1: int, r2: int, c2: int) -> bool {
    r1 < r2 || (r1 == r2 && c1 < c2)
}

/// What went wrong when a text was read as a matrix.
#[derive(Debug, Clone, PartialEq, Eq)]
pub struct ParseMatrixError {
    pub message: String,
}

impl ParseMatrixError {
    /// What kind of error this is, without its message.
    pub fn __description(&self) -> (text: &str)
        ensures
            text@ == "could not parse matrix"@,
    {
        "could not parse matrix"
    }

    /// The error in words: its kind, a colon, and its message.
    pub fn to_string(&self) -> (text: String)
        ensures
            text@ == "could not parse matrix: "@ + self.message@,
    {
        "could not parse matrix: ".to_owned().concat(self.message.as_str())
    }
}

/// A split has at least one piece.
pub proof fn lemma_split_on_nonempty(s: Seq<char>, separator: char)
    ensures
        split_on(s, separator).len() >= 1,
    decreases s.len(),
{
    if s.len() > 0 {
        lemma_split_on_nonempty(s.drop_last(), separator);
    }
}

/// The views of the vectors of `pieces`.
pub open spec fn views(pieces: Seq<Vec<char>>) -> Seq<Seq<char>> {
    pieces.map_values(|piece: Vec<char>| piece@)
}

/// The pieces of `chars[from..to]` between the occurrences of `separator`.
pub fn split(chars: &Vec<char>, from: usize, to: usize, separator: char) -> (pieces: Vec<
    Vec<char>,
>)
    requires
        from <= to <= chars.len(),
    ensures
        views(pieces@) == split_on(chars@.subrange(from as int, to as int), separator),
        pieces.len() >= 1,
{
    let mut pieces: Vec<Vec<char>> = Vec::new();
    let mut current: Vec<char> = Vec::new();
    let mut i: usize = from;
    assert(chars@.subrange(from as int, from as int) == Seq::<char>::empty());
    assert(views(pieces@).push(current@) == seq![Seq::<char>::empty()]);
    while i < to
        invariant
            from <= i <= to <= chars.len(),
            views(pieces@).push(current@) == split_on(
                chars@.subrange(from as int, i as int),
                separator,
            ),
        decreases to - i,
    {
        let c = chars[i];
        proof {
            let done = chars@.subrange(from as int, i as int);
            let next = chars@.subrange(from as int, i + 1);
            assert(next.drop_last() == done);
            assert(next.last() == c);
        }
        let ghost before = views(pieces@).push(current@);
        if c == separator {
            let ghost old_pieces = pieces@;
            pieces.push(current);
            current = Vec::new();
            assert(views(pieces@) == views(old_pieces).push(pieces@.last()@));
            assert(views(pieces@).push(current@) == before.push(Seq::<char>::empty()));
        } else {
            current.push(c);
            assert(views(pieces@).push(current@) == before.update(
                before.len() - 1,
                before.last().push(c),
            ));
        }
        i += 1;
    }
    let ghost old_pieces = pieces@;
    pieces.push(current);
    assert(views(pieces@) == views(old_pieces).push(pieces@.last()@));
    pieces
}

impl<T> Matrix<T> {
    /// Reads a grid text as a matrix, each token with `parse_cell`. The matrix
    /// has one row for each line of the trimmed text and as many columns as
    /// the first line has tokens; tokens beyond those of a longer line are not
    /// read. The first token in row-major order that `parse_cell` refuses ends
    /// the reading with its message, and so does a line that is too short.
    pub fn parse_with<F: Fn(&str) -> Result<T, String>>(s: &str, parse_cell: F) -> (parsed: Result<
        Matrix<T>,
        ParseMatrixError,
    >)
        requires
            forall|t: &str| call_requires(parse_cell, (t,)),
        ensures
            match parsed {
                Ok(m) => m.wf() && reads_as(parse_cell, s@, m@),
                Err(e) => fails_with(parse_cell, s@, e.message@),
            },
    {
        let chars = chars_of(s);
        let mut start: usize = 0;
        while start < chars.len() && is_white_space(chars[start])
            invariant
                start <= chars.len(),
                skip_space(chars@, start as int) == skip_space(chars@, 0),
            decreases chars.len() - start,
        {
            start += 1;
        }
        let mut end: usize = chars.len();
        while end > start && is_white_space(chars[end - 1])
            invariant
                start <= end <= chars.len(),
                back_space(chars@, start as int, end as int) == back_space(
                    chars@,
                    start as int,
                    chars.len() as int,
                ),
            decreases end - start,
        {
            end -= 1;
        }
        let lines = split(&chars, start, end, '\n');
        let ghost grid = grid_tokens(s@);
        assert(chars@.subrange(start as int, end as int) == trimmed(s@));
        assert(grid.len() == lines.len());
        let rows = lines.len();
        let first = split(&lines[0], 0, lines[0].len(), ' ');
        let columns = first.len();
        proof {
            assert(lines[0]@.subrange(0, lines[0].len() as int) == lines[0]@);
            assert(views(lines@)[0] == lines[0]@);
            assert(grid[0] == views(first@));
        }
        let mut elems: Vec<T> = Vec::new();
        let mut row: usize = 0;
        while row < rows
            invariant
                row <= rows,
                rows == lines.len(),
                rows == grid.len(),
                columns == grid[0].len(),
                columns >= 1,
                grid == grid_tokens(s@),
                views(lines@) == split_on(trimmed(s@), '\n'),
                elems.len() == row * columns,
                forall|t: &str| call_requires(parse_cell, (t,)),
                forall|r: int| 0 <= r < row ==> (#[trigger] grid[r]).len() >= columns,
                forall|r: int, c: int|
                    0 <= r < row && 0 <= c < columns ==> accepts(
                        parse_cell,
                        grid[r][c],
                        #[trigger] elems@[r * columns + c],
                    ),
            decreases rows - row,
        {
            let line = &lines[row];
            let tokens = split(line, 0, line.len(), ' ');
            proof {
                assert(line@.subrange(0, line.len() as int) == line@);
                assert(views(lines@)[row as int] == line@);
                assert(grid[row as int] == views(tokens@));
            }
            let mut col: usize = 0;
            while col < columns
                invariant
                    row < rows,
                    col <= columns,
                    grid == grid_tokens(s@),
                    rows == grid.len(),
                    columns == grid[0].len(),
                    grid[row as int] == views(tokens@),
                    elems.len() == row * columns + col,
                    forall|t: &str| call_requires(parse_cell, (t,)),
                    forall|r: int| 0 <= r < row ==> (#[trigger] grid[r]).len() >= columns,
                    col <= tokens.len(),
                    forall|r: int, c: int|
                        0 <= r < row && 0 <= c < columns ==> accepts(
                            parse_cell,
                            grid[r][c],
                            #[trigger] elems@[r * columns + c],
                        ),
                    forall|c: int|
                        0 <= c < col ==> accepts(
                            parse_cell,
                            grid[row as int][c],
                            #[trigger] elems@[row * columns + c],
                        ),
                decreases columns - col,
            {
                proof {
                    assert forall|r1: int, c1: int|
                        0 <= r1 && 0 <= c1 < columns && comes_before(
                            r1,
                            c1,
                            row as int,
                            col as int,
                        ) implies grid[r1].len() > c1 && exists|value: T| #[trigger]
                        accepts(parse_cell, grid[r1][c1], value) by {
                        if r1 < row {
                            assert(grid[r1].len() >= columns);
                            assert(accepts(parse_cell, grid[r1][c1], elems@[r1 * columns + c1]));
                        } else {
                            assert(accepts(
                                parse_cell,
                                grid[row as int][c1],
                                elems@[row * columns + c1],
                            ));
                        }
                    }
                }
                if col >= tokens.len() {
                    let e = ParseMatrixError {
                        message: "a line has fewer cells than the first line".to_owned(),
                    };
                    assert(first_failure::<T, F>(
                        parse_cell,
                        grid,
                        row as int,
                        col as int,
                        e.message@,
                    ));
                    assert(fails_with::<T, F>(parse_cell, s@, e.message@));
                    return Err(e);
                }
                let token = text_of(&tokens[col]);
                assert(token@ == grid[row as int][col as int]) by {
                    assert(views(tokens@)[col as int] == tokens[col as int]@);
                }
                match parse_cell(token.as_str()) {
                    Ok(value) => {
                        let ghost before = elems@;
                        elems.push(value);
                        proof {
                            assert(accepts(parse_cell, grid[row as int][col as int], value));
                            assert forall|r: int, c: int|
                                0 <= r < row && 0 <= c < columns implies accepts(
                                parse_cell,
                                grid[r][c],
                                #[trigger] elems@[r * columns + c],
                            ) by {
                                crate::linalg::matrix::lemma_offset_in_range(
                                    row as int,
                                    columns as int,
                                    r,
                                    c,
                                );
                                assert(elems@[r * columns + c] == before[r * columns + c]);
                            }
                        }
                    },
                    Err(message) => {
                        let e = ParseMatrixError { message };
                        assert(rejects(parse_cell, grid[row as int][col as int], e.message@));
                        assert(first_failure::<T, F>(
                            parse_cell,
                            grid,
                            row as int,
                            col as int,
                            e.message@,
                        ));
                        assert(fails_with::<T, F>(parse_cell, s@, e.message@));
                        return Err(e);
                    },
                }
                col += 1;
            }
            proof {
                assert(row * columns + columns == (row + 1) * columns) by (nonlinear_arith);
            }
            row += 1;
        }
        let m = Matrix::new_from(rows, columns, elems);
        proof {
            assert forall|r: int, c: int| m@.has(r, c) implies accepts(
                parse_cell,
                grid[r][c],
                #[trigger] m@.at(r, c),
            ) by {
                crate::linalg::matrix::lemma_offset_in_range(rows as int, columns as int, r, c);
                assert(m@.at(r, c) == elems@[r * columns + c]);
            }
            assert(reads_as(parse_cell, s@, m@));
        }
        Ok(m)
    }
}

/// `parse_cell` may read the grid text `s` as `m`: `m` has one row for each
/// line and as many columns as the first line has tokens, no line has fewer,
/// and every cell of `m` is what `parse_cell` may read its token as.
pub open spec fn reads_as<T, F: Fn(&str) -> Result<T, String>>(
    parse_cell: F,
    s: Seq<char>,
    m: crate::linalg::grid::Grid<T>,
) -> bool {
    let grid = grid_tokens(s);
    &&& m.rows == grid.len()
    &&& m.columns == grid[0].len()
    &&& forall|r: int| 0 <= r < m.rows ==> (#[trigger] grid[r]).len() >= m.columns
    &&& forall|r: int, c: int|
        m.has(r, c) ==> accepts(parse_cell, grid[r][c], #[trigger] m.at(r, c))
}

/// Reading the grid text `s` with `parse_cell` may fail with `message`: some
/// cell within the columns of the first line is the first that cannot be read.
pub open spec fn fails_with<T, F: Fn(&str) -> Result<T, String>>(
    parse_cell: F,
    s: Seq<char>,
    message: Seq<char>,
) -> bool {
    let grid = grid_tokens(s);
    exists|r: int, c: int|
        0 <= r < grid.len() && 0 <= c < grid[0].len() && #[trigger] first_failure::<T, F>(
            parse_cell,
            grid,
            r,
            c,
            message,
        )
}

/// Cell `(r, c)` of `grid` is the first in row-major order that cannot be
/// read, and `message` says why: every cell before it, within the columns of
/// the first line, is there and may be accepted, and cell `(r, c)` is not
/// there or may be refused with `message`.
pub open spec fn first_failure<T, F: Fn(&str) -> Result<T, String>>(
    parse_cell: F,
    grid: Seq<Seq<Seq<char>>>,
    r: int,
    c: int,
    message: Seq<char>,
) -> bool {
    &&& forall|r1: int, c1: int|
        0 <= r1 && 0 <= c1 < grid[0].len() && comes_before(r1, c1, r, c) ==> grid[r1].len() > c1
            && exists|value: T| #[trigger] accepts(parse_cell, grid[r1][c1], value)
    &&& if c < grid[r].len() {
        rejects::<T, F>(parse_cell, grid[r][c], message)
    } else {
        message == missing_cell()
    }
}

/// The characters of `s`, in their order.
pub fn chars_of(s: &str) -> (chars: Vec<char>)
    ensures
        chars@ == s@,
{
    broadcast use vstd::string::axiom_spec_iter;

    let mut chars: Vec<char> = Vec::new();
    for c in iter: s.chars()
        invariant
            iter.seq() == s@,
            chars@ == iter.seq().take(iter.index() as int),
    {
        chars.push(c);
        assert(iter.seq().take(iter.index() + 1) == iter.seq().take(iter.index() as int).push(c));
    }
    assert(chars@ == s@.take(s@.len() as int));
    chars
}

} // verus!
