//! Writing a matrix out: as a grid text that reads back as the same tokens,
//! and as a dump for the eye with the extents above the cells.

use crate::linalg::matrix::Matrix;
use crate::linalg::grid::Grid;
use crate::linalg::text::{
    accepts, back_space, chars_of, fails_with, first_failure, grid_tokens, reads_as, rejects,
    skip_space, split_on, text_of, trimmed, white_space,
};
use vstd::prelude::*;

verus! {

/// The character of the decimal digit `d`.
pub open spec fn digit(d: int) -> char {
    if d == 0 {
        '0'
    } else if d == 1 {
        '1'
    } else if d == 2 {
        '2'
    } else if d == 3 {
        '3'
    } else if d == 4 {
        '4'
    } else if d == 5 {
        '5'
    } else if d == 6 {
        '6'
    } else if d == 7 {
        '7'
    } else if d == 8 {
        '8'
    } else {
        '9'
    }
}

/// `n` in decimal digits, without leading zeros.
pub open spec fn decimal(n: nat) -> Seq<char>
    decreases n,
{
    if n < 10 {
        seq![digit(n as int)]
    } else {
        decimal(n / 10).push(digit((n % 10) as int))
    }
}

/// The character of the decimal digit `d`.
pub fn digit_of(d: u64) -> (c: char)
    requires
        d < 10,
    ensures
        c == digit(d as int),
{
    if d == 0 {
        '0'
    } else if d == 1 {
        '1'
    } else if d == 2 {
        '2'
    } else if d == 3 {
        '3'
    } else if d == 4 {
        '4'
    } else if d == 5 {
        '5'
    } else if d == 6 {
        '6'
    } else if d == 7 {
        '7'
    } else if d == 8 {
        '8'
    } else {
        '9'
    }
}

/// Appends `n` in decimal digits to `out`.
pub fn push_decimal(out: &mut Vec<char>, n: u64)
    ensures
        final(out)@ == old(out)@ + decimal(n as nat),
    decreases n,
{
    if n < 10 {
        out.push(digit_of(n));
        assert(old(out)@.push(digit(n as int)) == old(out)@ + seq![digit(n as int)]);
    } else {
        push_decimal(out, n / 10);
        out.push(digit_of(n % 10));
        assert(final(out)@ == old(out)@ + decimal((n / 10) as nat).push(digit((n % 10) as int)));
    }
}

/// Appends the characters of `text` to `out`.
pub fn push_text(out: &mut Vec<char>, text: &str)
    ensures
        final(out)@ == old(out)@ + text@,
{
    let chars = chars_of(text);
    let mut i: usize = 0;
    while i < chars.len()
        invariant
            i <= chars.len(),
            chars@ == text@,
            out@ == old(out)@ + chars@.take(i as int),
        decreases chars.len() - i,
    {
        out.push(chars[i]);
        assert(chars@.take(i + 1) == chars@.take(i as int).push(chars@[i as int]));
        i += 1;
    }
    assert(chars@.take(i as int) == chars@);
}

/// The pieces one after another with `separator` between each two.
pub open spec fn joined(pieces: Seq<Seq<char>>, separator: char) -> Seq<char>
    decreases pieces.len(),
{
    if pieces.len() == 0 {
        Seq::<char>::empty()
    } else if pieces.len() == 1 {
        pieces[0]
    } else {
        joined(pieces.drop_last(), separator).push(separator) + pieces.last()
    }
}

/// The grid text of a table of tokens: the tokens of a row with single spaces
/// between them, the rows with line feeds between them.
pub open spec fn grid_text(tokens: Seq<Seq<Seq<char>>>) -> Seq<char> {
    joined(tokens.map_values(|row: Seq<Seq<char>>| joined(row, ' ')), '\n')
}

/// `token` can stand in a grid text: it is not empty and holds no space, no
/// line feed and no other white space.
pub open spec fn plain(token: Seq<char>) -> bool {
    &&& token.len() > 0
    &&& forall|k: int|
        0 <= k < token.len() ==> !white_space(#[trigger] token[k]) && token[k] != ' ' && token[k]
            != '\n'
}

/// `s` holds no `separator`.
pub open spec fn free_of(s: Seq<char>, separator: char) -> bool {
    forall|k: int| 0 <= k < s.len() ==> #[trigger] s[k] != separator
}

/// Splitting what follows a text on a stretch without separators only
/// lengthens the last piece.
pub proof fn lemma_split_on_extends(s: Seq<char>, more: Seq<char>, separator: char)
    requires
        free_of(more, separator),
    ensures
        split_on(s + more, separator) == split_on(s, separator).update(
            split_on(s, separator).len() - 1,
            split_on(s, separator).last() + more,
        ),
        split_on(s + more, separator).len() == split_on(s, separator).len(),
    decreases more.len(),
{
    crate::linalg::text::lemma_split_on_nonempty(s, separator);
    let before = split_on(s, separator);
    if more.len() == 0 {
        assert(s + more == s);
        assert(before.last() + more == before.last());
        assert(before.update(before.len() - 1, before.last()) == before);
    } else {
        let shorter = more.drop_last();
        assert forall|k: int| 0 <= k < shorter.len() implies #[trigger] shorter[k]
            != separator by {
            assert(shorter[k] == more[k]);
        }
        lemma_split_on_extends(s, shorter, separator);
        let whole = s + more;
        assert(whole.drop_last() == s + shorter);
        assert(whole.last() == more.last());
        assert(more[more.len() - 1] != separator);
        let mid = split_on(s + shorter, separator);
        assert(mid.last() == before.last() + shorter);
        assert((before.last() + shorter).push(more.last()) == before.last() + more);
        assert(split_on(whole, separator) == mid.update(
            mid.len() - 1,
            mid.last().push(more.last()),
        ));
        assert(mid.update(mid.len() - 1, before.last() + more) == before.update(
            before.len() - 1,
            before.last() + more,
        ));
    }
}

/// Pieces without separators, joined and split again, are the same pieces.
pub proof fn lemma_split_on_joined(pieces: Seq<Seq<char>>, separator: char)
    requires
        pieces.len() >= 1,
        forall|k: int| 0 <= k < pieces.len() ==> free_of(#[trigger] pieces[k], separator),
    ensures
        split_on(joined(pieces, separator), separator) == pieces,
    decreases pieces.len(),
{
    if pieces.len() == 1 {
        let empty = Seq::<char>::empty();
        assert(split_on(empty, separator) == seq![empty]);
        lemma_split_on_extends(empty, pieces[0], separator);
        assert(empty + pieces[0] == pieces[0]);
        assert(seq![empty].update(0, empty + pieces[0]) == pieces);
    } else {
        let rest = pieces.drop_last();
        assert forall|k: int| 0 <= k < rest.len() implies free_of(#[trigger] rest[k], separator) by {
            assert(rest[k] == pieces[k]);
        }
        lemma_split_on_joined(rest, separator);
        let head = joined(rest, separator).push(separator);
        assert(head.drop_last() == joined(rest, separator));
        assert(head.last() == separator);
        assert(split_on(head, separator) == rest.push(Seq::<char>::empty()));
        assert(free_of(pieces[pieces.len() - 1], separator));
        lemma_split_on_extends(head, pieces.last(), separator);
        assert(Seq::<char>::empty() + pieces.last() == pieces.last());
        assert(rest.push(Seq::<char>::empty()).update(rest.len() as int, pieces.last())
            == pieces);
    }
}

/// What a property of every character of every piece, and of the separator,
/// holds of every character of the joined text.
pub proof fn lemma_joined_keeps(
    pieces: Seq<Seq<char>>,
    separator: char,
    good: spec_fn(char) -> bool,
)
    requires
        good(separator),
        forall|k: int, i: int|
            0 <= k < pieces.len() && 0 <= i < pieces[k].len() ==> good(#[trigger] pieces[k][i]),
    ensures
        forall|i: int|
            0 <= i < joined(pieces, separator).len() ==> good(
                #[trigger] joined(pieces, separator)[i],
            ),
    decreases pieces.len(),
{
    if pieces.len() > 1 {
        let rest = pieces.drop_last();
        assert forall|k: int, i: int| 0 <= k < rest.len() && 0 <= i < rest[k].len() implies good(
            #[trigger] rest[k][i],
        ) by {
            assert(rest[k][i] == pieces[k][i]);
        }
        lemma_joined_keeps(rest, separator, good);
        let head = joined(rest, separator);
        let whole = joined(pieces, separator);
        assert forall|i: int| 0 <= i < whole.len() implies good(#[trigger] whole[i]) by {
            if i < head.len() {
                assert(whole[i] == head[i]);
            } else if i == head.len() {
                assert(whole[i] == separator);
            } else {
                assert(whole[i] == pieces[pieces.len() - 1][i - head.len() - 1]);
            }
        }
    } else if pieces.len() == 1 {
        let whole = joined(pieces, separator);
        assert forall|i: int| 0 <= i < whole.len() implies good(#[trigger] whole[i]) by {
            assert(whole[i] == pieces[0][i]);
        }
    }
}

/// A joined text of pieces that are not empty starts as its first piece
/// starts and ends as its last piece ends.
pub proof fn lemma_joined_ends(pieces: Seq<Seq<char>>, separator: char)
    requires
        pieces.len() >= 1,
        forall|k: int| 0 <= k < pieces.len() ==> (#[trigger] pieces[k]).len() > 0,
    ensures
        joined(pieces, separator).len() > 0,
        joined(pieces, separator).first() == pieces.first().first(),
        joined(pieces, separator).last() == pieces.last().last(),
    decreases pieces.len(),
{
    if pieces.len() > 1 {
        let rest = pieces.drop_last();
        assert forall|k: int| 0 <= k < rest.len() implies (#[trigger] rest[k]).len() > 0 by {
            assert(rest[k] == pieces[k]);
        }
        lemma_joined_ends(rest, separator);
        assert(pieces[pieces.len() - 1].len() > 0);
        assert(rest.first() == pieces.first());
    } else {
        assert(pieces[0].len() > 0);
    }
}

/// A text that starts and ends without white space is its own trimmed text.
pub proof fn lemma_trimmed_is_whole(s: Seq<char>)
    requires
        s.len() > 0,
        !white_space(s.first()),
        !white_space(s.last()),
    ensures
        trimmed(s) == s,
{
    assert(skip_space(s, 0) == 0);
    assert(back_space(s, 0, s.len() as int) == s.len());
    assert(s.subrange(0, s.len() as int) == s);
}

/// A table of plain tokens with at least one row, and at least one token in
/// every row, written as a grid text and read back, is the same table.
pub proof fn lemma_grid_text_round_trip(tokens: Seq<Seq<Seq<char>>>)
    requires
        tokens.len() >= 1,
        forall|r: int| 0 <= r < tokens.len() ==> (#[trigger] tokens[r]).len() >= 1,
        forall|r: int, c: int|
            0 <= r < tokens.len() && 0 <= c < tokens[r].len() ==> plain(#[trigger] tokens[r][c]),
    ensures
        grid_tokens(grid_text(tokens)) == tokens,
{
    let lines = tokens.map_values(|row: Seq<Seq<char>>| joined(row, ' '));
    let text = grid_text(tokens);
    let not_feed = |c: char| c != '\n';
    let not_space = |c: char| !white_space(c);
    assert forall|r: int| 0 <= r < lines.len() implies free_of(#[trigger] lines[r], '\n')
        && lines[r].len() > 0 && !white_space(lines[r].first()) && !white_space(lines[r].last())
        && split_on(lines[r], ' ') == tokens[r] by {
        let row = tokens[r];
        assert forall|k: int, i: int| 0 <= k < row.len() && 0 <= i < row[k].len() implies not_feed(
            #[trigger] row[k][i],
        ) by {
            assert(plain(tokens[r][k]));
        }
        lemma_joined_keeps(row, ' ', not_feed);
        assert forall|k: int| 0 <= k < row.len() implies (#[trigger] row[k]).len() > 0 && free_of(
            row[k],
            ' ',
        ) by {
            assert(plain(tokens[r][k]));
        }
        lemma_joined_ends(row, ' ');
        assert(plain(tokens[r][0]));
        assert(plain(tokens[r][row.len() - 1]));
        lemma_split_on_joined(row, ' ');
        assert forall|i: int| 0 <= i < lines[r].len() implies #[trigger] lines[r][i] != '\n' by {
            assert(not_feed(joined(row, ' ')[i]));
        }
    }
    lemma_joined_ends(lines, '\n');
    lemma_trimmed_is_whole(text);
    lemma_split_on_joined(lines, '\n');
    assert(grid_tokens(text) =~= tokens);
}

/// `format_cell` may write `value` as `token`.
pub open spec fn writes<T, F: Fn(T) -> String>(format_cell: F, value: T, token: Seq<char>) -> bool {
    exists|text: String| text@ == token && #[trigger] call_ensures(format_cell, (value,), text)
}

impl<T: Copy> Matrix<T> {
    /// The matrix as a grid text, each cell written by `format_cell`: the
    /// cells of a row with single spaces between them, the rows with line
    /// feeds between them.
    pub fn format_with<F: Fn(T) -> String>(&self, format_cell: F) -> (text: String)
        requires
            self.wf(),
            forall|value: T| call_requires(format_cell, (value,)),
        ensures
            exists|tokens: Seq<Seq<Seq<char>>>|
                {
                    &&& tokens.len() == self.rows
                    &&& forall|r: int|
                        0 <= r < self.rows ==> (#[trigger] tokens[r]).len() == self.columns
                    &&& forall|r: int, c: int|
                        self@.has(r, c) ==> writes(
                            format_cell,
                            self@.at(r, c),
                            #[trigger] tokens[r][c],
                        )
                    &&& text@ == grid_text(tokens)
                },
    {
        let mut out: Vec<char> = Vec::new();
        let ghost mut tokens: Seq<Seq<Seq<char>>> = Seq::empty();
        let ghost line_of = |row: Seq<Seq<char>>| joined(row, ' ');
        let mut row: usize = 0;
        while row < self.rows
            invariant
                self.wf(),
                row <= self.rows,
                line_of == (|row: Seq<Seq<char>>| joined(row, ' ')),
                tokens.len() == row,
                forall|value: T| call_requires(format_cell, (value,)),
                forall|r: int| 0 <= r < row ==> (#[trigger] tokens[r]).len() == self.columns,
                forall|r: int, c: int|
                    0 <= r < row && 0 <= c < self.columns ==> writes(
                        format_cell,
                        self@.at(r, c),
                        #[trigger] tokens[r][c],
                    ),
                out@ == joined(tokens.map_values(line_of), '\n'),
            decreases self.rows - row,
        {
            let ghost before_row = out@;
            let ghost mut cells: Seq<Seq<char>> = Seq::empty();
            if row > 0 {
                out.push('\n');
            }
            let ghost start = out@;
            let mut column: usize = 0;
            while column < self.columns
                invariant
                    self.wf(),
                    row < self.rows,
                    column <= self.columns,
                    cells.len() == column,
                    forall|value: T| call_requires(format_cell, (value,)),
                    forall|c: int|
                        0 <= c < column ==> writes(
                            format_cell,
                            self@.at(row as int, c),
                            #[trigger] cells[c],
                        ),
                    out@ == start + joined(cells, ' '),
                decreases self.columns - column,
            {
                let ghost before = out@;
                if column > 0 {
                    out.push(' ');
                }
                let cell = format_cell(self.at(row, column));
                push_text(&mut out, cell.as_str());
                proof {
                    let longer = cells.push(cell@);
                    assert(longer.drop_last() == cells);
                    assert(longer.last() == cell@);
                    if column > 0 {
                        assert(joined(longer, ' ') == joined(cells, ' ').push(' ') + cell@);
                        assert(out@ == start + joined(longer, ' '));
                    } else {
                        assert(joined(cells, ' ') == Seq::<char>::empty());
                        assert(joined(longer, ' ') == cell@);
                        assert(out@ == start + joined(longer, ' '));
                    }
                    assert(writes(format_cell, self@.at(row as int, column as int), cell@));
                    cells = longer;
                }
                column += 1;
            }
            proof {
                let longer = tokens.push(cells);
                assert(longer.drop_last() == tokens);
                assert(longer.last() == cells);
                assert(longer.map_values(line_of).drop_last() == tokens.map_values(line_of));
                assert(longer.map_values(line_of).last() == joined(cells, ' '));
                if row > 0 {
                    assert(out@ == joined(tokens.map_values(line_of), '\n').push('\n') + joined(
                        cells,
                        ' ',
                    ));
                } else {
                    assert(tokens.map_values(line_of).len() == 0);
                    assert(before_row == Seq::<char>::empty());
                    assert(out@ == joined(cells, ' '));
                }
                assert(out@ == joined(longer.map_values(line_of), '\n'));
                tokens = longer;
            }
            row += 1;
        }
        let text = text_of(&out);
        proof {
            assert(text@ == grid_text(tokens));
        }
        text
    }
}

/// The cells of one row of a dump: each followed by a space.
pub open spec fn spaced(cells: Seq<Seq<char>>) -> Seq<char>
    decreases cells.len(),
{
    if cells.len() == 0 {
        Seq::<char>::empty()
    } else {
        spaced(cells.drop_last()) + cells.last().push(' ')
    }
}

/// The rows of a dump: the cells of each row, each followed by a space, and
/// a line feed after each row.
pub open spec fn dump_body(tokens: Seq<Seq<Seq<char>>>) -> Seq<char>
    decreases tokens.len(),
{
    if tokens.len() == 0 {
        Seq::<char>::empty()
    } else {
        dump_body(tokens.drop_last()) + spaced(tokens.last()).push('\n')
    }
}

/// The rule that stands above and below the cells of a dump.
pub open spec fn rule() -> Seq<char> {
    "--------------"@
}

/// The dump of a `rows` by `columns` matrix with the cells written as
/// `tokens`: the extents, a rule, the rows, and a rule.
pub open spec fn dump_text(rows: nat, columns: nat, tokens: Seq<Seq<Seq<char>>>) -> Seq<char> {
    "Matrix "@ + decimal(rows) + "x"@ + decimal(columns) + "\n"@ + rule() + "\n"@ + dump_body(
        tokens,
    ) + rule()
}

impl<T: Copy> Matrix<T> {
    /// A dump of the matrix for the eye, each cell written by `show`: a line
    /// with the extents, a rule, one line for each row with a space after
    /// every cell, and a rule. It does not read back as a grid text.
    pub fn display_with<F: Fn(T) -> String>(&self, show: F) -> (text: String)
        requires
            self.wf(),
            forall|value: T| call_requires(show, (value,)),
        ensures
            exists|tokens: Seq<Seq<Seq<char>>>|
                {
                    &&& tokens.len() == self.rows
                    &&& forall|r: int|
                        0 <= r < self.rows ==> (#[trigger] tokens[r]).len() == self.columns
                    &&& forall|r: int, c: int|
                        self@.has(r, c) ==> writes(show, self@.at(r, c), #[trigger] tokens[r][c])
                    &&& text@ == dump_text(self.rows as nat, self.columns as nat, tokens)
                },
    {
        let mut out: Vec<char> = Vec::new();
        push_text(&mut out, "Matrix ");
        push_decimal(&mut out, self.rows as u64);
        push_text(&mut out, "x");
        push_decimal(&mut out, self.columns as u64);
        push_text(&mut out, "\n");
        push_text(&mut out, "--------------");
        push_text(&mut out, "\n");
        let ghost head = out@;
        let ghost mut tokens: Seq<Seq<Seq<char>>> = Seq::empty();
        let mut row: usize = 0;
        while row < self.rows
            invariant
                self.wf(),
                row <= self.rows,
                tokens.len() == row,
                forall|value: T| call_requires(show, (value,)),
                forall|r: int| 0 <= r < row ==> (#[trigger] tokens[r]).len() == self.columns,
                forall|r: int, c: int|
                    0 <= r < row && 0 <= c < self.columns ==> writes(
                        show,
                        self@.at(r, c),
                        #[trigger] tokens[r][c],
                    ),
                out@ == head + dump_body(tokens),
            decreases self.rows - row,
        {
            let ghost start = out@;
            let ghost mut cells: Seq<Seq<char>> = Seq::empty();
            let mut column: usize = 0;
            while column < self.columns
                invariant
                    self.wf(),
                    row < self.rows,
                    column <= self.columns,
                    cells.len() == column,
                    forall|value: T| call_requires(show, (value,)),
                    forall|c: int|
                        0 <= c < column ==> writes(
                            show,
                            self@.at(row as int, c),
                            #[trigger] cells[c],
                        ),
                    out@ == start + spaced(cells),
                decreases self.columns - column,
            {
                let cell = show(self.at(row, column));
                push_text(&mut out, cell.as_str());
                out.push(' ');
                proof {
                    let longer = cells.push(cell@);
                    assert(longer.drop_last() == cells);
                    assert(longer.last() == cell@);
                    assert(out@ == start + spaced(longer));
                    assert(writes(show, self@.at(row as int, column as int), cell@));
                    cells = longer;
                }
                column += 1;
            }
            out.push('\n');
            proof {
                let longer = tokens.push(cells);
                assert(longer.drop_last() == tokens);
                assert(longer.last() == cells);
                assert(out@ == head + dump_body(longer));
                tokens = longer;
            }
            row += 1;
        }
        push_text(&mut out, "--------------");
        let text = text_of(&out);
        proof {
            assert(text@ == dump_text(self.rows as nat, self.columns as nat, tokens));
        }
        text
    }
}

/// `tokens` is a way in which `format_cell` may write the cells of `m`, each
/// as a plain token.
pub open spec fn written_as<T, F: Fn(T) -> String>(
    format_cell: F,
    m: Grid<T>,
    tokens: Seq<Seq<Seq<char>>>,
) -> bool {
    &&& tokens.len() == m.rows
    &&& forall|r: int| 0 <= r < m.rows ==> (#[trigger] tokens[r]).len() == m.columns
    &&& forall|r: int, c: int|
        m.has(r, c) ==> plain(#[trigger] tokens[r][c]) && writes(format_cell, m.at(r, c), tokens[r][c])
}

/// `parse_cell` reads back what `format_cell` writes: it refuses no token that
/// `format_cell` may write, and reads it as the value written.
pub open spec fn reads_back<T, F: Fn(T) -> String, G: Fn(&str) -> Result<T, String>>(
    format_cell: F,
    parse_cell: G,
) -> bool {
    &&& forall|value: T, token: Seq<char>, read: T|
        #![trigger writes(format_cell, value, token), accepts(parse_cell, token, read)]
        writes(format_cell, value, token) && accepts(parse_cell, token, read) ==> read == value
    &&& forall|value: T, token: Seq<char>, message: Seq<char>|
        #![trigger writes(format_cell, value, token), rejects::<T, G>(parse_cell, token, message)]
        writes(format_cell, value, token) ==> !rejects::<T, G>(parse_cell, token, message)
}

/// A matrix with at least one row and one column, written as a grid text of
/// plain tokens and read with a parser that reads back what was written, is
/// read as itself and is not refused.
pub proof fn lemma_matrix_text_round_trip<
    T,
    F: Fn(T) -> String,
    G: Fn(&str) -> Result<T, String>,
>(format_cell: F, parse_cell: G, m: Grid<T>, tokens: Seq<Seq<Seq<char>>>)
    requires
        m.wf(),
        m.rows >= 1,
        m.columns >= 1,
        written_as(format_cell, m, tokens),
        reads_back(format_cell, parse_cell),
    ensures
        forall|back: Grid<T>|
            back.wf() && #[trigger] reads_as(parse_cell, grid_text(tokens), back) ==> back == m,
        forall|message: Seq<char>|
            !#[trigger] fails_with::<T, G>(parse_cell, grid_text(tokens), message),
{
    assert forall|r: int, c: int|
        0 <= r < tokens.len() && 0 <= c < tokens[r].len() implies plain(#[trigger] tokens[r][c]) by {
        assert(m.has(r, c));
    }
    lemma_grid_text_round_trip(tokens);
    let text = grid_text(tokens);
    assert(grid_tokens(text) == tokens);
    assert forall|back: Grid<T>| back.wf() && #[trigger] reads_as(parse_cell, text, back) implies back
        == m by {
        assert forall|r: int, c: int| back.has(r, c) implies back.at(r, c) == m.at(r, c) by {
            assert(m.has(r, c));
            assert(accepts(parse_cell, tokens[r][c], back.at(r, c)));
            assert(writes(format_cell, m.at(r, c), tokens[r][c]));
        }
        back.lemma_equal_by_cells(m);
    }
    assert forall|message: Seq<char>| !#[trigger] fails_with::<T, G>(
        parse_cell,
        text,
        message,
    ) by {
        if fails_with::<T, G>(parse_cell, text, message) {
            let (r, c) = choose|r: int, c: int|
                0 <= r < tokens.len() && 0 <= c < tokens[0].len() && #[trigger] first_failure::<
                    T,
                    G,
                >(parse_cell, tokens, r, c, message);
            assert(m.has(r, c));
            assert(c < tokens[r].len());
            assert(writes(format_cell, m.at(r, c), tokens[r][c]));
            assert(rejects::<T, G>(parse_cell, tokens[r][c], message));
        }
    }
}

} // verus!
