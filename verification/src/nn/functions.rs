//! Class indices: the column of the greatest cell of each row, and the
//! expansion of class indices into indicator rows.

use crate::linalg::grid::Grid;
use crate::linalg::matrix::{is_default, Matrix};
use crate::linalg::reduce::indexed_step;
use vstd::pervasive::runtime_assert;
use vstd::prelude::*;
use vstd::std_specs::cmp::{PartialOrdIs, PartialOrdSpec};

verus! {

/// The comparisons of `T` are those of one fixed order.
pub open spec fn ordered<T: PartialOrd>() -> bool {
    T::obeys_partial_cmp_spec()
}

/// The low eight bits of `n`.
pub open spec fn low_byte(n: usize) -> u8 {
    n as u8
}

/// The low eight bits of `n`.
pub fn low_byte_of(n: usize) -> (b: u8)
    ensures
        b == low_byte(n),
{
    #[verifier::truncate]
    (n as u8)
}

/// The greatest cell so far and its column, after the first `upto` cells of
/// row `row`: it starts as `(zero, 0)`, and a cell takes its place only if it
/// is greater.
pub open spec fn row_best<T: PartialOrd>(g: Grid<T>, zero: T, row: int, upto: int) -> (T, usize)
    decreases upto,
{
    if upto <= 0 {
        (zero, 0usize)
    } else {
        let best = row_best(g, zero, row, upto - 1);
        let cell = g.at(row, upto - 1);
        if cell.is_gt(&best.0) {
            (cell, (upto - 1) as usize)
        } else {
            best
        }
    }
}

/// A fold whose every step keeps the greater of the accumulator and the cell
/// ends with `row_best`.
pub proof fn lemma_fold_is_row_best<T: PartialOrd>(
    g: Grid<T>,
    zero: T,
    step: spec_fn((T, usize), T, int, int, (T, usize)) -> bool,
    row: int,
    upto: int,
    out: (T, usize),
)
    requires
        forall|acc: (T, usize), cell: T, r: int, c: int, next: (T, usize)| #[trigger]
            step(acc, cell, r, c, next) ==> next == (if cell.is_gt(&acc.0) {
                (cell, c as usize)
            } else {
                acc
            }),
        g.row_folds_to(step, row, upto, (zero, 0usize), out),
    ensures
        out == row_best(g, zero, row, upto),
    decreases upto,
{
    if upto > 0 {
        let mid = choose|mid: (T, usize)|
            g.row_folds_to(step, row, upto - 1, (zero, 0usize), mid) && #[trigger] step(
                mid,
                g.at(row, upto - 1),
                row,
                upto - 1,
                out,
            );
        lemma_fold_is_row_best(g, zero, step, row, upto - 1, mid);
    }
}

/// For each row, the column of its greatest cell, as a byte: the first such
/// column among the cells greater than `T::default()`, and 0 where no cell is.
pub fn argmax<T: Copy + Default + PartialOrd>(matrix: &Matrix<T>) -> (m: Matrix<u8>)
    requires
        matrix.wf(),
    ensures
        m.wf(),
        m.rows == matrix.rows,
        m.columns == 1,
        ordered::<T>() ==> exists|zero: T|
            is_default(zero) && forall|r: int|
                0 <= r < matrix.rows ==> #[trigger] m@.at(r, 0) == low_byte(
                    row_best(matrix@, zero, r, matrix.columns as int).1,
                ),
{
    let zero = T::default();
    let pick = |best: (T, usize), cell: T, row: usize, col: usize| -> (next: (T, usize))
        ensures
            ordered::<T>() ==> next == (if cell.is_gt(&best.0) {
                (cell, col)
            } else {
                best
            }),
        {
            if cell > best.0 {
                (cell, col)
            } else {
                best
            }
        };
    let best = matrix.reduce_rows_with_index((zero, 0usize), pick);
    let narrow = |pair: (T, usize)| -> (b: u8)
        ensures
            b == low_byte(pair.1),
        { low_byte_of(pair.1) };
    let m = best.transform(narrow);
    proof {
        if ordered::<T>() {
            assert forall|r: int| 0 <= r < matrix.rows implies #[trigger] m@.at(r, 0) == low_byte(
                row_best(matrix@, zero, r, matrix.columns as int).1,
            ) by {
                assert(best@.has(r, 0));
                lemma_fold_is_row_best(
                    matrix@,
                    zero,
                    indexed_step(pick),
                    r,
                    matrix.columns as int,
                    best@.at(r, 0),
                );
                assert(call_ensures(narrow, (best@.at(r, 0),), m@.at(r, 0)));
            }
            assert(is_default(zero));
        }
    }
    m
}

impl Matrix<usize> {
    /// The indicator rows of a column of class indices: row `r` of the result
    /// holds what `T::from(1)` returns in column `self(r, 0)` and one default
    /// value in every other of its `classes` columns.
    pub fn to_one_hot<T: From<u8> + Copy + Default>(&self, classes: usize) -> (m: Matrix<T>)
        requires
            self.wf(),
            self.columns == 1,
            self.rows * classes <= usize::MAX,
            forall|r: int| 0 <= r < self.rows ==> #[trigger] self@.at(r, 0) < classes,
        ensures
            m.wf(),
            m.rows == self.rows,
            m.columns == classes,
            exists|zero: T|
                is_default(zero) && forall|r: int, c: int|
                    m@.has(r, c) ==> if c == self@.at(r, 0) {
                        call_ensures(T::from, (1u8,), #[trigger] m@.at(r, c))
                    } else {
                        m@.at(r, c) == zero
                    },
    {
        runtime_assert(self.columns == 1);
        let zero = T::default();
        let cell = |r: usize, c: usize| -> (v: T)
            requires
                r < self.rows,
            ensures
                if c == self@.at(r as int, 0) {
                    call_ensures(T::from, (1u8,), v)
                } else {
                    v == zero
                },
            {
                if c == self.at(r, 0) {
                    T::from(1)
                } else {
                    zero
                }
            };
        let m = Matrix::tabulate(self.rows, classes, cell);
        proof {
            assert forall|r: int, c: int| m@.has(r, c) implies if c == self@.at(r, 0) {
                call_ensures(T::from, (1u8,), #[trigger] m@.at(r, c))
            } else {
                m@.at(r, c) == zero
            } by {
                assert(call_ensures(cell, (r as usize, c as usize), m@.at(r, c)));
            }
            assert(is_default(zero));
        }
        m
    }
}

} // verus!
