//! Folds over the cells of a matrix, whole or row by row or column by column,
//! and cell-wise maps into a new matrix.
//!
//! A caller's function is known to the verifier as a relation between its
//! arguments and its results, so a fold is specified as a relation too: the
//! result is one that the steps of the function may lead to.

use crate::linalg::matrix::Matrix;
use vstd::prelude::*;

verus! {

/// The step relation of a fold with `f`, which sees the accumulator and the cell.
pub open spec fn plain_step<B, T, F: Fn(B, T) -> B>(f: F) -> spec_fn(B, T, int, int, B) -> bool {
    |acc: B, cell: T, r: int, c: int, next: B| call_ensures(f, (acc, cell), next)
}

/// The step relation of a fold with `f`, which also sees the cell's row and column.
pub open spec fn indexed_step<B, T, F: Fn(B, T, usize, usize) -> B>(f: F) -> spec_fn(
    B,
    T,
    int,
    int,
    B,
) -> bool {
    |acc: B, cell: T, r: int, c: int, next: B|
        call_ensures(f, (acc, cell, r as usize, c as usize), next)
}

impl<T: Copy> Matrix<T> {
    /// Folds `f` over all cells in row-major order, starting from `init`.
    pub fn reduce<F, B>(&self, init: B, f: F) -> (out: B) where F: Fn(B, T) -> B
        requires
            self.wf(),
            forall|r: int, c: int, start: B, acc: B|
                self@.has(r, c) && self@.folds_to(plain_step(f), r, init, start)
                    && self@.row_folds_to(plain_step(f), r, c, start, acc) ==> call_requires(
                    f,
                    (acc, self@.at(r, c)),
                ),
        ensures
            self@.folds_to(plain_step(f), self.rows as int, init, out),
    {
        let fr = &f;
        let g = |acc: B, cell: T, row: usize, column: usize| -> (next: B)
            requires
                call_requires(fr, (acc, cell)),
            ensures
                call_ensures(fr, (acc, cell), next),
            { fr(acc, cell) };
        proof {
            assert forall|r: int, c: int, start: B, acc: B|
                self@.has(r, c) && self@.folds_to(indexed_step(g), r, init, start)
                    && self@.row_folds_to(
                    indexed_step(g),
                    r,
                    c,
                    start,
                    acc,
                ) implies call_requires(g, (acc, self@.at(r, c), r as usize, c as usize)) by {
                self@.lemma_fold_widens(indexed_step(g), plain_step(f), r, init, start);
                self@.lemma_row_fold_widens(indexed_step(g), plain_step(f), r, c, start, acc);
            }
        }
        let out = self.reduce_with_index(init, g);
        proof {
            self@.lemma_fold_widens(indexed_step(g), plain_step(f), self.rows as int, init, out);
        }
        out
    }

    /// Folds `f` over all cells in row-major order, starting from `init`; `f`
    /// is given each cell's row and column.
    pub fn reduce_with_index<F, B>(&self, init: B, f: F) -> (out: B) where
        F: Fn(B, T, usize, usize) -> B,

        requires
            self.wf(),
            forall|r: int, c: int, start: B, acc: B|
                self@.has(r, c) && self@.folds_to(indexed_step(f), r, init, start)
                    && self@.row_folds_to(indexed_step(f), r, c, start, acc) ==> call_requires(
                    f,
                    (acc, self@.at(r, c), r as usize, c as usize),
                ),
        ensures
            self@.folds_to(indexed_step(f), self.rows as int, init, out),
    {
        let ghost step = indexed_step(f);
        let mut result = init;
        let mut row: usize = 0;
        while row < self.rows
            invariant
                self.wf(),
                step == indexed_step(f),
                row <= self.rows,
                self@.folds_to(step, row as int, init, result),
                forall|r: int, c: int, start: B, acc: B|
                    self@.has(r, c) && self@.folds_to(indexed_step(f), r, init, start)
                        && self@.row_folds_to(indexed_step(f), r, c, start, acc) ==> call_requires(
                        f,
                        (acc, self@.at(r, c), r as usize, c as usize),
                    ),
            decreases self.rows - row,
        {
            let ghost start = result;
            let mut column: usize = 0;
            while column < self.columns
                invariant
                    self.wf(),
                    step == indexed_step(f),
                    row < self.rows,
                    column <= self.columns,
                    self@.folds_to(step, row as int, init, start),
                    self@.row_folds_to(step, row as int, column as int, start, result),
                    forall|r: int, c: int, start: B, acc: B|
                        self@.has(r, c) && self@.folds_to(indexed_step(f), r, init, start)
                            && self@.row_folds_to(indexed_step(f), r, c, start, acc)
                            ==> call_requires(f, (acc, self@.at(r, c), r as usize, c as usize)),
                decreases self.columns - column,
            {
                let ghost before = result;
                assert(self@.has(row as int, column as int));
                result = f(result, self.at(row, column), row, column);
                assert(step(before, self@.at(row as int, column as int), row as int, column as int, result));
                assert(self@.row_folds_to(step, row as int, column as int + 1 - 1, start, before));
                column += 1;
            }
            assert(self@.folds_to(step, row as int + 1 - 1, init, start));
            row += 1;
        }
        result
    }

    /// Folds `f` along each row, starting from `init` in every row: cell
    /// `(r, 0)` of the result is what the fold of row `r` yields.
    pub fn reduce_rows_with_index<F, B: Copy>(&self, init: B, f: F) -> (m: Matrix<B>) where
        F: Fn(B, T, usize, usize) -> B,

        requires
            self.wf(),
            forall|r: int, c: int, acc: B|
                self@.has(r, c) && self@.row_folds_to(indexed_step(f), r, c, init, acc)
                    ==> call_requires(f, (acc, self@.at(r, c), r as usize, c as usize)),
        ensures
            m.wf(),
            m.rows == self.rows,
            m.columns == 1,
            forall|r: int|
                0 <= r < self.rows ==> self@.row_folds_to(
                    indexed_step(f),
                    r,
                    self.columns as int,
                    init,
                    #[trigger] m@.at(r, 0),
                ),
    {
        let ghost step = indexed_step(f);
        let mut elems: Vec<B> = Vec::new();
        let mut row: usize = 0;
        while row < self.rows
            invariant
                self.wf(),
                step == indexed_step(f),
                row <= self.rows,
                elems.len() == row,
                forall|r: int|
                    0 <= r < row ==> self@.row_folds_to(
                        step,
                        r,
                        self.columns as int,
                        init,
                        #[trigger] elems@[r],
                    ),
                forall|r: int, c: int, acc: B|
                    self@.has(r, c) && self@.row_folds_to(indexed_step(f), r, c, init, acc)
                        ==> call_requires(f, (acc, self@.at(r, c), r as usize, c as usize)),
            decreases self.rows - row,
        {
            let mut result = init;
            let mut column: usize = 0;
            while column < self.columns
                invariant
                    self.wf(),
                    step == indexed_step(f),
                    row < self.rows,
                    column <= self.columns,
                    self@.row_folds_to(step, row as int, column as int, init, result),
                    forall|r: int, c: int, acc: B|
                        self@.has(r, c) && self@.row_folds_to(indexed_step(f), r, c, init, acc)
                            ==> call_requires(f, (acc, self@.at(r, c), r as usize, c as usize)),
                decreases self.columns - column,
            {
                let ghost before = result;
                assert(self@.has(row as int, column as int));
                result = f(result, self.at(row, column), row, column);
                assert(step(before, self@.at(row as int, column as int), row as int, column as int, result));
                assert(self@.row_folds_to(step, row as int, column as int + 1 - 1, init, before));
                column += 1;
            }
            elems.push(result);
            row += 1;
        }
        assert(self.rows * 1 == elems.len()) by (nonlinear_arith)
            requires
                self.rows == elems.len(),
        ;
        let m = Matrix::new_from(self.rows, 1, elems);
        proof {
            assert forall|r: int| 0 <= r < self.rows implies self@.row_folds_to(
                indexed_step(f),
                r,
                self.columns as int,
                init,
                #[trigger] m@.at(r, 0),
            ) by {
                assert(r * 1 + 0 == r) by (nonlinear_arith);
                assert(m@.at(r, 0) == elems@[r]);
            }
        }
        m
    }

    /// Folds `f` along each row, starting from `init` in every row.
    pub fn reduce_rows<F, B: Copy>(&self, init: B, f: F) -> (m: Matrix<B>) where
        F: Fn(B, T) -> B,

        requires
            self.wf(),
            forall|r: int, c: int, acc: B|
                self@.has(r, c) && self@.row_folds_to(plain_step(f), r, c, init, acc)
                    ==> call_requires(f, (acc, self@.at(r, c))),
        ensures
            m.wf(),
            m.rows == self.rows,
            m.columns == 1,
            forall|r: int|
                0 <= r < self.rows ==> self@.row_folds_to(
                    plain_step(f),
                    r,
                    self.columns as int,
                    init,
                    #[trigger] m@.at(r, 0),
                ),
    {
        let fr = &f;
        let g = |acc: B, cell: T, row: usize, column: usize| -> (next: B)
            requires
                call_requires(fr, (acc, cell)),
            ensures
                call_ensures(fr, (acc, cell), next),
            { fr(acc, cell) };
        proof {
            assert forall|r: int, c: int, acc: B|
                self@.has(r, c) && self@.row_folds_to(
                    indexed_step(g),
                    r,
                    c,
                    init,
                    acc,
                ) implies call_requires(g, (acc, self@.at(r, c), r as usize, c as usize)) by {
                self@.lemma_row_fold_widens(indexed_step(g), plain_step(f), r, c, init, acc);
            }
        }
        let m = self.reduce_rows_with_index(init, g);
        proof {
            assert forall|r: int| 0 <= r < self.rows implies self@.row_folds_to(
                plain_step(f),
                r,
                self.columns as int,
                init,
                #[trigger] m@.at(r, 0),
            ) by {
                self@.lemma_row_fold_widens(
                    indexed_step(g),
                    plain_step(f),
                    r,
                    self.columns as int,
                    init,
                    m@.at(r, 0),
                );
            }
        }
        m
    }

    /// Folds `f` down each column, starting from `init` in every column.
    pub fn reduce_columns<F, B: Copy>(&self, init: B, f: F) -> (m: Matrix<B>) where
        F: Fn(B, T) -> B,

        requires
            self.wf(),
            forall|r: int, c: int, acc: B|
                self@.has(r, c) && self@.column_folds_to(plain_step(f), c, r, init, acc)
                    ==> call_requires(f, (acc, self@.at(r, c))),
        ensures
            m.wf(),
            m.rows == 1,
            m.columns == self.columns,
            forall|c: int|
                0 <= c < self.columns ==> self@.column_folds_to(
                    plain_step(f),
                    c,
                    self.rows as int,
                    init,
                    #[trigger] m@.at(0, c),
                ),
    {
        let fr = &f;
        let g = |acc: B, cell: T, row: usize, column: usize| -> (next: B)
            requires
                call_requires(fr, (acc, cell)),
            ensures
                call_ensures(fr, (acc, cell), next),
            { fr(acc, cell) };
        proof {
            assert forall|r: int, c: int, acc: B|
                self@.has(r, c) && self@.column_folds_to(
                    indexed_step(g),
                    c,
                    r,
                    init,
                    acc,
                ) implies call_requires(g, (acc, self@.at(r, c), r as usize, c as usize)) by {
                self@.lemma_column_fold_widens(indexed_step(g), plain_step(f), c, r, init, acc);
            }
        }
        let m = self.reduce_columns_with_index(init, g);
        proof {
            assert forall|c: int| 0 <= c < self.columns implies self@.column_folds_to(
                plain_step(f),
                c,
                self.rows as int,
                init,
                #[trigger] m@.at(0, c),
            ) by {
                self@.lemma_column_fold_widens(
                    indexed_step(g),
                    plain_step(f),
                    c,
                    self.rows as int,
                    init,
                    m@.at(0, c),
                );
            }
        }
        m
    }

    /// Folds `f` down each column, starting from `init` in every column: cell
    /// `(0, c)` of the result is what the fold of column `c` yields.
    pub fn reduce_columns_with_index<F, B: Copy>(&self, init: B, f: F) -> (m: Matrix<B>) where
        F: Fn(B, T, usize, usize) -> B,

        requires
            self.wf(),
            forall|r: int, c: int, acc: B|
                self@.has(r, c) && self@.column_folds_to(indexed_step(f), c, r, init, acc)
                    ==> call_requires(f, (acc, self@.at(r, c), r as usize, c as usize)),
        ensures
            m.wf(),
            m.rows == 1,
            m.columns == self.columns,
            forall|c: int|
                0 <= c < self.columns ==> self@.column_folds_to(
                    indexed_step(f),
                    c,
                    self.rows as int,
                    init,
                    #[trigger] m@.at(0, c),
                ),
    {
        let ghost step = indexed_step(f);
        let mut elems: Vec<B> = Vec::new();
        let mut column: usize = 0;
        while column < self.columns
            invariant
                self.wf(),
                step == indexed_step(f),
                column <= self.columns,
                elems.len() == column,
                forall|c: int|
                    0 <= c < column ==> self@.column_folds_to(
                        step,
                        c,
                        self.rows as int,
                        init,
                        #[trigger] elems@[c],
                    ),
                forall|r: int, c: int, acc: B|
                    self@.has(r, c) && self@.column_folds_to(indexed_step(f), c, r, init, acc)
                        ==> call_requires(f, (acc, self@.at(r, c), r as usize, c as usize)),
            decreases self.columns - column,
        {
            let mut result = init;
            let mut row: usize = 0;
            while row < self.rows
                invariant
                    self.wf(),
                    step == indexed_step(f),
                    column < self.columns,
                    row <= self.rows,
                    self@.column_folds_to(step, column as int, row as int, init, result),
                    forall|r: int, c: int, acc: B|
                        self@.has(r, c) && self@.column_folds_to(indexed_step(f), c, r, init, acc)
                            ==> call_requires(f, (acc, self@.at(r, c), r as usize, c as usize)),
                decreases self.rows - row,
            {
                let ghost before = result;
                assert(self@.has(row as int, column as int));
                result = f(result, self.at(row, column), row, column);
                assert(step(before, self@.at(row as int, column as int), row as int, column as int, result));
                assert(self@.column_folds_to(step, column as int, row as int + 1 - 1, init, before));
                row += 1;
            }
            elems.push(result);
            column += 1;
        }
        assert(1 * self.columns == elems.len()) by (nonlinear_arith)
            requires
                self.columns == elems.len(),
        ;
        let m = Matrix::new_from(1, self.columns, elems);
        proof {
            assert forall|c: int| 0 <= c < self.columns implies self@.column_folds_to(
                indexed_step(f),
                c,
                self.rows as int,
                init,
                #[trigger] m@.at(0, c),
            ) by {
                assert(0 * (self.columns as int) + c == c) by (nonlinear_arith);
                assert(m@.at(0, c) == elems@[c]);
            }
        }
        m
    }

    /// The matrix of what `f` returns for each cell.
    pub fn transform<F, B: Default + Clone>(&self, f: F) -> (m: Matrix<B>) where F: Fn(T) -> B
        requires
            self.wf(),
            forall|r: int, c: int| self@.has(r, c) ==> call_requires(f, (#[trigger] self@.at(r, c),)),
        ensures
            m.wf(),
            m.rows == self.rows,
            m.columns == self.columns,
            forall|r: int, c: int|
                self@.has(r, c) ==> call_ensures(f, (self@.at(r, c),), #[trigger] m@.at(r, c)),
    {
        let fr = &f;
        let g = |cell: T, row: usize, column: usize| -> (next: B)
            requires
                call_requires(fr, (cell,)),
            ensures
                call_ensures(fr, (cell,), next),
            { fr(cell) };
        self.transform_with_index(g)
    }

    /// The matrix of what `f` returns for each cell and its row and column.
    pub fn transform_with_index<F, B: Default + Clone>(&self, f: F) -> (m: Matrix<B>) where
        F: Fn(T, usize, usize) -> B,

        requires
            self.wf(),
            forall|r: int, c: int|
                self@.has(r, c) ==> call_requires(
                    f,
                    (#[trigger] self@.at(r, c), r as usize, c as usize),
                ),
        ensures
            m.wf(),
            m.rows == self.rows,
            m.columns == self.columns,
            forall|r: int, c: int|
                self@.has(r, c) ==> call_ensures(
                    f,
                    (self@.at(r, c), r as usize, c as usize),
                    #[trigger] m@.at(r, c),
                ),
    {
        let fr = &f;
        let cell = |r: usize, c: usize| -> (v: B)
            requires
                r < self.rows,
                c < self.columns,
            ensures
                call_ensures(fr, (self@.at(r as int, c as int), r, c), v),
            {
                assert(self@.has(r as int, c as int));
                fr(self.at(r, c), r, c)
            };
        let m = Matrix::tabulate(self.rows, self.columns, cell);
        proof {
            assert forall|r: int, c: int| self@.has(r, c) implies call_ensures(
                f,
                (self@.at(r, c), r as usize, c as usize),
                #[trigger] m@.at(r, c),
            ) by {
                assert(call_ensures(cell, (r as usize, c as usize), m@.at(r, c)));
            }
        }
        m
    }
}

} // verus!
