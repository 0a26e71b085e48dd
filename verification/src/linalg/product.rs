//! The matrix product by the row-times-column rule: what it is, when the
//! element type can compute it, and the triple loop that does.

use crate::linalg::grid::Grid;
use crate::linalg::matrix::{is_default, Matrix};
use core::ops::{Add, Mul};
use vstd::pervasive::runtime_assert;
use vstd::prelude::*;
use vstd::std_specs::ops::{AddSpec, MulSpec};

verus! {

impl<T: Add<Output = T> + Mul<Output = T>> Grid<T> {
    /// The products of the first `upto` cells of row `i` of `self` with the
    /// cells of column `j` of `other` at their places, added up from `zero`
    /// from left to right.
    pub open spec fn dot(self, other: Grid<T>, zero: T, i: int, j: int, upto: int) -> T
        decreases upto,
    {
        if upto <= 0 {
            zero
        } else {
            self.dot(other, zero, i, j, upto - 1).add_spec(
                self.at(i, upto - 1).mul_spec(other.at(upto - 1, j)),
            )
        }
    }

    /// The element type can make every multiplication and addition of
    /// `dot(other, zero, i, j, upto)`.
    pub open spec fn dot_defined(self, other: Grid<T>, zero: T, i: int, j: int, upto: int) -> bool
        decreases upto,
    {
        upto <= 0 || {
            &&& self.dot_defined(other, zero, i, j, upto - 1)
            &&& self.at(i, upto - 1).mul_req(other.at(upto - 1, j))
            &&& self.dot(other, zero, i, j, upto - 1).add_req(
                self.at(i, upto - 1).mul_spec(other.at(upto - 1, j)),
            )
        }
    }

    /// The matrix product: cell `(i, j)` is row `i` of `self` times column `j`
    /// of `other`, added up from `zero`.
    pub open spec fn product(self, other: Grid<T>, zero: T) -> Grid<T> {
        Self::build(
            self.rows,
            other.columns,
            |i: int, j: int| self.dot(other, zero, i, j, self.columns as int),
        )
    }

    /// The element type can compute every cell of `product(other, zero)`.
    pub open spec fn product_defined(self, other: Grid<T>, zero: T) -> bool {
        forall|i: int, j: int|
            0 <= i < self.rows && 0 <= j < other.columns ==> #[trigger] self.dot_defined(
                other,
                zero,
                i,
                j,
                self.columns as int,
            )
    }

    /// What can be computed up to `upto` can be computed up to any `k` before it.
    pub proof fn lemma_dot_defined_prefix(
        self,
        other: Grid<T>,
        zero: T,
        i: int,
        j: int,
        upto: int,
        k: int,
    )
        requires
            self.dot_defined(other, zero, i, j, upto),
            k <= upto,
        ensures
            self.dot_defined(other, zero, i, j, k),
        decreases upto,
    {
        if k < upto && upto > 0 {
            self.lemma_dot_defined_prefix(other, zero, i, j, upto - 1, k);
        }
    }
}

impl<T: Default + Copy + Add<Output = T> + Mul<Output = T>> Matrix<T> {
    /// The matrix product of `self` and `other`, by the triple loop, with the
    /// sums started from `T::default()`.
    pub fn matmul(&self, other: &Matrix<T>) -> (m: Matrix<T>)
        requires
            self.wf(),
            other.wf(),
            self.columns == other.rows,
            self.rows * other.columns <= usize::MAX,
            T::obeys_add_spec(),
            T::obeys_mul_spec(),
            forall|zero: T| is_default(zero) ==> self@.product_defined(other@, zero),
        ensures
            m.wf(),
            m.rows == self.rows,
            m.columns == other.columns,
            exists|zero: T| is_default(zero) && m@ == self@.product(other@, zero),
    {
        let zero = T::default();
        let m = self.matmul_from(other, zero);
        assert(is_default(zero) && m@ == self@.product(other@, zero));
        m
    }

    /// The matrix product of `self` and `other`, by the triple loop, with the
    /// sums started from `zero`.
    pub fn matmul_from(&self, other: &Matrix<T>, zero: T) -> (m: Matrix<T>)
        requires
            self.wf(),
            other.wf(),
            self.columns == other.rows,
            self.rows * other.columns <= usize::MAX,
            T::obeys_add_spec(),
            T::obeys_mul_spec(),
            self@.product_defined(other@, zero),
        ensures
            m.wf(),
            m.rows == self.rows,
            m.columns == other.columns,
            m@ == self@.product(other@, zero),
    {
        runtime_assert(self.columns == other.rows);
        let cell = |row: usize, col: usize| -> (v: T)
            requires
                row < self.rows,
                col < other.columns,
                self@.dot_defined(other@, zero, row as int, col as int, self.columns as int),
            ensures
                v == self@.dot(other@, zero, row as int, col as int, self.columns as int),
            {
                let mut v_ij = zero;
                let mut k: usize = 0;
                while k < self.columns
                    invariant
                        self.wf(),
                        other.wf(),
                        self.columns == other.rows,
                        row < self.rows,
                        col < other.columns,
                        k <= self.columns,
                        T::obeys_add_spec(),
                        T::obeys_mul_spec(),
                        self@.dot_defined(
                            other@,
                            zero,
                            row as int,
                            col as int,
                            self.columns as int,
                        ),
                        v_ij == self@.dot(other@, zero, row as int, col as int, k as int),
                    decreases self.columns - k,
                {
                    proof {
                        self@.lemma_dot_defined_prefix(
                            other@,
                            zero,
                            row as int,
                            col as int,
                            self.columns as int,
                            k as int + 1,
                        );
                    }
                    v_ij = v_ij + self.at(row, k) * other.at(k, col);
                    k += 1;
                }
                v_ij
            };
        assert forall|r: usize, c: usize| r < self.rows && c < other.columns implies call_requires(
            cell,
            (r, c),
        ) by {
            assert(0 <= r as int && (r as int) < self@.rows);
            assert(0 <= c as int && (c as int) < other@.columns);
            assert(self@.dot_defined(other@, zero, r as int, c as int, self@.columns as int));
        }
        let m = Matrix::tabulate(self.rows, other.columns, cell);
        proof {
            let expected = self@.product(other@, zero);
            assert forall|r: int, c: int| m@.has(r, c) implies m@.at(r, c) == expected.at(
                r,
                c,
            ) by {
                assert(call_ensures(cell, (r as usize, c as usize), m@.at(r, c)));
            }
            m@.lemma_equal_by_cells(expected);
        }
        m
    }
}

} // verus!
