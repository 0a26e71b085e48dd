//! Strassen's divide-and-conquer product: seven half-size products in place of
//! eight, for square operands of even dimension at or above `MIN_SIZE`, and the
//! triple loop for all others.
//!
//! The seven products of one split do not depend on one another. This module
//! computes them one after another; `spawns_threads` tells a caller that hands
//! them to workers at which depths of the recursion to do so, and
//! `operand_pairs` and `combine` are the steps before and after the hand-off.

use crate::linalg::grid::Grid;
use crate::linalg::matrix::{is_default, Matrix};
use core::ops::{Add, Mul, Sub};
use vstd::arithmetic::logarithm::{
    lemma_log_is_ordered, lemma_log_nonnegative, lemma_log_pow, lemma_log_s, log,
};
use vstd::arithmetic::power2::{lemma2_to64, lemma_pow2, pow2};
use vstd::prelude::*;
use vstd::std_specs::ops::{AddSpec, MulSpec, SubSpec};

verus! {

/// Operands with fewer rows than this are multiplied by the triple loop.
pub const MIN_SIZE: usize = 64;

/// The deepest level of the recursion at which the seven products are handed
/// to workers; the first split is at depth 1.
pub const THREAD_MAX_DEPTH: u8 = 1;

/// Whether the product of `a` and `b` is split into seven half-size products:
/// both are square, of one even dimension, which is at least `MIN_SIZE`.
pub open spec fn recurses<T>(a: Grid<T>, b: Grid<T>) -> bool {
    &&& a.rows >= MIN_SIZE
    &&& a.rows % 2 == 0
    &&& a.columns == a.rows
    &&& b.rows == a.rows
    &&& b.columns == a.rows
}

/// The left operand of the `k`-th of the seven products, `k` from 1 to 7, of a
/// matrix with quadrants `a11`, `a12`, `a21`, `a22`.
pub open spec fn left_operand<T: Add<Output = T> + Sub<Output = T>>(
    a11: Grid<T>,
    a12: Grid<T>,
    a21: Grid<T>,
    a22: Grid<T>,
    k: int,
) -> Grid<T> {
    if k == 1 {
        a11.sum(a22)
    } else if k == 2 {
        a21.sum(a22)
    } else if k == 3 {
        a11
    } else if k == 4 {
        a22
    } else if k == 5 {
        a11.sum(a12)
    } else if k == 6 {
        a21.difference(a11)
    } else {
        a12.difference(a22)
    }
}

/// The right operand of the `k`-th of the seven products, `k` from 1 to 7, of
/// a matrix with quadrants `b11`, `b12`, `b21`, `b22`.
pub open spec fn right_operand<T: Add<Output = T> + Sub<Output = T>>(
    b11: Grid<T>,
    b12: Grid<T>,
    b21: Grid<T>,
    b22: Grid<T>,
    k: int,
) -> Grid<T> {
    if k == 1 {
        b11.sum(b22)
    } else if k == 2 {
        b11
    } else if k == 3 {
        b12.difference(b22)
    } else if k == 4 {
        b21.difference(b11)
    } else if k == 5 {
        b22
    } else if k == 6 {
        b11.sum(b12)
    } else {
        b21.sum(b22)
    }
}

/// The element type can compute the five sums and differences of quadrants
/// that the left operands need.
pub open spec fn left_operands_defined<T: Add<Output = T> + Sub<Output = T>>(
    a11: Grid<T>,
    a12: Grid<T>,
    a21: Grid<T>,
    a22: Grid<T>,
) -> bool {
    &&& a11.sum_defined(a22)
    &&& a21.sum_defined(a22)
    &&& a11.sum_defined(a12)
    &&& a21.difference_defined(a11)
    &&& a12.difference_defined(a22)
}

/// The element type can compute the five sums and differences of quadrants
/// that the right operands need.
pub open spec fn right_operands_defined<T: Add<Output = T> + Sub<Output = T>>(
    b11: Grid<T>,
    b12: Grid<T>,
    b21: Grid<T>,
    b22: Grid<T>,
) -> bool {
    &&& b11.sum_defined(b22)
    &&& b12.difference_defined(b22)
    &&& b21.difference_defined(b11)
    &&& b11.sum_defined(b12)
    &&& b21.sum_defined(b22)
}

/// The product put together from the seven products:
/// `C11 = M1 + M4 - M5 + M7`, `C12 = M3 + M5`, `C21 = M2 + M4`,
/// `C22 = M1 - M2 + M3 + M6`.
pub open spec fn combined<T: Add<Output = T> + Sub<Output = T>>(
    m1: Grid<T>,
    m2: Grid<T>,
    m3: Grid<T>,
    m4: Grid<T>,
    m5: Grid<T>,
    m6: Grid<T>,
    m7: Grid<T>,
) -> Grid<T> {
    Grid::assemble(
        m1.sum(m4).difference(m5).sum(m7),
        m3.sum(m5),
        m2.sum(m4),
        m1.difference(m2).sum(m3).sum(m6),
    )
}

/// The element type can compute every sum and difference of `combined`.
pub open spec fn combined_defined<T: Add<Output = T> + Sub<Output = T>>(
    m1: Grid<T>,
    m2: Grid<T>,
    m3: Grid<T>,
    m4: Grid<T>,
    m5: Grid<T>,
    m6: Grid<T>,
    m7: Grid<T>,
) -> bool {
    &&& m1.sum_defined(m4)
    &&& m1.sum(m4).difference_defined(m5)
    &&& m1.sum(m4).difference(m5).sum_defined(m7)
    &&& m3.sum_defined(m5)
    &&& m2.sum_defined(m4)
    &&& m1.difference_defined(m2)
    &&& m1.difference(m2).sum_defined(m3)
    &&& m1.difference(m2).sum(m3).sum_defined(m6)
}

/// What the divide-and-conquer routine computes for `a` and `b`, with the sums
/// of the triple loop started from `zero`.
pub open spec fn strassen_product<T: Add<Output = T> + Sub<Output = T> + Mul<Output = T>>(
    a: Grid<T>,
    b: Grid<T>,
    zero: T,
) -> Grid<T>
    decreases a.rows,
{
    if !recurses(a, b) {
        a.product(b, zero)
    } else {
        let h = a.rows / 2;
        let a11 = a.block(0, 0, h, h);
        let a12 = a.block(0, h as int, h, h);
        let a21 = a.block(h as int, 0, h, h);
        let a22 = a.block(h as int, h as int, h, h);
        let b11 = b.block(0, 0, h, h);
        let b12 = b.block(0, h as int, h, h);
        let b21 = b.block(h as int, 0, h, h);
        let b22 = b.block(h as int, h as int, h, h);
        combined(
            strassen_product(
                left_operand(a11, a12, a21, a22, 1),
                right_operand(b11, b12, b21, b22, 1),
                zero,
            ),
            strassen_product(
                left_operand(a11, a12, a21, a22, 2),
                right_operand(b11, b12, b21, b22, 2),
                zero,
            ),
            strassen_product(
                left_operand(a11, a12, a21, a22, 3),
                right_operand(b11, b12, b21, b22, 3),
                zero,
            ),
            strassen_product(
                left_operand(a11, a12, a21, a22, 4),
                right_operand(b11, b12, b21, b22, 4),
                zero,
            ),
            strassen_product(
                left_operand(a11, a12, a21, a22, 5),
                right_operand(b11, b12, b21, b22, 5),
                zero,
            ),
            strassen_product(
                left_operand(a11, a12, a21, a22, 6),
                right_operand(b11, b12, b21, b22, 6),
                zero,
            ),
            strassen_product(
                left_operand(a11, a12, a21, a22, 7),
                right_operand(b11, b12, b21, b22, 7),
                zero,
            ),
        )
    }
}

/// The element type can make every operation of the divide-and-conquer
/// routine on `a` and `b`: the sums and differences of quadrants, the seven
/// products in their turn, and the sums and differences that combine them.
pub open spec fn strassen_defined<T: Add<Output = T> + Sub<Output = T> + Mul<Output = T>>(
    a: Grid<T>,
    b: Grid<T>,
    zero: T,
) -> bool
    decreases a.rows,
{
    if !recurses(a, b) {
        a.product_defined(b, zero)
    } else {
        let h = a.rows / 2;
        let a11 = a.block(0, 0, h, h);
        let a12 = a.block(0, h as int, h, h);
        let a21 = a.block(h as int, 0, h, h);
        let a22 = a.block(h as int, h as int, h, h);
        let b11 = b.block(0, 0, h, h);
        let b12 = b.block(0, h as int, h, h);
        let b21 = b.block(h as int, 0, h, h);
        let b22 = b.block(h as int, h as int, h, h);
        &&& left_operands_defined(a11, a12, a21, a22)
        &&& right_operands_defined(b11, b12, b21, b22)
        &&& strassen_defined(
            left_operand(a11, a12, a21, a22, 1),
            right_operand(b11, b12, b21, b22, 1),
            zero,
        )
        &&& strassen_defined(
            left_operand(a11, a12, a21, a22, 2),
            right_operand(b11, b12, b21, b22, 2),
            zero,
        )
        &&& strassen_defined(
            left_operand(a11, a12, a21, a22, 3),
            right_operand(b11, b12, b21, b22, 3),
            zero,
        )
        &&& strassen_defined(
            left_operand(a11, a12, a21, a22, 4),
            right_operand(b11, b12, b21, b22, 4),
            zero,
        )
        &&& strassen_defined(
            left_operand(a11, a12, a21, a22, 5),
            right_operand(b11, b12, b21, b22, 5),
            zero,
        )
        &&& strassen_defined(
            left_operand(a11, a12, a21, a22, 6),
            right_operand(b11, b12, b21, b22, 6),
            zero,
        )
        &&& strassen_defined(
            left_operand(a11, a12, a21, a22, 7),
            right_operand(b11, b12, b21, b22, 7),
            zero,
        )
        &&& combined_defined(
            nth_product(a11, a12, a21, a22, b11, b12, b21, b22, zero, 1),
            nth_product(a11, a12, a21, a22, b11, b12, b21, b22, zero, 2),
            nth_product(a11, a12, a21, a22, b11, b12, b21, b22, zero, 3),
            nth_product(a11, a12, a21, a22, b11, b12, b21, b22, zero, 4),
            nth_product(a11, a12, a21, a22, b11, b12, b21, b22, zero, 5),
            nth_product(a11, a12, a21, a22, b11, b12, b21, b22, zero, 6),
            nth_product(a11, a12, a21, a22, b11, b12, b21, b22, zero, 7),
        )
    }
}

/// The `k`-th of the seven products of the quadrants given, `k` from 1 to 7.
pub open spec fn nth_product<T: Add<Output = T> + Sub<Output = T> + Mul<Output = T>>(
    a11: Grid<T>,
    a12: Grid<T>,
    a21: Grid<T>,
    a22: Grid<T>,
    b11: Grid<T>,
    b12: Grid<T>,
    b21: Grid<T>,
    b22: Grid<T>,
    zero: T,
    k: int,
) -> Grid<T> {
    strassen_product(
        left_operand(a11, a12, a21, a22, k),
        right_operand(b11, b12, b21, b22, k),
        zero,
    )
}

/// The element type can compute the seven products of the quadrants given,
/// and combine them.
pub open spec fn products_defined<T: Add<Output = T> + Sub<Output = T> + Mul<Output = T>>(
    a11: Grid<T>,
    a12: Grid<T>,
    a21: Grid<T>,
    a22: Grid<T>,
    b11: Grid<T>,
    b12: Grid<T>,
    b21: Grid<T>,
    b22: Grid<T>,
    zero: T,
) -> bool {
    &&& left_operands_defined(a11, a12, a21, a22)
    &&& right_operands_defined(b11, b12, b21, b22)
    &&& forall|k: int|
        1 <= k <= 7 ==> strassen_defined(
            #[trigger] left_operand(a11, a12, a21, a22, k),
            right_operand(b11, b12, b21, b22, k),
            zero,
        )
    &&& combined_defined(
        nth_product(a11, a12, a21, a22, b11, b12, b21, b22, zero, 1),
        nth_product(a11, a12, a21, a22, b11, b12, b21, b22, zero, 2),
        nth_product(a11, a12, a21, a22, b11, b12, b21, b22, zero, 3),
        nth_product(a11, a12, a21, a22, b11, b12, b21, b22, zero, 4),
        nth_product(a11, a12, a21, a22, b11, b12, b21, b22, zero, 5),
        nth_product(a11, a12, a21, a22, b11, b12, b21, b22, zero, 6),
        nth_product(a11, a12, a21, a22, b11, b12, b21, b22, zero, 7),
    )
}

/// The depth counter, which starts at `depth` on an operand of `rows` rows
/// and goes up by one at every split, stays within its type.
pub open spec fn depth_fits(depth: u8, rows: usize) -> bool {
    depth as int + log(2, rows as int) <= u8::MAX
}

/// A recursion that starts at depth 1 never exhausts the depth counter.
pub proof fn lemma_first_depth_fits(rows: usize)
    ensures
        depth_fits(1, rows),
{
    lemma2_to64();
    lemma_pow2(64);
    lemma_log_pow(2, 64);
    lemma_log_is_ordered(2, rows as int, pow2(64) as int);
}

/// One split lower the counter is one higher and the operands have half the
/// rows: the counter still fits.
pub proof fn lemma_next_depth_fits(depth: u8, rows: usize)
    requires
        depth_fits(depth, rows),
        rows >= 2,
    ensures
        depth < u8::MAX,
        depth_fits((depth + 1) as u8, (rows / 2) as usize),
{
    lemma_log_s(2, rows as int);
    lemma_log_nonnegative(2, rows as int / 2);
}

/// Whether the seven products of a split at `depth` are handed to workers:
/// only down to `THREAD_MAX_DEPTH`, so that no more than seven run at a time.
pub fn spawns_threads(depth: u8) -> (parallel: bool)
    ensures
        parallel == (depth <= THREAD_MAX_DEPTH),
{
    depth <= THREAD_MAX_DEPTH
}

impl<T: Copy> Matrix<T> {
    /// An owned copy of the `rows` by `columns` block whose first cell is
    /// `(top, left)`.
    pub fn block(&self, top: usize, left: usize, rows: usize, columns: usize) -> (m: Matrix<T>)
        requires
            self.wf(),
            top + rows <= self.rows,
            left + columns <= self.columns,
        ensures
            m.wf(),
            m.rows == rows,
            m.columns == columns,
            m@ == self@.block(top as int, left as int, rows as nat, columns as nat),
    {
        proof {
            assert(rows * columns <= self.rows * self.columns) by (nonlinear_arith)
                requires
                    rows <= self.rows,
                    columns <= self.columns,
            ;
        }
        let cell = |r: usize, c: usize| -> (v: T)
            requires
                r < rows,
                c < columns,
            ensures
                v == self@.at(top + r, left + c),
            { self.at(top + r, left + c) };
        let m = Self::tabulate(rows, columns, cell);
        proof {
            let expected = self@.block(top as int, left as int, rows as nat, columns as nat);
            assert forall|r: int, c: int| m@.has(r, c) implies m@.at(r, c) == expected.at(
                r,
                c,
            ) by {
                assert(call_ensures(cell, (r as usize, c as usize), m@.at(r, c)));
            }
            m@.lemma_equal_by_cells(expected);
        }
        m
    }

    /// The matrix made of four blocks: `c11` above `c21` on the left, `c12`
    /// above `c22` on the right.
    pub fn assemble(c11: &Matrix<T>, c12: &Matrix<T>, c21: &Matrix<T>, c22: &Matrix<T>) -> (m:
        Matrix<T>)
        requires
            c11.wf(),
            c12.wf(),
            c21.wf(),
            c22.wf(),
            c12.rows == c11.rows,
            c21.columns == c11.columns,
            c22.rows == c21.rows,
            c22.columns == c12.columns,
            c11.rows + c21.rows <= usize::MAX,
            c11.columns + c12.columns <= usize::MAX,
            (c11.rows + c21.rows) * (c11.columns + c12.columns) <= usize::MAX,
        ensures
            m.wf(),
            m.rows == c11.rows + c21.rows,
            m.columns == c11.columns + c12.columns,
            m@ == Grid::assemble(c11@, c12@, c21@, c22@),
    {
        let rows = c11.rows;
        let columns = c11.columns;
        let cell = |r: usize, c: usize| -> (v: T)
            requires
                r < c11.rows + c21.rows,
                c < c11.columns + c12.columns,
            ensures
                v == Grid::assemble(c11@, c12@, c21@, c22@).at(r as int, c as int),
            {
                if r < rows {
                    if c < columns {
                        c11.at(r, c)
                    } else {
                        c12.at(r, c - columns)
                    }
                } else {
                    if c < columns {
                        c21.at(r - rows, c)
                    } else {
                        c22.at(r - rows, c - columns)
                    }
                }
            };
        let m = Self::tabulate(c11.rows + c21.rows, c11.columns + c12.columns, cell);
        proof {
            let expected = Grid::assemble(c11@, c12@, c21@, c22@);
            assert forall|r: int, c: int| m@.has(r, c) implies m@.at(r, c) == expected.at(
                r,
                c,
            ) by {
                assert(call_ensures(cell, (r as usize, c as usize), m@.at(r, c)));
            }
            m@.lemma_equal_by_cells(expected);
        }
        m
    }
}

/// Puts the product together from the seven products.
pub fn combine<T>(
    m1: &Matrix<T>,
    m2: &Matrix<T>,
    m3: &Matrix<T>,
    m4: &Matrix<T>,
    m5: &Matrix<T>,
    m6: &Matrix<T>,
    m7: &Matrix<T>,
) -> (m: Matrix<T>) where T: Copy + Add<Output = T> + Sub<Output = T>
    requires
        m1.wf() && m2.wf() && m3.wf() && m4.wf() && m5.wf() && m6.wf() && m7.wf(),
        m1@.same_shape(m2@) && m1@.same_shape(m3@) && m1@.same_shape(m4@),
        m1@.same_shape(m5@) && m1@.same_shape(m6@) && m1@.same_shape(m7@),
        T::obeys_add_spec(),
        T::obeys_sub_spec(),
        combined_defined(m1@, m2@, m3@, m4@, m5@, m6@, m7@),
        2 * m1.rows <= usize::MAX,
        2 * m1.columns <= usize::MAX,
        (2 * m1.rows) * (2 * m1.columns) <= usize::MAX,
    ensures
        m.wf(),
        m.rows == 2 * m1.rows,
        m.columns == 2 * m1.columns,
        m@ == combined(m1@, m2@, m3@, m4@, m5@, m6@, m7@),
{
    let c11 = m1.add(m4).sub(m5).add(m7);
    let c12 = m3.add(m5);
    let c21 = m2.add(m4);
    let c22 = m1.sub(m2).add(m3).add(m6);
    Matrix::assemble(&c11, &c12, &c21, &c22)
}

/// The operands of the seven products as matrices of their own, the `k`-th
/// pair at place `k - 1`: what a caller needs to hand each product to a worker
/// that owns its operands.
pub fn operand_pairs<T>(
    a11: &Matrix<T>,
    a12: &Matrix<T>,
    a21: &Matrix<T>,
    a22: &Matrix<T>,
    b11: &Matrix<T>,
    b12: &Matrix<T>,
    b21: &Matrix<T>,
    b22: &Matrix<T>,
) -> (pairs: Vec<(Matrix<T>, Matrix<T>)>) where T: Copy + Add<Output = T> + Sub<Output = T>
    requires
        a11.wf() && a12.wf() && a21.wf() && a22.wf(),
        b11.wf() && b12.wf() && b21.wf() && b22.wf(),
        a11@.same_shape(a12@) && a11@.same_shape(a21@) && a11@.same_shape(a22@),
        b11@.same_shape(b12@) && b11@.same_shape(b21@) && b11@.same_shape(b22@),
        T::obeys_add_spec(),
        T::obeys_sub_spec(),
        left_operands_defined(a11@, a12@, a21@, a22@),
        right_operands_defined(b11@, b12@, b21@, b22@),
    ensures
        pairs.len() == 7,
        forall|k: int|
            1 <= k <= 7 ==> {
                &&& (#[trigger] pairs[k - 1]).0.wf()
                &&& pairs[k - 1].1.wf()
                &&& pairs[k - 1].0@.same_shape(a11@)
                &&& pairs[k - 1].1@.same_shape(b11@)
                &&& pairs[k - 1].0@ == left_operand(a11@, a12@, a21@, a22@, k)
                &&& pairs[k - 1].1@ == right_operand(b11@, b12@, b21@, b22@, k)
            },
{
    let mut pairs: Vec<(Matrix<T>, Matrix<T>)> = Vec::new();
    pairs.push((a11.add(a22), b11.add(b22)));
    pairs.push((a21.add(a22), b11.clone()));
    pairs.push((a11.clone(), b12.sub(b22)));
    pairs.push((a22.clone(), b21.sub(b11)));
    pairs.push((a11.add(a12), b22.clone()));
    pairs.push((a21.sub(a11), b11.add(b12)));
    pairs.push((a12.sub(a22), b21.add(b22)));
    pairs
}

/// The seven products of the quadrants given, each by the divide-and-conquer
/// routine one level deeper, one after another.
pub fn mul_single_thread<T>(
    a11: &Matrix<T>,
    a12: &Matrix<T>,
    a21: &Matrix<T>,
    a22: &Matrix<T>,
    b11: &Matrix<T>,
    b12: &Matrix<T>,
    b21: &Matrix<T>,
    b22: &Matrix<T>,
    depth: u8,
    zero: T,
) -> (p: (Matrix<T>, Matrix<T>, Matrix<T>, Matrix<T>, Matrix<T>, Matrix<T>, Matrix<T>)) where
    T: Default + Copy + Add<Output = T> + Sub<Output = T> + Mul<Output = T>,

    requires
        a11.wf() && a12.wf() && a21.wf() && a22.wf(),
        b11.wf() && b12.wf() && b21.wf() && b22.wf(),
        a11.rows == a11.columns,
        a11@.same_shape(a12@) && a11@.same_shape(a21@) && a11@.same_shape(a22@),
        a11@.same_shape(b11@) && a11@.same_shape(b12@) && a11@.same_shape(b21@),
        a11@.same_shape(b22@),
        T::obeys_add_spec(),
        T::obeys_sub_spec(),
        T::obeys_mul_spec(),
        products_defined(a11@, a12@, a21@, a22@, b11@, b12@, b21@, b22@, zero),
        depth < u8::MAX,
        depth_fits((depth + 1) as u8, a11.rows),
    ensures
        p.0.wf() && p.1.wf() && p.2.wf() && p.3.wf() && p.4.wf() && p.5.wf() && p.6.wf(),
        a11@.same_shape(p.0@) && a11@.same_shape(p.1@) && a11@.same_shape(p.2@),
        a11@.same_shape(p.3@) && a11@.same_shape(p.4@) && a11@.same_shape(p.5@),
        a11@.same_shape(p.6@),
        p.0@ == nth_product(a11@, a12@, a21@, a22@, b11@, b12@, b21@, b22@, zero, 1),
        p.1@ == nth_product(a11@, a12@, a21@, a22@, b11@, b12@, b21@, b22@, zero, 2),
        p.2@ == nth_product(a11@, a12@, a21@, a22@, b11@, b12@, b21@, b22@, zero, 3),
        p.3@ == nth_product(a11@, a12@, a21@, a22@, b11@, b12@, b21@, b22@, zero, 4),
        p.4@ == nth_product(a11@, a12@, a21@, a22@, b11@, b12@, b21@, b22@, zero, 5),
        p.5@ == nth_product(a11@, a12@, a21@, a22@, b11@, b12@, b21@, b22@, zero, 6),
        p.6@ == nth_product(a11@, a12@, a21@, a22@, b11@, b12@, b21@, b22@, zero, 7),
    decreases a11.rows, 1nat,
{
    proof {
        assert forall|k: int| 1 <= k <= 7 implies strassen_defined(
            left_operand(a11@, a12@, a21@, a22@, k),
            right_operand(b11@, b12@, b21@, b22@, k),
            zero,
        ) by {
            let l = left_operand(a11@, a12@, a21@, a22@, k);
        }
    }
    let m1 = strassen_mul(&a11.add(a22), &b11.add(b22), depth + 1, zero);
    let m2 = strassen_mul(&a21.add(a22), b11, depth + 1, zero);
    let m3 = strassen_mul(a11, &b12.sub(b22), depth + 1, zero);
    let m4 = strassen_mul(a22, &b21.sub(b11), depth + 1, zero);
    let m5 = strassen_mul(&a11.add(a12), b22, depth + 1, zero);
    let m6 = strassen_mul(&a21.sub(a11), &b11.add(b12), depth + 1, zero);
    let m7 = strassen_mul(&a12.sub(a22), &b21.add(b22), depth + 1, zero);
    (m1, m2, m3, m4, m5, m6, m7)
}

/// The product of `matrix` and `other` by the divide-and-conquer routine, at
/// depth `depth` of the recursion, with the sums of the triple loop started
/// from `zero`.
pub fn strassen_mul<T>(matrix: &Matrix<T>, other: &Matrix<T>, depth: u8, zero: T) -> (m: Matrix<
    T,
>) where T: Default + Copy + Add<Output = T> + Sub<Output = T> + Mul<Output = T>
    requires
        matrix.wf(),
        other.wf(),
        matrix.columns == other.rows,
        matrix.rows * other.columns <= usize::MAX,
        T::obeys_add_spec(),
        T::obeys_sub_spec(),
        T::obeys_mul_spec(),
        strassen_defined(matrix@, other@, zero),
        depth_fits(depth, matrix.rows),
    ensures
        m.wf(),
        m.rows == matrix.rows,
        m.columns == other.columns,
        m@ == strassen_product(matrix@, other@, zero),
    decreases matrix.rows, 0nat,
{
    if matrix.rows < MIN_SIZE || matrix.rows % 2 != 0 || matrix.columns != matrix.rows
        || other.columns != matrix.rows {
        return matrix.matmul_from(other, zero);
    }
    let rows = matrix.rows / 2;
    let columns = matrix.columns / 2;

    let a11 = matrix.block(0, 0, rows, columns);
    let a12 = matrix.block(0, columns, rows, columns);
    let a21 = matrix.block(rows, 0, rows, columns);
    let a22 = matrix.block(rows, columns, rows, columns);

    let b11 = other.block(0, 0, rows, columns);
    let b12 = other.block(0, columns, rows, columns);
    let b21 = other.block(rows, 0, rows, columns);
    let b22 = other.block(rows, columns, rows, columns);

    proof {
        lemma_next_depth_fits(depth, matrix.rows);
        assert(recurses(matrix@, other@));
        assert(rows as nat == matrix@.rows / 2);
    }
    let (m1, m2, m3, m4, m5, m6, m7) = mul_single_thread(
        &a11,
        &a12,
        &a21,
        &a22,
        &b11,
        &b12,
        &b21,
        &b22,
        depth,
        zero,
    );
    combine(&m1, &m2, &m3, &m4, &m5, &m6, &m7)
}

/// The product of `matrix` and `other` by the divide-and-conquer routine.
pub fn mul<T>(matrix: &Matrix<T>, other: &Matrix<T>) -> (m: Matrix<T>) where
    T: Default + Copy + Add<Output = T> + Sub<Output = T> + Mul<Output = T> + Send + 'static,

    requires
        matrix.wf(),
        other.wf(),
        matrix.columns == other.rows,
        matrix.rows * other.columns <= usize::MAX,
        T::obeys_add_spec(),
        T::obeys_sub_spec(),
        T::obeys_mul_spec(),
        forall|zero: T| is_default(zero) ==> strassen_defined(matrix@, other@, zero),
    ensures
        m.wf(),
        m.rows == matrix.rows,
        m.columns == other.columns,
        exists|zero: T| is_default(zero) && m@ == strassen_product(matrix@, other@, zero),
{
    let zero = T::default();
    proof {
        lemma_first_depth_fits(matrix.rows);
    }
    let m = strassen_mul(matrix, other, 1, zero);
    assert(is_default(zero) && m@ == strassen_product(matrix@, other@, zero));
    m
}

} // verus!
