//! The elementwise engine: the four binary operations, cell by cell, in place
//! and as operators that build a new matrix.
//!
//! Every contract says two things of each cell of the result. It is a value
//! that the element type's own operator may return for the two operand cells:
//! that holds of every element type. And where the element type follows the
//! specification of its operator, it is the value that the specification
//! names: that pins the result down for the integer types.

use crate::linalg::matrix::Matrix;
use core::ops::{Add, Div, Mul, Sub};
use vstd::prelude::*;
use vstd::std_specs::ops::{AddSpec, DivSpec, MulSpec, SubSpec};

verus! {

impl<T: Copy> Matrix<T> {
    /// Replaces every cell of `self` by what `op` returns for it and the cell
    /// of `other` at its place.
    fn make_mut_op<F: Fn(T, T) -> T>(&mut self, other: &Matrix<T>, op: F)
        requires
            old(self).wf(),
            other.wf(),
            old(self)@.same_shape(other@),
            forall|r: int, c: int|
                old(self)@.has(r, c) ==> call_requires(
                    op,
                    (#[trigger] old(self)@.at(r, c), other@.at(r, c)),
                ),
        ensures
            final(self).wf(),
            final(self).rows == old(self).rows,
            final(self).columns == old(self).columns,
            forall|r: int, c: int|
                old(self)@.has(r, c) ==> call_ensures(
                    op,
                    (old(self)@.at(r, c), other@.at(r, c)),
                    #[trigger] final(self)@.at(r, c),
                ),
    {
        self.assert_same_size(other);
        let n = self.size();
        let ghost columns = self.columns as int;
        let mut i: usize = 0;
        while i < n
            invariant
                self.wf(),
                other.wf(),
                self.rows == old(self).rows,
                self.columns == old(self).columns,
                columns == self.columns,
                self@.same_shape(other@),
                n == self.elements.len(),
                i <= n,
                forall|k: int| i <= k < n ==> self.elements@[k] == old(self).elements@[k],
                forall|k: int|
                    0 <= k < i ==> call_ensures(
                        op,
                        (old(self).elements@[k], other.elements@[k]),
                        #[trigger] self.elements@[k],
                    ),
                forall|r: int, c: int|
                    old(self)@.has(r, c) ==> call_requires(
                        op,
                        (#[trigger] old(self)@.at(r, c), other@.at(r, c)),
                    ),
            decreases n - i,
        {
            proof {
                let r = i as int / columns;
                let c = i as int % columns;
                crate::linalg::matrix::lemma_offset_split(self.rows as int, columns, i as int);
                assert(old(self)@.has(r, c));
                assert(old(self)@.at(r, c) == old(self).elements@[i as int]);
                assert(other@.at(r, c) == other.elements@[i as int]);
            }
            let value = op(self.elements[i], other.elements[i]);
            self.elements.set(i, value);
            i += 1;
        }
        proof {
            assert forall|r: int, c: int| old(self)@.has(r, c) implies call_ensures(
                op,
                (old(self)@.at(r, c), other@.at(r, c)),
                #[trigger] self@.at(r, c),
            ) by {
                crate::linalg::matrix::lemma_offset_in_range(self.rows as int, columns, r, c);
                let k = r * columns + c;
                assert(self@.at(r, c) == self.elements@[k]);
                assert(old(self)@.at(r, c) == old(self).elements@[k]);
                assert(other@.at(r, c) == other.elements@[k]);
            }
        }
    }

    /// The matrix of what `op` returns for each cell of `self` and the cell of
    /// `other` at its place.
    fn make_op<F: Fn(T, T) -> T>(&self, other: &Matrix<T>, op: F) -> (m: Matrix<T>)
        requires
            self.wf(),
            other.wf(),
            self@.same_shape(other@),
            forall|r: int, c: int|
                self@.has(r, c) ==> call_requires(op, (#[trigger] self@.at(r, c), other@.at(r, c))),
        ensures
            m.wf(),
            m.rows == self.rows,
            m.columns == self.columns,
            forall|r: int, c: int|
                self@.has(r, c) ==> call_ensures(
                    op,
                    (self@.at(r, c), other@.at(r, c)),
                    #[trigger] m@.at(r, c),
                ),
    {
        let mut output = self.clone();
        output.make_mut_op(other, op);
        output
    }
}

impl<T: Add<Output = T> + Copy> Matrix<T> {
    /// Adds `other` to `self`, cell by cell.
    pub fn add_mut(&mut self, other: &Matrix<T>)
        requires
            old(self).wf(),
            other.wf(),
            old(self)@.same_shape(other@),
            old(self)@.sum_defined(other@),
        ensures
            final(self).wf(),
            final(self).rows == old(self).rows,
            final(self).columns == old(self).columns,
            T::obeys_add_spec() ==> final(self)@ == old(self)@.sum(other@),
            forall|r: int, c: int|
                old(self)@.has(r, c) ==> call_ensures(
                    T::add,
                    (old(self)@.at(r, c), other@.at(r, c)),
                    #[trigger] final(self)@.at(r, c),
                ),
    {
        let op = |a: T, b: T| -> (r: T)
            requires
                a.add_req(b),
            ensures
                T::obeys_add_spec() ==> r == a.add_spec(b),
                call_ensures(T::add, (a, b), r),
            { a + b };
        self.make_mut_op(other, op);
        proof {
            assert forall|r: int, c: int| old(self)@.has(r, c) implies call_ensures(
                T::add,
                (old(self)@.at(r, c), other@.at(r, c)),
                #[trigger] self@.at(r, c),
            ) by {
                assert(call_ensures(op, (old(self)@.at(r, c), other@.at(r, c)), self@.at(r, c)));
            }
            if T::obeys_add_spec() {
                let expected = old(self)@.sum(other@);
                assert forall|r: int, c: int| self@.has(r, c) implies self@.at(r, c)
                    == expected.at(r, c) by {
                    assert(call_ensures(
                        op,
                        (old(self)@.at(r, c), other@.at(r, c)),
                        self@.at(r, c),
                    ));
                }
                self@.lemma_equal_by_cells(expected);
            }
        }
    }

    /// The cell-wise sum, as a new matrix.
    pub fn add(&self, other: &Matrix<T>) -> (m: Matrix<T>)
        requires
            self.wf(),
            other.wf(),
            self@.same_shape(other@),
            self@.sum_defined(other@),
        ensures
            m.wf(),
            m.rows == self.rows,
            m.columns == self.columns,
            T::obeys_add_spec() ==> m@ == self@.sum(other@),
            forall|r: int, c: int|
                self@.has(r, c) ==> call_ensures(
                    T::add,
                    (self@.at(r, c), other@.at(r, c)),
                    #[trigger] m@.at(r, c),
                ),
    {
        let op = |a: T, b: T| -> (r: T)
            requires
                a.add_req(b),
            ensures
                T::obeys_add_spec() ==> r == a.add_spec(b),
                call_ensures(T::add, (a, b), r),
            { a + b };
        let m = self.make_op(other, op);
        proof {
            assert forall|r: int, c: int| self@.has(r, c) implies call_ensures(
                T::add,
                (self@.at(r, c), other@.at(r, c)),
                #[trigger] m@.at(r, c),
            ) by {
                assert(call_ensures(op, (self@.at(r, c), other@.at(r, c)), m@.at(r, c)));
            }
            if T::obeys_add_spec() {
                let expected = self@.sum(other@);
                assert forall|r: int, c: int| m@.has(r, c) implies m@.at(r, c) == expected.at(
                    r,
                    c,
                ) by {
                    assert(call_ensures(op, (self@.at(r, c), other@.at(r, c)), m@.at(r, c)));
                }
                m@.lemma_equal_by_cells(expected);
            }
        }
        m
    }
}

impl<'a, 'b, T: Add<Output = T> + Copy> Add<&'b Matrix<T>> for &'a Matrix<T> {
    type Output = Matrix<T>;

    /// The cell-wise sum, as a new matrix.
    fn add(self, other: &'b Matrix<T>) -> (m: Matrix<T>)
        ensures
            m.wf(),
            m.rows == self.rows,
            m.columns == self.columns,
            T::obeys_add_spec() ==> m@ == self@.sum(other@),
            forall|r: int, c: int|
                self@.has(r, c) ==> call_ensures(
                    T::add,
                    (self@.at(r, c), other@.at(r, c)),
                    #[trigger] m@.at(r, c),
                ),
    {
        self.add(other)
    }
}

/// When the operator may be used. What it returns is stated by the `ensures` of
/// the operator itself, over the views: a specification can build no matrix
/// to name the sum by.
impl<'a, 'b, T: Add<Output = T> + Copy> vstd::std_specs::ops::AddSpecImpl<&'b Matrix<T>> for &'a Matrix<T> {
    open spec fn obeys_add_spec() -> bool {
        false
    }

    open spec fn add_req(self, other: &'b Matrix<T>) -> bool {
        &&& self.wf()
        &&& other.wf()
        &&& self@.same_shape(other@)
        &&& self@.sum_defined(other@)
    }

    open spec fn add_spec(self, other: &'b Matrix<T>) -> Matrix<T> {
        *self
    }
}

impl<T: Sub<Output = T> + Copy> Matrix<T> {
    /// Subtracts `other` from `self`, cell by cell.
    pub fn sub_mut(&mut self, other: &Matrix<T>)
        requires
            old(self).wf(),
            other.wf(),
            old(self)@.same_shape(other@),
            old(self)@.difference_defined(other@),
        ensures
            final(self).wf(),
            final(self).rows == old(self).rows,
            final(self).columns == old(self).columns,
            T::obeys_sub_spec() ==> final(self)@ == old(self)@.difference(other@),
            forall|r: int, c: int|
                old(self)@.has(r, c) ==> call_ensures(
                    T::sub,
                    (old(self)@.at(r, c), other@.at(r, c)),
                    #[trigger] final(self)@.at(r, c),
                ),
    {
        let op = |a: T, b: T| -> (r: T)
            requires
                a.sub_req(b),
            ensures
                T::obeys_sub_spec() ==> r == a.sub_spec(b),
                call_ensures(T::sub, (a, b), r),
            { a - b };
        self.make_mut_op(other, op);
        proof {
            assert forall|r: int, c: int| old(self)@.has(r, c) implies call_ensures(
                T::sub,
                (old(self)@.at(r, c), other@.at(r, c)),
                #[trigger] self@.at(r, c),
            ) by {
                assert(call_ensures(op, (old(self)@.at(r, c), other@.at(r, c)), self@.at(r, c)));
            }
            if T::obeys_sub_spec() {
                let expected = old(self)@.difference(other@);
                assert forall|r: int, c: int| self@.has(r, c) implies self@.at(r, c)
                    == expected.at(r, c) by {
                    assert(call_ensures(
                        op,
                        (old(self)@.at(r, c), other@.at(r, c)),
                        self@.at(r, c),
                    ));
                }
                self@.lemma_equal_by_cells(expected);
            }
        }
    }

    /// The cell-wise difference, as a new matrix.
    pub fn sub(&self, other: &Matrix<T>) -> (m: Matrix<T>)
        requires
            self.wf(),
            other.wf(),
            self@.same_shape(other@),
            self@.difference_defined(other@),
        ensures
            m.wf(),
            m.rows == self.rows,
            m.columns == self.columns,
            T::obeys_sub_spec() ==> m@ == self@.difference(other@),
            forall|r: int, c: int|
                self@.has(r, c) ==> call_ensures(
                    T::sub,
                    (self@.at(r, c), other@.at(r, c)),
                    #[trigger] m@.at(r, c),
                ),
    {
        let op = |a: T, b: T| -> (r: T)
            requires
                a.sub_req(b),
            ensures
                T::obeys_sub_spec() ==> r == a.sub_spec(b),
                call_ensures(T::sub, (a, b), r),
            { a - b };
        let m = self.make_op(other, op);
        proof {
            assert forall|r: int, c: int| self@.has(r, c) implies call_ensures(
                T::sub,
                (self@.at(r, c), other@.at(r, c)),
                #[trigger] m@.at(r, c),
            ) by {
                assert(call_ensures(op, (self@.at(r, c), other@.at(r, c)), m@.at(r, c)));
            }
            if T::obeys_sub_spec() {
                let expected = self@.difference(other@);
                assert forall|r: int, c: int| m@.has(r, c) implies m@.at(r, c) == expected.at(
                    r,
                    c,
                ) by {
                    assert(call_ensures(op, (self@.at(r, c), other@.at(r, c)), m@.at(r, c)));
                }
                m@.lemma_equal_by_cells(expected);
            }
        }
        m
    }
}

impl<'a, 'b, T: Sub<Output = T> + Copy> Sub<&'b Matrix<T>> for &'a Matrix<T> {
    type Output = Matrix<T>;

    /// The cell-wise difference, as a new matrix.
    fn sub(self, other: &'b Matrix<T>) -> (m: Matrix<T>)
        ensures
            m.wf(),
            m.rows == self.rows,
            m.columns == self.columns,
            T::obeys_sub_spec() ==> m@ == self@.difference(other@),
            forall|r: int, c: int|
                self@.has(r, c) ==> call_ensures(
                    T::sub,
                    (self@.at(r, c), other@.at(r, c)),
                    #[trigger] m@.at(r, c),
                ),
    {
        self.sub(other)
    }
}

/// When the operator may be used. What it returns is stated by the `ensures` of
/// the operator itself, over the views: a specification can build no matrix
/// to name the difference by.
impl<'a, 'b, T: Sub<Output = T> + Copy> vstd::std_specs::ops::SubSpecImpl<&'b Matrix<T>> for &'a Matrix<T> {
    open spec fn obeys_sub_spec() -> bool {
        false
    }

    open spec fn sub_req(self, other: &'b Matrix<T>) -> bool {
        &&& self.wf()
        &&& other.wf()
        &&& self@.same_shape(other@)
        &&& self@.difference_defined(other@)
    }

    open spec fn sub_spec(self, other: &'b Matrix<T>) -> Matrix<T> {
        *self
    }
}

impl<T: Mul<Output = T> + Copy> Matrix<T> {
    /// Multiplies `self` by `other`, cell by cell.
    pub fn mul_mut(&mut self, other: &Matrix<T>)
        requires
            old(self).wf(),
            other.wf(),
            old(self)@.same_shape(other@),
            old(self)@.cellwise_product_defined(other@),
        ensures
            final(self).wf(),
            final(self).rows == old(self).rows,
            final(self).columns == old(self).columns,
            T::obeys_mul_spec() ==> final(self)@ == old(self)@.cellwise_product(other@),
            forall|r: int, c: int|
                old(self)@.has(r, c) ==> call_ensures(
                    T::mul,
                    (old(self)@.at(r, c), other@.at(r, c)),
                    #[trigger] final(self)@.at(r, c),
                ),
    {
        let op = |a: T, b: T| -> (r: T)
            requires
                a.mul_req(b),
            ensures
                T::obeys_mul_spec() ==> r == a.mul_spec(b),
                call_ensures(T::mul, (a, b), r),
            { a * b };
        self.make_mut_op(other, op);
        proof {
            assert forall|r: int, c: int| old(self)@.has(r, c) implies call_ensures(
                T::mul,
                (old(self)@.at(r, c), other@.at(r, c)),
                #[trigger] self@.at(r, c),
            ) by {
                assert(call_ensures(op, (old(self)@.at(r, c), other@.at(r, c)), self@.at(r, c)));
            }
            if T::obeys_mul_spec() {
                let expected = old(self)@.cellwise_product(other@);
                assert forall|r: int, c: int| self@.has(r, c) implies self@.at(r, c)
                    == expected.at(r, c) by {
                    assert(call_ensures(
                        op,
                        (old(self)@.at(r, c), other@.at(r, c)),
                        self@.at(r, c),
                    ));
                }
                self@.lemma_equal_by_cells(expected);
            }
        }
    }

    /// The cell-wise product, as a new matrix.
    pub fn mul(&self, other: &Matrix<T>) -> (m: Matrix<T>)
        requires
            self.wf(),
            other.wf(),
            self@.same_shape(other@),
            self@.cellwise_product_defined(other@),
        ensures
            m.wf(),
            m.rows == self.rows,
            m.columns == self.columns,
            T::obeys_mul_spec() ==> m@ == self@.cellwise_product(other@),
            forall|r: int, c: int|
                self@.has(r, c) ==> call_ensures(
                    T::mul,
                    (self@.at(r, c), other@.at(r, c)),
                    #[trigger] m@.at(r, c),
                ),
    {
        let op = |a: T, b: T| -> (r: T)
            requires
                a.mul_req(b),
            ensures
                T::obeys_mul_spec() ==> r == a.mul_spec(b),
                call_ensures(T::mul, (a, b), r),
            { a * b };
        let m = self.make_op(other, op);
        proof {
            assert forall|r: int, c: int| self@.has(r, c) implies call_ensures(
                T::mul,
                (self@.at(r, c), other@.at(r, c)),
                #[trigger] m@.at(r, c),
            ) by {
                assert(call_ensures(op, (self@.at(r, c), other@.at(r, c)), m@.at(r, c)));
            }
            if T::obeys_mul_spec() {
                let expected = self@.cellwise_product(other@);
                assert forall|r: int, c: int| m@.has(r, c) implies m@.at(r, c) == expected.at(
                    r,
                    c,
                ) by {
                    assert(call_ensures(op, (self@.at(r, c), other@.at(r, c)), m@.at(r, c)));
                }
                m@.lemma_equal_by_cells(expected);
            }
        }
        m
    }
}

impl<'a, 'b, T: Mul<Output = T> + Copy> Mul<&'b Matrix<T>> for &'a Matrix<T> {
    type Output = Matrix<T>;

    /// The cell-wise product, as a new matrix.
    fn mul(self, other: &'b Matrix<T>) -> (m: Matrix<T>)
        ensures
            m.wf(),
            m.rows == self.rows,
            m.columns == self.columns,
            T::obeys_mul_spec() ==> m@ == self@.cellwise_product(other@),
            forall|r: int, c: int|
                self@.has(r, c) ==> call_ensures(
                    T::mul,
                    (self@.at(r, c), other@.at(r, c)),
                    #[trigger] m@.at(r, c),
                ),
    {
        self.mul(other)
    }
}

/// When the operator may be used. What it returns is stated by the `ensures` of
/// the operator itself, over the views: a specification can build no matrix
/// to name the product by.
impl<'a, 'b, T: Mul<Output = T> + Copy> vstd::std_specs::ops::MulSpecImpl<&'b Matrix<T>> for &'a Matrix<T> {
    open spec fn obeys_mul_spec() -> bool {
        false
    }

    open spec fn mul_req(self, other: &'b Matrix<T>) -> bool {
        &&& self.wf()
        &&& other.wf()
        &&& self@.same_shape(other@)
        &&& self@.cellwise_product_defined(other@)
    }

    open spec fn mul_spec(self, other: &'b Matrix<T>) -> Matrix<T> {
        *self
    }
}

impl<T: Div<Output = T> + Copy> Matrix<T> {
    /// Divides `self` by `other`, cell by cell.
    pub fn div_mut(&mut self, other: &Matrix<T>)
        requires
            old(self).wf(),
            other.wf(),
            old(self)@.same_shape(other@),
            old(self)@.quotient_defined(other@),
        ensures
            final(self).wf(),
            final(self).rows == old(self).rows,
            final(self).columns == old(self).columns,
            T::obeys_div_spec() ==> final(self)@ == old(self)@.quotient(other@),
            forall|r: int, c: int|
                old(self)@.has(r, c) ==> call_ensures(
                    T::div,
                    (old(self)@.at(r, c), other@.at(r, c)),
                    #[trigger] final(self)@.at(r, c),
                ),
    {
        let op = |a: T, b: T| -> (r: T)
            requires
                a.div_req(b),
            ensures
                T::obeys_div_spec() ==> r == a.div_spec(b),
                call_ensures(T::div, (a, b), r),
            { a / b };
        self.make_mut_op(other, op);
        proof {
            assert forall|r: int, c: int| old(self)@.has(r, c) implies call_ensures(
                T::div,
                (old(self)@.at(r, c), other@.at(r, c)),
                #[trigger] self@.at(r, c),
            ) by {
                assert(call_ensures(op, (old(self)@.at(r, c), other@.at(r, c)), self@.at(r, c)));
            }
            if T::obeys_div_spec() {
                let expected = old(self)@.quotient(other@);
                assert forall|r: int, c: int| self@.has(r, c) implies self@.at(r, c)
                    == expected.at(r, c) by {
                    assert(call_ensures(
                        op,
                        (old(self)@.at(r, c), other@.at(r, c)),
                        self@.at(r, c),
                    ));
                }
                self@.lemma_equal_by_cells(expected);
            }
        }
    }

    /// The cell-wise quotient, as a new matrix.
    pub fn div(&self, other: &Matrix<T>) -> (m: Matrix<T>)
        requires
            self.wf(),
            other.wf(),
            self@.same_shape(other@),
            self@.quotient_defined(other@),
        ensures
            m.wf(),
            m.rows == self.rows,
            m.columns == self.columns,
            T::obeys_div_spec() ==> m@ == self@.quotient(other@),
            forall|r: int, c: int|
                self@.has(r, c) ==> call_ensures(
                    T::div,
                    (self@.at(r, c), other@.at(r, c)),
                    #[trigger] m@.at(r, c),
                ),
    {
        let op = |a: T, b: T| -> (r: T)
            requires
                a.div_req(b),
            ensures
                T::obeys_div_spec() ==> r == a.div_spec(b),
                call_ensures(T::div, (a, b), r),
            { a / b };
        let m = self.make_op(other, op);
        proof {
            assert forall|r: int, c: int| self@.has(r, c) implies call_ensures(
                T::div,
                (self@.at(r, c), other@.at(r, c)),
                #[trigger] m@.at(r, c),
            ) by {
                assert(call_ensures(op, (self@.at(r, c), other@.at(r, c)), m@.at(r, c)));
            }
            if T::obeys_div_spec() {
                let expected = self@.quotient(other@);
                assert forall|r: int, c: int| m@.has(r, c) implies m@.at(r, c) == expected.at(
                    r,
                    c,
                ) by {
                    assert(call_ensures(op, (self@.at(r, c), other@.at(r, c)), m@.at(r, c)));
                }
                m@.lemma_equal_by_cells(expected);
            }
        }
        m
    }
}

impl<'a, 'b, T: Div<Output = T> + Copy> Div<&'b Matrix<T>> for &'a Matrix<T> {
    type Output = Matrix<T>;

    /// The cell-wise quotient, as a new matrix.
    fn div(self, other: &'b Matrix<T>) -> (m: Matrix<T>)
        ensures
            m.wf(),
            m.rows == self.rows,
            m.columns == self.columns,
            T::obeys_div_spec() ==> m@ == self@.quotient(other@),
            forall|r: int, c: int|
                self@.has(r, c) ==> call_ensures(
                    T::div,
                    (self@.at(r, c), other@.at(r, c)),
                    #[trigger] m@.at(r, c),
                ),
    {
        self.div(other)
    }
}

/// When the operator may be used. What it returns is stated by the `ensures` of
/// the operator itself, over the views: a specification can build no matrix
/// to name the quotient by.
impl<'a, 'b, T: Div<Output = T> + Copy> vstd::std_specs::ops::DivSpecImpl<&'b Matrix<T>> for &'a Matrix<T> {
    open spec fn obeys_div_spec() -> bool {
        false
    }

    open spec fn div_req(self, other: &'b Matrix<T>) -> bool {
        &&& self.wf()
        &&& other.wf()
        &&& self@.same_shape(other@)
        &&& self@.quotient_defined(other@)
    }

    open spec fn div_spec(self, other: &'b Matrix<T>) -> Matrix<T> {
        *self
    }
}

} // verus!
