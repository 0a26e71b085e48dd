//! The divide-and-conquer product agrees with the row-times-column product
//! wherever the element type computes as the integers do.
//!
//! The element type is read through a function `val` into the integers. Where
//! every operation that either routine makes is one that the element type can
//! make, both compute, cell by cell, the integer sum of products, and so the
//! same matrix.

use crate::linalg::grid::Grid;
use crate::linalg::strassen::{
    combined, combined_defined, left_operand, left_operands_defined, nth_product, recurses,
    right_operand, right_operands_defined, strassen_defined, strassen_product,
};
use core::ops::{Add, Mul, Sub};
use vstd::arithmetic::mul::{
    lemma_mul_is_associative, lemma_mul_is_commutative, lemma_mul_is_distributive_add,
    lemma_mul_is_distributive_add_other_way,
};
use vstd::prelude::*;
use vstd::std_specs::ops::{AddSpec, MulSpec, SubSpec};

verus! {

/// The sum of `u(l) * v(l)` over `l` from 0 up to `upto`, `upto` excluded.
pub open spec fn sum_of_products(u: spec_fn(int) -> int, v: spec_fn(int) -> int, upto: int) -> int
    decreases upto,
{
    if upto <= 0 {
        0
    } else {
        sum_of_products(u, v, upto - 1) + u(upto - 1) * v(upto - 1)
    }
}

/// The sum of products is linear in the row and in the column: with
/// `u = p + cq * q` and `v = r + cs * s` place by place, it is the sum of the
/// four sums of products of the parts, each with its factor.
pub proof fn lemma_sum_of_products_bilinear(
    u: spec_fn(int) -> int,
    v: spec_fn(int) -> int,
    p: spec_fn(int) -> int,
    q: spec_fn(int) -> int,
    cq: int,
    r: spec_fn(int) -> int,
    s: spec_fn(int) -> int,
    cs: int,
    upto: int,
)
    requires
        forall|l: int| 0 <= l < upto ==> #[trigger] u(l) == p(l) + cq * q(l),
        forall|l: int| 0 <= l < upto ==> #[trigger] v(l) == r(l) + cs * s(l),
    ensures
        sum_of_products(u, v, upto) == sum_of_products(p, r, upto) + cs * sum_of_products(
            p,
            s,
            upto,
        ) + cq * sum_of_products(q, r, upto) + cq * cs * sum_of_products(q, s, upto),
    decreases upto,
{
    lemma_sum_of_products_linear_left(u, v, p, q, cq, upto);
    lemma_sum_of_products_linear_right(p, v, r, s, cs, upto);
    lemma_sum_of_products_linear_right(q, v, r, s, cs, upto);
    lemma_mul_is_distributive_add(
        cq,
        sum_of_products(q, r, upto),
        cs * sum_of_products(q, s, upto),
    );
    lemma_mul_is_associative(cq, cs, sum_of_products(q, s, upto));
}

/// The sum of products is linear in the row.
pub proof fn lemma_sum_of_products_linear_left(
    u: spec_fn(int) -> int,
    v: spec_fn(int) -> int,
    p: spec_fn(int) -> int,
    q: spec_fn(int) -> int,
    cq: int,
    upto: int,
)
    requires
        forall|l: int| 0 <= l < upto ==> #[trigger] u(l) == p(l) + cq * q(l),
    ensures
        sum_of_products(u, v, upto) == sum_of_products(p, v, upto) + cq * sum_of_products(
            q,
            v,
            upto,
        ),
    decreases upto,
{
    if upto > 0 {
        lemma_sum_of_products_linear_left(u, v, p, q, cq, upto - 1);
        let l = upto - 1;
        assert(u(l) == p(l) + cq * q(l));
        lemma_mul_is_distributive_add_other_way(v(l), p(l), cq * q(l));
        lemma_mul_is_associative(cq, q(l), v(l));
        lemma_mul_is_distributive_add(cq, sum_of_products(q, v, l), q(l) * v(l));
    }
}

/// The sum of products is linear in the column.
pub proof fn lemma_sum_of_products_linear_right(
    u: spec_fn(int) -> int,
    v: spec_fn(int) -> int,
    r: spec_fn(int) -> int,
    s: spec_fn(int) -> int,
    cs: int,
    upto: int,
)
    requires
        forall|l: int| 0 <= l < upto ==> #[trigger] v(l) == r(l) + cs * s(l),
    ensures
        sum_of_products(u, v, upto) == sum_of_products(u, r, upto) + cs * sum_of_products(
            u,
            s,
            upto,
        ),
    decreases upto,
{
    if upto > 0 {
        lemma_sum_of_products_linear_right(u, v, r, s, cs, upto - 1);
        let l = upto - 1;
        assert(v(l) == r(l) + cs * s(l));
        lemma_mul_is_distributive_add(u(l), r(l), cs * s(l));
        lemma_mul_is_associative(u(l), cs, s(l));
        lemma_mul_is_commutative(u(l), cs);
        lemma_mul_is_associative(cs, u(l), s(l));
        lemma_mul_is_distributive_add(cs, sum_of_products(u, s, l), u(l) * s(l));
    }
}

/// A sum of products over `first + rest` places is the sum over the first
/// `first` and the sum over the `rest` that follow them.
pub proof fn lemma_sum_of_products_splits(
    u: spec_fn(int) -> int,
    v: spec_fn(int) -> int,
    tail_u: spec_fn(int) -> int,
    tail_v: spec_fn(int) -> int,
    first: int,
    rest: int,
)
    requires
        0 <= first,
        0 <= rest,
        forall|l: int| 0 <= l < rest ==> #[trigger] tail_u(l) == u(first + l),
        forall|l: int| 0 <= l < rest ==> #[trigger] tail_v(l) == v(first + l),
    ensures
        sum_of_products(u, v, first + rest) == sum_of_products(u, v, first) + sum_of_products(
            tail_u,
            tail_v,
            rest,
        ),
    decreases rest,
{
    if rest > 0 {
        lemma_sum_of_products_splits(u, v, tail_u, tail_v, first, rest - 1);
        assert(tail_u(rest - 1) == u(first + (rest - 1)));
        assert(tail_v(rest - 1) == v(first + (rest - 1)));
    }
}

/// The element type computes as the integers do: `val` reads `zero` as 0 and
/// every sum, difference and product that the type can compute as the sum,
/// difference and product of what it reads the operands as.
pub open spec fn integer_like<T: Add<Output = T> + Sub<Output = T> + Mul<Output = T>>(
    val: spec_fn(T) -> int,
    zero: T,
) -> bool {
    &&& val(zero) == 0
    &&& forall|x: T, y: T| x.add_req(y) ==> val(#[trigger] x.add_spec(y)) == val(x) + val(y)
    &&& forall|x: T, y: T| x.sub_req(y) ==> val(#[trigger] x.sub_spec(y)) == val(x) - val(y)
    &&& forall|x: T, y: T| x.mul_req(y) ==> val(#[trigger] x.mul_spec(y)) == val(x) * val(y)
}

/// `val` reads no two values of the element type as one integer.
pub open spec fn one_to_one<T>(val: spec_fn(T) -> int) -> bool {
    forall|x: T, y: T| #![trigger val(x), val(y)] val(x) == val(y) ==> x == y
}

/// Row `i` of `a` from column `from` on, read through `val`.
pub open spec fn row_values<T>(val: spec_fn(T) -> int, a: Grid<T>, i: int, from: int) -> spec_fn(
    int,
) -> int {
    |l: int| val(a.at(i, from + l))
}

/// Column `j` of `b` from row `from` on, read through `val`.
pub open spec fn column_values<T>(val: spec_fn(T) -> int, b: Grid<T>, j: int, from: int) -> spec_fn(
    int,
) -> int {
    |l: int| val(b.at(from + l, j))
}

/// What the triple loop computes for a cell, read through `val`, is the
/// integer sum of products of the row and the column.
pub proof fn lemma_dot_value<T: Add<Output = T> + Sub<Output = T> + Mul<Output = T>>(
    a: Grid<T>,
    b: Grid<T>,
    zero: T,
    val: spec_fn(T) -> int,
    i: int,
    j: int,
    upto: int,
)
    requires
        integer_like(val, zero),
        a.dot_defined(b, zero, i, j, upto),
    ensures
        val(a.dot(b, zero, i, j, upto)) == sum_of_products(
            row_values(val, a, i, 0),
            column_values(val, b, j, 0),
            upto,
        ),
    decreases upto,
{
    if upto > 0 {
        lemma_dot_value(a, b, zero, val, i, j, upto - 1);
        let x = a.at(i, upto - 1);
        let y = b.at(upto - 1, j);
        assert(row_values(val, a, i, 0)(upto - 1) == val(x));
        assert(column_values(val, b, j, 0)(upto - 1) == val(y));
        assert(val(x.mul_spec(y)) == val(x) * val(y));
    }
}

/// The divide-and-conquer product has the rows of its left operand and the
/// columns of its right one.
pub proof fn lemma_strassen_shape<T: Add<Output = T> + Sub<Output = T> + Mul<Output = T>>(
    a: Grid<T>,
    b: Grid<T>,
    zero: T,
)
    ensures
        strassen_product(a, b, zero).rows == a.rows,
        strassen_product(a, b, zero).columns == b.columns,
    decreases a.rows,
{
    if recurses(a, b) {
        let h = a.rows / 2;
        let a11 = a.block(0, 0, h, h);
        let a12 = a.block(0, h as int, h, h);
        let a21 = a.block(h as int, 0, h, h);
        let a22 = a.block(h as int, h as int, h, h);
        let b11 = b.block(0, 0, h, h);
        let b12 = b.block(0, h as int, h, h);
        let b21 = b.block(h as int, 0, h, h);
        let b22 = b.block(h as int, h as int, h, h);
        lemma_strassen_shape(
            left_operand(a11, a12, a21, a22, 1),
            right_operand(b11, b12, b21, b22, 1),
            zero,
        );
        lemma_strassen_shape(
            left_operand(a11, a12, a21, a22, 2),
            right_operand(b11, b12, b21, b22, 2),
            zero,
        );
        lemma_strassen_shape(
            left_operand(a11, a12, a21, a22, 3),
            right_operand(b11, b12, b21, b22, 3),
            zero,
        );
    }
}

/// Row `i0` of quadrant `x` of `a`, read through `val`; the quadrants are
/// numbered 0 to 3 for `a11`, `a12`, `a21`, `a22`, each of `h` rows and columns.
pub open spec fn quadrant_row<T>(val: spec_fn(T) -> int, a: Grid<T>, h: int, i0: int, x: int)
    -> spec_fn(int) -> int {
    if x == 0 {
        row_values(val, a, i0, 0)
    } else if x == 1 {
        row_values(val, a, i0, h)
    } else if x == 2 {
        row_values(val, a, h + i0, 0)
    } else {
        row_values(val, a, h + i0, h)
    }
}

/// Column `j0` of quadrant `y` of `b`, read through `val`; the quadrants are
/// numbered 0 to 3 for `b11`, `b12`, `b21`, `b22`.
pub open spec fn quadrant_column<T>(val: spec_fn(T) -> int, b: Grid<T>, h: int, j0: int, y: int)
    -> spec_fn(int) -> int {
    if y == 0 {
        column_values(val, b, j0, 0)
    } else if y == 1 {
        column_values(val, b, h + j0, 0)
    } else if y == 2 {
        column_values(val, b, j0, h)
    } else {
        column_values(val, b, h + j0, h)
    }
}

/// Row `i0` of quadrant `x` of `a` times column `j0` of quadrant `y` of `b`.
pub open spec fn part<T>(
    val: spec_fn(T) -> int,
    a: Grid<T>,
    b: Grid<T>,
    h: int,
    i0: int,
    j0: int,
    x: int,
    y: int,
) -> int {
    sum_of_products(quadrant_row(val, a, h, i0, x), quadrant_column(val, b, h, j0, y), h)
}

/// The left operand of the `k`-th product is quadrant `.0` plus `.2` times
/// quadrant `.1`.
pub open spec fn left_parts(k: int) -> (int, int, int) {
    if k == 1 {
        (0, 3, 1)
    } else if k == 2 {
        (2, 3, 1)
    } else if k == 3 {
        (0, 0, 0)
    } else if k == 4 {
        (3, 3, 0)
    } else if k == 5 {
        (0, 1, 1)
    } else if k == 6 {
        (2, 0, -1)
    } else {
        (1, 3, -1)
    }
}

/// The right operand of the `k`-th product is quadrant `.0` plus `.2` times
/// quadrant `.1`.
pub open spec fn right_parts(k: int) -> (int, int, int) {
    if k == 1 {
        (0, 3, 1)
    } else if k == 2 {
        (0, 0, 0)
    } else if k == 3 {
        (1, 3, -1)
    } else if k == 4 {
        (2, 0, -1)
    } else if k == 5 {
        (3, 3, 0)
    } else if k == 6 {
        (0, 1, 1)
    } else {
        (2, 3, 1)
    }
}

/// `x` taken once, not at all, or negated, for a factor of 1, 0 or -1.
pub open spec fn scaled(factor: int, x: int) -> int {
    if factor == 0 {
        0
    } else if factor == 1 {
        x
    } else {
        -x
    }
}

/// Cell `(i0, j0)` of the `k`-th product as an integer, in the sixteen
/// products of a quadrant row with a quadrant column.
pub open spec fn product_value<T>(
    val: spec_fn(T) -> int,
    a: Grid<T>,
    b: Grid<T>,
    h: int,
    i0: int,
    j0: int,
    k: int,
) -> int {
    let (p, q, cq) = left_parts(k);
    let (r, s, cs) = right_parts(k);
    part(val, a, b, h, i0, j0, p, r) + scaled(cs, part(val, a, b, h, i0, j0, p, s)) + scaled(
        cq,
        part(val, a, b, h, i0, j0, q, r),
    ) + scaled(cq, scaled(cs, part(val, a, b, h, i0, j0, q, s)))
}

/// The row-times-column sum of the operands of the `k`-th product is
/// `product_value` of `k`.
pub proof fn lemma_operands_value<T: Add<Output = T> + Sub<Output = T> + Mul<Output = T>>(
    a: Grid<T>,
    b: Grid<T>,
    zero: T,
    val: spec_fn(T) -> int,
    i0: int,
    j0: int,
    k: int,
)
    requires
        integer_like(val, zero),
        1 <= k <= 7,
        0 <= i0 < a.rows / 2,
        0 <= j0 < a.rows / 2,
        left_operands_defined(
            a.block(0, 0, a.rows / 2, a.rows / 2),
            a.block(0, (a.rows / 2) as int, a.rows / 2, a.rows / 2),
            a.block((a.rows / 2) as int, 0, a.rows / 2, a.rows / 2),
            a.block((a.rows / 2) as int, (a.rows / 2) as int, a.rows / 2, a.rows / 2),
        ),
        right_operands_defined(
            b.block(0, 0, a.rows / 2, a.rows / 2),
            b.block(0, (a.rows / 2) as int, a.rows / 2, a.rows / 2),
            b.block((a.rows / 2) as int, 0, a.rows / 2, a.rows / 2),
            b.block((a.rows / 2) as int, (a.rows / 2) as int, a.rows / 2, a.rows / 2),
        ),
    ensures
        sum_of_products(
            row_values(
                val,
                left_operand(
                    a.block(0, 0, a.rows / 2, a.rows / 2),
                    a.block(0, (a.rows / 2) as int, a.rows / 2, a.rows / 2),
                    a.block((a.rows / 2) as int, 0, a.rows / 2, a.rows / 2),
                    a.block((a.rows / 2) as int, (a.rows / 2) as int, a.rows / 2, a.rows / 2),
                    k,
                ),
                i0,
                0,
            ),
            column_values(
                val,
                right_operand(
                    b.block(0, 0, a.rows / 2, a.rows / 2),
                    b.block(0, (a.rows / 2) as int, a.rows / 2, a.rows / 2),
                    b.block((a.rows / 2) as int, 0, a.rows / 2, a.rows / 2),
                    b.block((a.rows / 2) as int, (a.rows / 2) as int, a.rows / 2, a.rows / 2),
                    k,
                ),
                j0,
                0,
            ),
            (a.rows / 2) as int,
        ) == product_value(val, a, b, (a.rows / 2) as int, i0, j0, k),
{
    let h = a.rows / 2;
    let hi = h as int;
    let a11 = a.block(0, 0, h, h);
    let a12 = a.block(0, hi, h, h);
    let a21 = a.block(hi, 0, h, h);
    let a22 = a.block(hi, hi, h, h);
    let b11 = b.block(0, 0, h, h);
    let b12 = b.block(0, hi, h, h);
    let b21 = b.block(hi, 0, h, h);
    let b22 = b.block(hi, hi, h, h);
    let left = left_operand(a11, a12, a21, a22, k);
    let right = right_operand(b11, b12, b21, b22, k);
    let u = row_values(val, left, i0, 0);
    let v = column_values(val, right, j0, 0);
    let (px, qx, cq) = left_parts(k);
    let (rx, sx, cs) = right_parts(k);
    let p = quadrant_row(val, a, hi, i0, px);
    let q = quadrant_row(val, a, hi, i0, qx);
    let r = quadrant_column(val, b, hi, j0, rx);
    let s = quadrant_column(val, b, hi, j0, sx);
    assert forall|l: int| 0 <= l < hi implies #[trigger] u(l) == p(l) + cq * q(l) by {
        assert(a11.has(i0, l) && a12.has(i0, l) && a21.has(i0, l) && a22.has(i0, l));
        assert(a11.at(i0, l) == a.at(i0, l));
        assert(a12.at(i0, l) == a.at(i0, hi + l));
        assert(a21.at(i0, l) == a.at(hi + i0, l));
        assert(a22.at(i0, l) == a.at(hi + i0, hi + l));
        if k == 1 {
            assert(a11.at(i0, l).add_req(a22.at(i0, l)));
        } else if k == 2 {
            assert(a21.at(i0, l).add_req(a22.at(i0, l)));
        } else if k == 5 {
            assert(a11.at(i0, l).add_req(a12.at(i0, l)));
        } else if k == 6 {
            assert(a21.at(i0, l).sub_req(a11.at(i0, l)));
        } else if k == 7 {
            assert(a12.at(i0, l).sub_req(a22.at(i0, l)));
        }
    }
    assert forall|l: int| 0 <= l < hi implies #[trigger] v(l) == r(l) + cs * s(l) by {
        assert(b11.has(l, j0) && b12.has(l, j0) && b21.has(l, j0) && b22.has(l, j0));
        assert(b11.at(l, j0) == b.at(l, j0));
        assert(b12.at(l, j0) == b.at(l, hi + j0));
        assert(b21.at(l, j0) == b.at(hi + l, j0));
        assert(b22.at(l, j0) == b.at(hi + l, hi + j0));
        if k == 1 {
            assert(b11.at(l, j0).add_req(b22.at(l, j0)));
        } else if k == 3 {
            assert(b12.at(l, j0).sub_req(b22.at(l, j0)));
        } else if k == 4 {
            assert(b21.at(l, j0).sub_req(b11.at(l, j0)));
        } else if k == 6 {
            assert(b11.at(l, j0).add_req(b12.at(l, j0)));
        } else if k == 7 {
            assert(b21.at(l, j0).add_req(b22.at(l, j0)));
        }
    }
    lemma_sum_of_products_bilinear(u, v, p, q, cq, r, s, cs, hi);
    let (ps, qr, qs) = (
        sum_of_products(p, s, hi),
        sum_of_products(q, r, hi),
        sum_of_products(q, s, hi),
    );
    assert(cs * ps == scaled(cs, ps)) by (nonlinear_arith)
        requires
            cs == 0 || cs == 1 || cs == -1,
    ;
    assert(cq * qr == scaled(cq, qr)) by (nonlinear_arith)
        requires
            cq == 0 || cq == 1 || cq == -1,
    ;
    assert(cq * cs * qs == scaled(cq, scaled(cs, qs))) by (nonlinear_arith)
        requires
            cs == 0 || cs == 1 || cs == -1,
            cq == 0 || cq == 1 || cq == -1,
    ;
}

/// A cell of the combination of seven products of `h` rows and columns, read
/// through `val`, is the combination of their cells at its place in its
/// quadrant.
pub proof fn lemma_combined_value<T: Add<Output = T> + Sub<Output = T> + Mul<Output = T>>(
    m1: Grid<T>,
    m2: Grid<T>,
    m3: Grid<T>,
    m4: Grid<T>,
    m5: Grid<T>,
    m6: Grid<T>,
    m7: Grid<T>,
    zero: T,
    val: spec_fn(T) -> int,
    h: nat,
    i: int,
    j: int,
)
    requires
        integer_like(val, zero),
        combined_defined(m1, m2, m3, m4, m5, m6, m7),
        m1.rows == h && m2.rows == h && m3.rows == h && m4.rows == h,
        m5.rows == h && m6.rows == h && m7.rows == h,
        m1.columns == h && m2.columns == h && m3.columns == h && m4.columns == h,
        m5.columns == h && m6.columns == h && m7.columns == h,
        0 <= i < 2 * h,
        0 <= j < 2 * h,
    ensures
        ({
            let i0 = if i < h { i } else { i - h };
            let j0 = if j < h { j } else { j - h };
            val(combined(m1, m2, m3, m4, m5, m6, m7).at(i, j)) == if i < h {
                if j < h {
                    val(m1.at(i0, j0)) + val(m4.at(i0, j0)) - val(m5.at(i0, j0)) + val(
                        m7.at(i0, j0),
                    )
                } else {
                    val(m3.at(i0, j0)) + val(m5.at(i0, j0))
                }
            } else {
                if j < h {
                    val(m2.at(i0, j0)) + val(m4.at(i0, j0))
                } else {
                    val(m1.at(i0, j0)) - val(m2.at(i0, j0)) + val(m3.at(i0, j0)) + val(
                        m6.at(i0, j0),
                    )
                }
            }
        }),
{
    let i0 = if i < h { i } else { i - h };
    let j0 = if j < h { j } else { j - h };
    assert(m1.has(i0, j0) && m2.has(i0, j0) && m3.has(i0, j0));
    let c11 = m1.sum(m4).difference(m5).sum(m7);
    let c12 = m3.sum(m5);
    let c21 = m2.sum(m4);
    let c22 = m1.difference(m2).sum(m3).sum(m6);
    assert(combined(m1, m2, m3, m4, m5, m6, m7).at(i, j) == if i < h {
        if j < h {
            c11.at(i0, j0)
        } else {
            c12.at(i0, j0)
        }
    } else {
        if j < h {
            c21.at(i0, j0)
        } else {
            c22.at(i0, j0)
        }
    });
    let s14 = m1.sum(m4);
    let d145 = s14.difference(m5);
    assert(s14.has(i0, j0) && d145.has(i0, j0));
    assert(m1.at(i0, j0).add_req(m4.at(i0, j0)));
    assert(s14.at(i0, j0).sub_req(m5.at(i0, j0)));
    assert(d145.at(i0, j0).add_req(m7.at(i0, j0)));
    assert(m3.at(i0, j0).add_req(m5.at(i0, j0)));
    assert(m2.at(i0, j0).add_req(m4.at(i0, j0)));
    let d12 = m1.difference(m2);
    let s123 = d12.sum(m3);
    assert(d12.has(i0, j0) && s123.has(i0, j0));
    assert(m1.at(i0, j0).sub_req(m2.at(i0, j0)));
    assert(d12.at(i0, j0).add_req(m3.at(i0, j0)));
    assert(s123.at(i0, j0).add_req(m6.at(i0, j0)));
}

/// Every cell of the divide-and-conquer product, read through `val`, is the
/// integer sum of products of its row of `a` and its column of `b`.
pub proof fn lemma_strassen_value<T: Add<Output = T> + Sub<Output = T> + Mul<Output = T>>(
    a: Grid<T>,
    b: Grid<T>,
    zero: T,
    val: spec_fn(T) -> int,
    i: int,
    j: int,
)
    requires
        integer_like(val, zero),
        a.columns == b.rows,
        strassen_defined(a, b, zero),
        0 <= i < a.rows,
        0 <= j < b.columns,
    ensures
        val(strassen_product(a, b, zero).at(i, j)) == sum_of_products(
            row_values(val, a, i, 0),
            column_values(val, b, j, 0),
            a.columns as int,
        ),
    decreases a.rows,
{
    if !recurses(a, b) {
        assert(a.dot_defined(b, zero, i, j, a.columns as int));
        lemma_dot_value(a, b, zero, val, i, j, a.columns as int);
    } else {
        let h = a.rows / 2;
        let hi = h as int;
        let a11 = a.block(0, 0, h, h);
        let a12 = a.block(0, hi, h, h);
        let a21 = a.block(hi, 0, h, h);
        let a22 = a.block(hi, hi, h, h);
        let b11 = b.block(0, 0, h, h);
        let b12 = b.block(0, hi, h, h);
        let b21 = b.block(hi, 0, h, h);
        let b22 = b.block(hi, hi, h, h);
        let i0 = if i < hi { i } else { i - hi };
        let j0 = if j < hi { j } else { j - hi };
        assert forall|k: int| 1 <= k <= 7 implies val(
            (#[trigger] nth_product(a11, a12, a21, a22, b11, b12, b21, b22, zero, k)).at(i0, j0),
        ) == product_value(val, a, b, hi, i0, j0, k) && nth_product(
            a11,
            a12,
            a21,
            a22,
            b11,
            b12,
            b21,
            b22,
            zero,
            k,
        ).rows == h && nth_product(a11, a12, a21, a22, b11, b12, b21, b22, zero, k).columns
            == h by {
            let left = left_operand(a11, a12, a21, a22, k);
            let right = right_operand(b11, b12, b21, b22, k);
            assert(left.rows == h && left.columns == h);
            assert(right.rows == h && right.columns == h);
            lemma_strassen_value(left, right, zero, val, i0, j0);
            lemma_strassen_shape(left, right, zero);
            lemma_operands_value(a, b, zero, val, i0, j0, k);
        }
        let m1 = nth_product(a11, a12, a21, a22, b11, b12, b21, b22, zero, 1);
        let m2 = nth_product(a11, a12, a21, a22, b11, b12, b21, b22, zero, 2);
        let m3 = nth_product(a11, a12, a21, a22, b11, b12, b21, b22, zero, 3);
        let m4 = nth_product(a11, a12, a21, a22, b11, b12, b21, b22, zero, 4);
        let m5 = nth_product(a11, a12, a21, a22, b11, b12, b21, b22, zero, 5);
        let m6 = nth_product(a11, a12, a21, a22, b11, b12, b21, b22, zero, 6);
        let m7 = nth_product(a11, a12, a21, a22, b11, b12, b21, b22, zero, 7);
        assert(strassen_product(a, b, zero) == combined(m1, m2, m3, m4, m5, m6, m7));
        lemma_combined_value(m1, m2, m3, m4, m5, m6, m7, zero, val, h, i, j);
        let u = row_values(val, a, i, 0);
        let v = column_values(val, b, j, 0);
        let tail_u = row_values(val, a, i, hi);
        let tail_v = column_values(val, b, j, hi);
        lemma_sum_of_products_splits(u, v, tail_u, tail_v, hi, hi);
        let d = |x: int, y: int| part(val, a, b, hi, i0, j0, x, y);
        assert(product_value(val, a, b, hi, i0, j0, 1) == d(0, 0) + d(0, 3) + d(3, 0) + d(3, 3));
        assert(product_value(val, a, b, hi, i0, j0, 2) == d(2, 0) + d(3, 0));
        assert(product_value(val, a, b, hi, i0, j0, 3) == d(0, 1) - d(0, 3));
        assert(product_value(val, a, b, hi, i0, j0, 4) == d(3, 2) - d(3, 0));
        assert(product_value(val, a, b, hi, i0, j0, 5) == d(0, 3) + d(1, 3));
        assert(product_value(val, a, b, hi, i0, j0, 6) == d(2, 0) + d(2, 1) - d(0, 0) - d(0, 1));
        assert(product_value(val, a, b, hi, i0, j0, 7) == d(1, 2) + d(1, 3) - d(3, 2) - d(3, 3));
        let x = if i < hi { 0int } else { 2int };
        let y = if j < hi { 0int } else { 1int };
        assert(u == quadrant_row(val, a, hi, i0, x));
        assert(v == quadrant_column(val, b, hi, j0, y));
        assert(tail_u == quadrant_row(val, a, hi, i0, x + 1));
        assert(tail_v == quadrant_column(val, b, hi, j0, y + 2));
        assert(sum_of_products(u, v, a.columns as int) == part(val, a, b, hi, i0, j0, x, y) + part(
            val,
            a,
            b,
            hi,
            i0,
            j0,
            x + 1,
            y + 2,
        ));
    }
}

/// Where the element type computes as the integers do, without reading two
/// values as one integer, and can make every operation of either routine, the
/// divide-and-conquer product is the row-times-column product.
pub proof fn lemma_strassen_agrees_with_product<
    T: Add<Output = T> + Sub<Output = T> + Mul<Output = T>,
>(a: Grid<T>, b: Grid<T>, zero: T, val: spec_fn(T) -> int)
    requires
        integer_like(val, zero),
        one_to_one(val),
        a.columns == b.rows,
        strassen_defined(a, b, zero),
        a.product_defined(b, zero),
    ensures
        strassen_product(a, b, zero) == a.product(b, zero),
{
    let fast = strassen_product(a, b, zero);
    let slow = a.product(b, zero);
    lemma_strassen_shape(a, b, zero);
    assert(fast.wf());
    assert forall|i: int, j: int| fast.has(i, j) implies fast.at(i, j) == slow.at(i, j) by {
        lemma_strassen_value(a, b, zero, val, i, j);
        assert(a.dot_defined(b, zero, i, j, a.columns as int));
        lemma_dot_value(a, b, zero, val, i, j, a.columns as int);
        assert(val(fast.at(i, j)) == val(slow.at(i, j)));
    }
    fast.lemma_equal_by_cells(slow);
}

/// How a 64-bit signed integer is read as an integer: as itself.
pub open spec fn i64_value() -> spec_fn(i64) -> int {
    |x: i64| x as int
}

/// The 64-bit signed integers compute as the integers do: a sum, difference or
/// product that does not overflow is the integer one, and zero is zero.
pub proof fn lemma_i64_is_integer_like()
    ensures
        integer_like(i64_value(), 0i64),
        one_to_one(i64_value()),
{
}

/// On matrices of 64-bit signed integers, where neither routine overflows, the
/// divide-and-conquer product is the row-times-column product.
pub proof fn lemma_strassen_agrees_on_i64(a: Grid<i64>, b: Grid<i64>)
    requires
        a.columns == b.rows,
        strassen_defined(a, b, 0i64),
        a.product_defined(b, 0i64),
    ensures
        strassen_product(a, b, 0i64) == a.product(b, 0i64),
{
    lemma_i64_is_integer_like();
    lemma_strassen_agrees_with_product(a, b, 0i64, i64_value());
}

} // verus!
