//! Random matrices and random swaps of rows, drawn with the `rand` crate.
//!
//! What is drawn is not known beforehand: the contracts say what holds of
//! every outcome, and the log that `shuffle_rows` returns says what was drawn.

use crate::linalg::grid::log_fits;
use crate::linalg::matrix::Matrix;
use rand::distributions::{IndependentSample, Range};
use vstd::prelude::*;

verus! {

/// One draw from `rand`'s uniform `Range` over `low..high`, made with the
/// generator of the calling thread (`Range::new`, `IndependentSample::ind_sample`,
/// `thread_rng`). Believed of it: the draw is at least `low` and below `high`.
/// `Range::new` refuses `low >= high`, which is left out here; `thread_rng`
/// fails where the system has no entropy to give.
#[verifier::external_body]
fn sample_index(low: usize, high: usize) -> (drawn: usize)
    requires
        low < high,
    ensures
        low <= drawn < high,
{
    Range::new(low, high).ind_sample(&mut rand::thread_rng())
}

/// One draw from `rand`'s uniform `Range` over `low..high` of 64-bit signed
/// integers, made with the generator of the calling thread (`Range::new`,
/// `IndependentSample::ind_sample`, `thread_rng`). Believed of it: the draw is
/// at least `low` and below `high`. `Range::new` refuses `low >= high`, which
/// is left out here; `thread_rng` fails where the system has no entropy to give.
#[verifier::external_body]
fn sample_i64(low: i64, high: i64) -> (drawn: i64)
    requires
        low < high,
    ensures
        low <= drawn < high,
{
    Range::new(low, high).ind_sample(&mut rand::thread_rng())
}

impl Matrix<i64> {
    /// A `rows` by `columns` matrix with every cell drawn on its own, uniformly
    /// from `min..max`.
    pub fn random(rows: usize, columns: usize, min: i64, max: i64) -> (m: Matrix<i64>)
        requires
            rows * columns <= usize::MAX,
            min < max,
        ensures
            m.wf(),
            m.rows == rows,
            m.columns == columns,
            forall|r: int, c: int| m@.has(r, c) ==> min <= #[trigger] m@.at(r, c) < max,
    {
        let cell = |r: usize, c: usize| -> (v: i64)
            ensures
                min <= v < max,
            { sample_i64(min, max) };
        let m = Matrix::tabulate(rows, columns, cell);
        proof {
            assert forall|r: int, c: int| m@.has(r, c) implies min <= #[trigger] m@.at(r, c)
                < max by {
                assert(call_ensures(cell, (r as usize, c as usize), m@.at(r, c)));
            }
        }
        m
    }
}

impl<T: Copy> Matrix<T> {
    /// Applies the swaps of `log` in order.
    pub fn replay_swaps(&mut self, log: &Vec<(usize, usize)>)
        requires
            old(self).wf(),
            log_fits(log@, old(self).rows as nat),
        ensures
            final(self).wf(),
            final(self).rows == old(self).rows,
            final(self).columns == old(self).columns,
            final(self)@ == old(self)@.replay(log@),
    {
        let mut i: usize = 0;
        while i < log.len()
            invariant
                i <= log.len(),
                self.wf(),
                self.rows == old(self).rows,
                self.columns == old(self).columns,
                log_fits(log@, self.rows as nat),
                self@ == old(self)@.replay(log@.take(i as int)),
            decreases log.len() - i,
        {
            let (row, other) = log[i];
            self.swap_rows(row, other);
            proof {
                let done = log@.take(i + 1);
                assert(done.drop_last() == log@.take(i as int));
                assert(done.last() == log@[i as int]);
            }
            i += 1;
        }
        assert(log@.take(i as int) == log@);
    }

    /// Makes `rows / 2` swaps of two rows, both drawn uniformly and on their
    /// own from all rows, and returns the swaps in the order made.
    pub fn shuffle_rows(&mut self) -> (swaps: Vec<(usize, usize)>)
        requires
            old(self).wf(),
        ensures
            final(self).wf(),
            final(self).rows == old(self).rows,
            final(self).columns == old(self).columns,
            swaps.len() == old(self).rows / 2,
            log_fits(swaps@, old(self).rows as nat),
            final(self)@ == old(self)@.replay(swaps@),
    {
        let count = self.rows / 2;
        let mut swaps: Vec<(usize, usize)> = Vec::new();
        let mut i: usize = 0;
        while i < count
            invariant
                i <= count,
                count == self.rows / 2,
                self.wf(),
                self.rows == old(self).rows,
                self.columns == old(self).columns,
                swaps.len() == i,
                log_fits(swaps@, self.rows as nat),
                self@ == old(self)@.replay(swaps@),
            decreases count - i,
        {
            let row = sample_index(0, self.rows);
            let other = sample_index(0, self.rows);
            self.swap_rows(row, other);
            let ghost before = swaps@;
            swaps.push((row, other));
            proof {
                assert(swaps@.drop_last() == before);
                assert(swaps@.last() == (row, other));
            }
            i += 1;
        }
        swaps
    }
}

} // verus!
