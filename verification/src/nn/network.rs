//! The bookkeeping of a training run: its options, how the rows of the
//! training data fall into batches, and the shuffling of inputs together with
//! their labels.

use crate::linalg::grid::{log_fits, Grid};
use crate::linalg::matrix::Matrix;
use vstd::prelude::*;

verus! {

/// How a training run goes over its data.
pub struct TrainOptions {
    pub shuffle: bool,
    pub epochs: u64,
    pub batch_size: u64,
}

/// The number of batches of `batch_size` rows that `rows` rows fall into, the
/// last of which may be short.
pub open spec fn batches_of(rows: int, batch_size: int) -> int {
    rows / batch_size + if rows % batch_size != 0 {
        1int
    } else {
        0int
    }
}

impl TrainOptions {
    /// One epoch, shuffled, in batches of 64.
    pub fn default() -> (options: TrainOptions)
        ensures
            options.shuffle,
            options.epochs == 1,
            options.batch_size == 64,
    {
        TrainOptions { shuffle: true, epochs: 1, batch_size: 64 }
    }

    /// The same options with `epochs` epochs.
    pub fn with_epochs(self, epochs: u64) -> (options: TrainOptions)
        ensures
            options.epochs == epochs,
            options.shuffle == self.shuffle,
            options.batch_size == self.batch_size,
    {
        TrainOptions { shuffle: self.shuffle, epochs, batch_size: self.batch_size }
    }

    /// The same options with shuffling on or off.
    pub fn with_shuffle(self, shuffle: bool) -> (options: TrainOptions)
        ensures
            options.shuffle == shuffle,
            options.epochs == self.epochs,
            options.batch_size == self.batch_size,
    {
        TrainOptions { shuffle, epochs: self.epochs, batch_size: self.batch_size }
    }

    /// The same options with batches of `batch_size` rows.
    pub fn with_batch_size(self, batch_size: u64) -> (options: TrainOptions)
        ensures
            options.batch_size == batch_size,
            options.shuffle == self.shuffle,
            options.epochs == self.epochs,
    {
        TrainOptions { shuffle: self.shuffle, epochs: self.epochs, batch_size }
    }

    /// The number of batches that an epoch over `rows` rows makes.
    pub fn total_batches(&self, rows: u64) -> (count: u64)
        requires
            self.batch_size > 0,
        ensures
            count == batches_of(rows as int, self.batch_size as int),
    {
        let full: u64 = rows / self.batch_size;
        proof {
            vstd::arithmetic::div_mod::lemma_fundamental_div_mod(
                rows as int,
                self.batch_size as int,
            );
            if rows % self.batch_size != 0 {
                assert(full * self.batch_size < rows) by (nonlinear_arith)
                    requires
                        rows == self.batch_size * full + rows % self.batch_size,
                        rows % self.batch_size > 0,
                ;
                assert(full < rows) by (nonlinear_arith)
                    requires
                        full * self.batch_size < rows,
                        self.batch_size >= 1,
                        full >= 0,
                ;
            }
        }
        if rows % self.batch_size != 0 {
            full + 1
        } else {
            full
        }
    }

    /// The rows of batch `n`, first included and last excluded: batch `n`
    /// starts at row `n * batch_size` and ends `batch_size` rows on, or at the
    /// last row if that comes first.
    pub fn batch_bounds(&self, n: u64, rows: u64) -> (bounds: (u64, u64))
        requires
            self.batch_size > 0,
            n < batches_of(rows as int, self.batch_size as int),
        ensures
            bounds.0 == n * self.batch_size,
            bounds.1 == if (n + 1) * self.batch_size < rows {
                (n + 1) * self.batch_size
            } else {
                rows as int
            },
            bounds.0 < bounds.1 <= rows,
    {
        proof {
            let bs = self.batch_size as int;
            vstd::arithmetic::div_mod::lemma_fundamental_div_mod(rows as int, bs);
            let full = rows as int / bs;
            assert(n * bs < rows && (n + 1) * bs == n * bs + bs) by (nonlinear_arith)
                requires
                    rows == bs * full + rows as int % bs,
                    0 <= rows as int % bs < bs,
                    n < full + if rows as int % bs != 0 {
                        1int
                    } else {
                        0int
                    },
                    n >= 0,
                    bs > 0,
            ;
        }
        let start: u64 = n * self.batch_size;
        let end: u64 = if rows - start > self.batch_size {
            start + self.batch_size
        } else {
            rows
        };
        (start, end)
    }
}

/// Shuffles the rows of `input` with half as many swaps as it has rows and
/// makes the same swaps on `expected`, so that each row of `expected` stays
/// beside its row of `input`. The swaps come back in the order made.
pub fn shuffle<T: Copy, U: Copy>(input: &mut Matrix<T>, expected: &mut Matrix<U>) -> (swaps: Vec<
    (usize, usize),
>)
    requires
        old(input).wf(),
        old(expected).wf(),
        old(input).rows == old(expected).rows,
    ensures
        final(input).wf() && final(expected).wf(),
        final(input)@.same_shape(old(input)@),
        final(expected)@.same_shape(old(expected)@),
        swaps.len() == old(input).rows / 2,
        log_fits(swaps@, old(input).rows as nat),
        final(input)@ == old(input)@.replay(swaps@),
        final(expected)@ == old(expected)@.replay(swaps@),
{
    let swaps = input.shuffle_rows();
    expected.replay_swaps(&swaps);
    swaps
}

/// The number of the first `upto` rows in which `predicted` and `expected`
/// name the same class in their first column.
pub open spec fn hits(predicted: Grid<u8>, expected: Grid<u8>, upto: int) -> int
    decreases upto,
{
    if upto <= 0 {
        0
    } else {
        hits(predicted, expected, upto - 1) + if predicted.at(upto - 1, 0) == expected.at(
            upto - 1,
            0,
        ) {
            1int
        } else {
            0int
        }
    }
}

/// How many rows of `predicted` name the class that `expected` names, and how
/// many do not.
pub fn hit_miss(predicted: &Matrix<u8>, expected: &Matrix<u8>) -> (counts: (u64, u64))
    requires
        predicted.wf(),
        expected.wf(),
        predicted.rows == expected.rows,
        predicted.columns == 1,
        expected.columns >= 1,
    ensures
        counts.0 == hits(predicted@, expected@, predicted.rows as int),
        counts.0 + counts.1 == predicted.rows,
{
    let mut hit: u64 = 0;
    let mut miss: u64 = 0;
    let mut row: usize = 0;
    while row < predicted.rows
        invariant
            predicted.wf(),
            expected.wf(),
            predicted.rows == expected.rows,
            predicted.columns == 1,
            expected.columns >= 1,
            row <= predicted.rows,
            hit == hits(predicted@, expected@, row as int),
            hit + miss == row,
        decreases predicted.rows - row,
    {
        if expected.at(row, 0) == predicted.at(row, 0) {
            hit += 1;
        } else {
            miss += 1;
        }
        row += 1;
    }
    (hit, miss)
}

} // verus!
