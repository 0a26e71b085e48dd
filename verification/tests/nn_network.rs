use simple_nn::nn::formatter::{progress_line, width_with_measure, FULL_WIDTH, MEASURE_PADDING};
use simple_nn::nn::network::{hit_miss, shuffle};
use simple_nn::{Matrix, TrainOptions};

#[test]
fn train_options_default_and_builders() {
    let options = TrainOptions::default();
    assert!(options.shuffle);
    assert_eq!(options.epochs, 1);
    assert_eq!(options.batch_size, 64);
    let changed = options.with_epochs(5).with_shuffle(false).with_batch_size(10);
    assert!(!changed.shuffle);
    assert_eq!(changed.epochs, 5);
    assert_eq!(changed.batch_size, 10);
}

#[test]
fn batches_cover_the_rows_with_a_short_last_one() {
    let options = TrainOptions::default().with_batch_size(64);
    assert_eq!(options.total_batches(0), 0);
    assert_eq!(options.total_batches(64), 1);
    assert_eq!(options.total_batches(65), 2);
    assert_eq!(options.total_batches(200), 4);
    assert_eq!(options.batch_bounds(0, 200), (0, 64));
    assert_eq!(options.batch_bounds(2, 200), (128, 192));
    assert_eq!(options.batch_bounds(3, 200), (192, 200));
    assert_eq!(options.batch_bounds(0, 64), (0, 64));
    let whole = TrainOptions::default().with_batch_size(u64::MAX);
    assert_eq!(whole.total_batches(u64::MAX), 1);
    assert_eq!(whole.batch_bounds(0, 10), (0, 10));
}

#[test]
fn shuffle_keeps_labels_beside_their_rows() {
    let mut input = Matrix::tabulate(50, 3, |r: usize, c: usize| 10 * r + c);
    let mut expected = Matrix::tabulate(50, 1, |r: usize, _c: usize| 1000 * r as u64);
    let swaps = shuffle(&mut input, &mut expected);
    assert_eq!(swaps.len(), 25);
    for r in 0..50 {
        let origin = input.at(r, 0) / 10;
        assert_eq!(input.at(r, 2), 10 * origin + 2);
        assert_eq!(expected.at(r, 0), 1000 * origin as u64);
    }
}

#[test]
fn hit_miss_counts_rows_that_agree() {
    let predicted = Matrix::new_from(4, 1, vec![1u8, 0, 2, 2]);
    let expected = Matrix::new_from(4, 1, vec![1u8, 1, 2, 0]);
    assert_eq!(hit_miss(&predicted, &expected), (2, 2));
    let none = Matrix::<u8>::new_from(0, 1, vec![]);
    assert_eq!(hit_miss(&none, &none), (0, 0));
}

#[test]
fn progress_formatter_progress() {
    let width = width_with_measure(width_with_measure(FULL_WIDTH, 3), 4);
    assert_eq!(MEASURE_PADDING, 8);
    assert_eq!(width, 17);
    assert_eq!(
        progress_line(10, 20, width, "acc = 0.80000, loss = 12.34568"),
        "10 / 20 (50%) [========>---------] - acc = 0.80000, loss = 12.34568"
    );
    assert_eq!(
        progress_line(20, 20, width, "acc = 0.90000, loss = 6.17284"),
        "20 / 20 (100%) [=================>] - acc = 0.90000, loss = 6.17284"
    );
    assert_eq!(progress_line(0, 3, 2, ""), "0 / 3 (0%) [>--] - ");
    assert_eq!(progress_line(1, 3, 0, "x"), "1 / 3 (33%) [>] - x");
}
