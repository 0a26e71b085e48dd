use simple_nn::Matrix;

fn sample() -> Matrix<i64> {
    Matrix::new_from(2, 3, vec![1, 2, 3, 4, 5, 6])
}

#[test]
fn reduce_folds_in_row_major_order() {
    let text = sample().reduce(String::new(), |acc: String, v: i64| format!("{}{}", acc, v));
    assert_eq!(text, "123456");
    assert_eq!(sample().reduce(100, |acc: i64, v: i64| acc - v), 79);
    let empty = Matrix::<i64>::new_from(0, 3, vec![]);
    assert_eq!(empty.reduce(7, |acc: i64, v: i64| acc + v), 7);
}

#[test]
fn reduce_with_index_sees_row_and_column() {
    let seen = sample().reduce_with_index(
        Vec::new(),
        |mut acc: Vec<(i64, usize, usize)>, v: i64, r: usize, c: usize| {
            acc.push((v, r, c));
            acc
        },
    );
    assert_eq!(seen, vec![(1, 0, 0), (2, 0, 1), (3, 0, 2), (4, 1, 0), (5, 1, 1), (6, 1, 2)]);
}

#[test]
fn reduce_rows_gives_one_column() {
    let sums = sample().reduce_rows(0, |acc: i64, v: i64| acc + v);
    assert_eq!(sums, Matrix::new_from(2, 1, vec![6, 15]));
    let weighted =
        sample().reduce_rows_with_index(0, |acc: i64, v: i64, r: usize, c: usize| {
            acc + v * (10 * r + c) as i64
        });
    assert_eq!(weighted, Matrix::new_from(2, 1, vec![8, 167]));
}

#[test]
fn reduce_columns_gives_one_row() {
    let sums = sample().reduce_columns(0, |acc: i64, v: i64| acc + v);
    assert_eq!(sums, Matrix::new_from(1, 3, vec![5, 7, 9]));
    let ordered = sample().reduce_columns_with_index(
        0,
        |acc: i64, v: i64, r: usize, c: usize| 10 * acc + v + (r + c) as i64,
    );
    assert_eq!(ordered, Matrix::new_from(1, 3, vec![15, 37, 59]));
}

#[test]
fn transform_maps_every_cell() {
    let doubled = sample().transform(|v: i64| (2 * v) as u8);
    assert_eq!(doubled, Matrix::new_from(2, 3, vec![2u8, 4, 6, 8, 10, 12]));
    let placed = sample().transform_with_index(|v: i64, r: usize, c: usize| v + (100 * r + 10 * c) as i64);
    assert_eq!(placed, Matrix::new_from(2, 3, vec![1, 12, 23, 104, 115, 126]));
}
