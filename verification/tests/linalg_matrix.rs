use simple_nn::linalg::strassen;
use simple_nn::Matrix;

#[test]
fn matrix_creation() {
    let matrix = Matrix::<f64>::new(10, 5);
    assert_eq!(matrix.rows, 10);
    assert_eq!(matrix.columns, 5);
}

#[test]
fn matrix_creation_from_vector() {
    let matrix = simple_nn::Matrix::new_from(2, 3, vec![0.1, 0.2, 0.3, 0.4, 0.5, 0.6]);
    assert_eq!(matrix.rows, 2);
    assert_eq!(matrix.columns, 3);
    assert_eq!(matrix.at(1, 1), 0.5);
}

#[test]
fn matrix_add() {
    let matrix = Matrix::new_from(2, 3, vec![0.1, 0.2, 0.3, 0.4, 0.5, 0.6]);
    let other = Matrix::new_from(2, 3, vec![1.0, 2.0, -1.0, 3.0, -2.0, 0.0]);
    let result = &matrix + &other;
    let expected = Matrix::new_from(2, 3, vec![1.1, 2.2, -0.7, 3.4, -1.5, 0.6]);
    assert_eq!(expected, result);
}

#[test]
#[should_panic]
fn matrix_add_bad_size() {
    let matrix = Matrix::new_from(2, 3, vec![0.1, 0.2, 0.3, 0.4, 0.5, 0.6]);
    let other = Matrix::new_from(2, 2, vec![1.0, 2.0, -1.0, 3.0]);
    let _ = &matrix + &other;
}

#[test]
fn matrix_sub() {
    let matrix = Matrix::new_from(2, 3, vec![0.1, 0.2, 0.3, 0.4, 0.5, 0.6]);
    let other = Matrix::new_from(2, 3, vec![1.0, 2.0, -1.0, 3.0, -2.0, 0.0]);
    let result = &matrix - &other;
    let expected = Matrix::new_from(2, 3, vec![-0.9, -1.8, 1.3, -2.6, 2.5, 0.6]);
    assert_eq!(result, expected);
}

#[test]
fn matrix_mul() {
    let matrix = Matrix::new_from(2, 3, vec![8.0, 9.0, 12.0, 15.0, 21.0, 42.0]);
    let other = Matrix::new_from(2, 3, vec![2.0, 3.0, 2.0, 3.0, 3.0, 7.0]);
    let result = &matrix * &other;
    let expected = Matrix::new_from(2, 3, vec![16.0, 27.0, 24.0, 45.0, 63.0, 294.0]);
    assert_eq!(result, expected);
}

#[test]
fn matrix_div() {
    let matrix = Matrix::new_from(2, 3, vec![8.0, 9.0, 12.0, 15.0, 21.0, 42.0]);
    let other = Matrix::new_from(2, 3, vec![2.0, 3.0, 2.0, 3.0, 3.0, 7.0]);
    let result = &matrix / &other;
    let expected = Matrix::new_from(2, 3, vec![4.0, 3.0, 6.0, 5.0, 7.0, 6.0]);
    assert_eq!(result, expected);
}

#[test]
fn matrix_matmul() {
    let matrix = Matrix::new_from(2, 3, vec![1.0, 2.0, 3.0, 4.0, 5.0, 6.0]);
    let other = Matrix::new_from(3, 2, vec![2.0, 4.0, 8.0, 3.0, 7.0, 2.0]);
    let result = matrix.matmul(&other);
    let expected = Matrix::new_from(2, 2, vec![39.0, 16.0, 90.0, 43.0]);
    assert_eq!(result, expected);
}

#[test]
fn matrix_t() {
    let matrix = Matrix::new_from(2, 3, vec![1.0, 2.0, 3.0, 4.0, 5.0, 6.0]);
    let result = matrix.t();
    let expected = Matrix::new_from(3, 2, vec![1.0, 4.0, 2.0, 5.0, 3.0, 6.0]);
    assert_eq!(result, expected);
    assert_eq!(matrix, result.t());
}

#[test]
fn slice_rows() {
    let matrix = Matrix::new_from(4, 2, vec![1.0, 2.0, 3.0, 4.0, 5.0, 6.0, 7.0, 8.0]);
    let sliced = matrix.slice_rows(1..3);
    assert_eq!(sliced, Matrix::new_from(2, 2, vec![3.0, 4.0, 5.0, 6.0]));
}

#[test]
fn strassen_mul() {
    let matrix = Matrix::<i64>::random(100, 100, -20, 20);
    let other = Matrix::<i64>::random(100, 100, -20, 20);
    assert_eq!(strassen::mul(&matrix, &other), matrix.matmul(&other));
}

#[test]
fn matrix_from_str() {
    let string = "1.1 2 3 4\n5 6 7.70e+01 8\n9 10 11 12";
    let expected = Matrix::new_from(
        3,
        4,
        vec![1.1, 2.0, 3.0, 4.0, 5.0, 6.0, 7.70e+01, 8.0, 9.0, 10.0, 11.0, 12.0],
    );
    let parsed = Matrix::parse_with(string, |token: &str| {
        token.parse::<f64>().map_err(|e| e.to_string())
    });
    assert_eq!(parsed.unwrap(), expected);
}

#[test]
fn matrix_new_is_filled_with_default() {
    let matrix = Matrix::<i64>::new(2, 3);
    assert_eq!(matrix, Matrix::new_from(2, 3, vec![0, 0, 0, 0, 0, 0]));
    let empty = Matrix::<u8>::new(0, 5);
    assert_eq!(empty.rows, 0);
    assert_eq!(empty.columns, 5);
    assert_eq!(empty.elements.len(), 0);
}

#[test]
fn matrix_filled_and_tabulate() {
    let filled = Matrix::filled(2, 2, 7u32);
    assert_eq!(filled, Matrix::new_from(2, 2, vec![7, 7, 7, 7]));
    let table = Matrix::tabulate(2, 3, |r: usize, c: usize| 10 * r + c);
    assert_eq!(table, Matrix::new_from(2, 3, vec![0, 1, 2, 10, 11, 12]));
}

#[test]
fn matrix_set_at_changes_one_cell() {
    let mut matrix = Matrix::new_from(2, 3, vec![1, 2, 3, 4, 5, 6]);
    matrix.set_at(1, 0, 40);
    assert_eq!(matrix, Matrix::new_from(2, 3, vec![1, 2, 3, 40, 5, 6]));
    assert_eq!(matrix.at(1, 0), 40);
    assert_eq!(matrix.at(0, 2), 3);
    assert_eq!(matrix.size(), 6);
}

#[test]
fn matrix_same_size_tells_shapes_apart() {
    let matrix = Matrix::new_from(2, 3, vec![0.1, 0.2, 0.3, 0.4, 0.5, 0.6]);
    let other = Matrix::new_from(2, 2, vec![1.0, 2.0, -1.0, 3.0]);
    let third = Matrix::new_from(2, 3, vec![1, 2, 3, 4, 5, 6]);
    assert!(!matrix.same_size(&other));
    assert!(matrix.same_size(&third));
    matrix.assert_same_size(&matrix);
}

#[test]
fn matrix_clone_is_deep() {
    let matrix = Matrix::new_from(2, 2, vec![1, 2, 3, 4]);
    let mut copy = matrix.clone();
    assert_eq!(copy, matrix);
    copy.set_at(0, 0, 9);
    assert_eq!(matrix.at(0, 0), 1);
    assert_eq!(copy.at(0, 0), 9);
}

#[test]
fn matrix_transpose_twice_is_identity() {
    let matrix = Matrix::new_from(3, 2, vec![1, 2, 3, 4, 5, 6]);
    assert_eq!(matrix.t().t(), matrix);
    let empty = Matrix::<i32>::new_from(0, 4, vec![]);
    let back = empty.t().t();
    assert_eq!(back.rows, 0);
    assert_eq!(back.columns, 4);
}

#[test]
fn matrix_add_mut_matches_add_and_keeps_other() {
    let matrix = Matrix::new_from(2, 2, vec![1, 2, 3, 4]);
    let other = Matrix::new_from(2, 2, vec![10, 20, 30, 40]);
    let sum = matrix.add(&other);
    assert_eq!(sum, Matrix::new_from(2, 2, vec![11, 22, 33, 44]));
    let mut in_place = matrix.clone();
    in_place.add_mut(&other);
    assert_eq!(in_place, sum);
    assert_eq!(other, Matrix::new_from(2, 2, vec![10, 20, 30, 40]));
}

#[test]
fn matrix_in_place_operations() {
    let other = Matrix::new_from(1, 3, vec![2, 3, 4]);
    let mut matrix = Matrix::new_from(1, 3, vec![8, 9, 12]);
    matrix.sub_mut(&other);
    assert_eq!(matrix, Matrix::new_from(1, 3, vec![6, 6, 8]));
    matrix.mul_mut(&other);
    assert_eq!(matrix, Matrix::new_from(1, 3, vec![12, 18, 32]));
    matrix.div_mut(&other);
    assert_eq!(matrix, Matrix::new_from(1, 3, vec![6, 6, 8]));
}

#[test]
fn matrix_copying_operations() {
    let matrix = Matrix::new_from(1, 3, vec![8, 9, 12]);
    let other = Matrix::new_from(1, 3, vec![2, 3, 4]);
    assert_eq!(matrix.sub(&other), Matrix::new_from(1, 3, vec![6, 6, 8]));
    assert_eq!(matrix.mul(&other), Matrix::new_from(1, 3, vec![16, 27, 48]));
    assert_eq!(matrix.div(&other), Matrix::new_from(1, 3, vec![4, 3, 3]));
}

#[test]
fn matrix_matmul_from_starts_each_sum_at_zero_given() {
    let matrix = Matrix::new_from(2, 3, vec![1, 2, 3, 4, 5, 6]);
    let other = Matrix::new_from(3, 2, vec![2, 4, 8, 3, 7, 2]);
    assert_eq!(matrix.matmul(&other), Matrix::new_from(2, 2, vec![39, 16, 90, 43]));
    assert_eq!(matrix.matmul_from(&other, 100), Matrix::new_from(2, 2, vec![139, 116, 190, 143]));
    let thin = Matrix::<i32>::new_from(2, 0, vec![]);
    let flat = Matrix::<i32>::new_from(0, 2, vec![]);
    assert_eq!(thin.matmul(&flat), Matrix::new_from(2, 2, vec![0, 0, 0, 0]));
}

#[test]
fn matrix_slice_rows_edges() {
    let matrix = Matrix::new_from(4, 2, vec![1, 2, 3, 4, 5, 6, 7, 8]);
    assert_eq!(matrix.slice_rows(0..4), matrix);
    let none = matrix.slice_rows(2..2);
    assert_eq!(none.rows, 0);
    assert_eq!(none.columns, 2);
    assert_eq!(matrix.slice_rows(3..4), Matrix::new_from(1, 2, vec![7, 8]));
}

#[test]
fn matrix_swap_rows() {
    let mut matrix = Matrix::new_from(3, 2, vec![1, 2, 3, 4, 5, 6]);
    matrix.swap_rows(0, 2);
    assert_eq!(matrix, Matrix::new_from(3, 2, vec![5, 6, 3, 4, 1, 2]));
    matrix.swap_rows(1, 1);
    assert_eq!(matrix, Matrix::new_from(3, 2, vec![5, 6, 3, 4, 1, 2]));
}

#[test]
fn matrix_replay_swaps_in_order() {
    let mut matrix = Matrix::new_from(3, 1, vec![10, 20, 30]);
    matrix.replay_swaps(&vec![(0, 1), (1, 2)]);
    assert_eq!(matrix, Matrix::new_from(3, 1, vec![20, 30, 10]));
}

#[test]
fn matrix_shuffle_rows_returns_the_swaps_it_made() {
    let original = Matrix::tabulate(9, 2, |r: usize, c: usize| 10 * r + c);
    let mut shuffled = original.clone();
    let swaps = shuffled.shuffle_rows();
    assert_eq!(swaps.len(), 4);
    for &(row, other) in swaps.iter() {
        assert!(row < 9);
        assert!(other < 9);
    }
    let mut replayed = original.clone();
    replayed.replay_swaps(&swaps);
    assert_eq!(replayed, shuffled);
    let mut tall = Matrix::tabulate(200, 1, |r: usize, _c: usize| r);
    let drawn = tall.shuffle_rows();
    assert_eq!(drawn.len(), 100);
    assert!(drawn.iter().any(|&(row, other)| row != 0 || other != 0));
    assert!(drawn.iter().all(|&(row, other)| row < 200 && other < 200));
}

#[test]
fn matrix_shuffle_rows_of_short_matrices_swaps_nothing() {
    let mut empty = Matrix::<u8>::new_from(0, 3, vec![]);
    assert_eq!(empty.shuffle_rows(), vec![]);
    let mut single = Matrix::new_from(1, 2, vec![1, 2]);
    assert_eq!(single.shuffle_rows(), vec![]);
    assert_eq!(single, Matrix::new_from(1, 2, vec![1, 2]));
}

#[test]
fn matrix_random_stays_in_range() {
    let matrix = Matrix::<i64>::random(20, 30, -3, 4);
    assert_eq!(matrix.rows, 20);
    assert_eq!(matrix.columns, 30);
    let mut seen_other_than_low = false;
    for r in 0..20 {
        for c in 0..30 {
            let value = matrix.at(r, c);
            assert!(-3 <= value && value < 4);
            if value != -3 {
                seen_other_than_low = true;
            }
        }
    }
    assert!(seen_other_than_low);
    let one = Matrix::<i64>::random(3, 3, 5, 6);
    assert_eq!(one, Matrix::new_from(3, 3, vec![5; 9]));
}

#[test]
fn matrix_block_and_assemble() {
    let matrix = Matrix::tabulate(4, 4, |r: usize, c: usize| 10 * r + c);
    let c11 = matrix.block(0, 0, 2, 2);
    let c12 = matrix.block(0, 2, 2, 2);
    let c21 = matrix.block(2, 0, 2, 2);
    let c22 = matrix.block(2, 2, 2, 2);
    assert_eq!(c12, Matrix::new_from(2, 2, vec![2, 3, 12, 13]));
    assert_eq!(c21, Matrix::new_from(2, 2, vec![20, 21, 30, 31]));
    assert_eq!(Matrix::assemble(&c11, &c12, &c21, &c22), matrix);
}

#[test]
fn strassen_agrees_with_matmul_on_integers() {
    for &n in [1usize, 2, 63, 64, 65, 66, 128].iter() {
        let matrix = Matrix::<i64>::random(n, n, -20, 20);
        let other = Matrix::<i64>::random(n, n, -20, 20);
        assert_eq!(strassen::mul(&matrix, &other), matrix.matmul(&other));
    }
}

#[test]
fn strassen_falls_back_on_rectangles() {
    let matrix = Matrix::<i64>::random(64, 10, -20, 20);
    let other = Matrix::<i64>::random(10, 3, -20, 20);
    let product = strassen::mul(&matrix, &other);
    assert_eq!(product.rows, 64);
    assert_eq!(product.columns, 3);
    assert_eq!(product, matrix.matmul(&other));
    let wide = Matrix::<i64>::random(64, 64, -20, 20);
    let narrow = Matrix::<i64>::random(64, 2, -20, 20);
    assert_eq!(strassen::mul(&wide, &narrow), wide.matmul(&narrow));
}

#[test]
fn strassen_scenario_of_two_by_three() {
    let matrix = Matrix::new_from(2, 3, vec![1, 2, 3, 4, 5, 6]);
    let other = Matrix::new_from(3, 2, vec![2, 4, 8, 3, 7, 2]);
    assert_eq!(strassen::mul(&matrix, &other), Matrix::new_from(2, 2, vec![39, 16, 90, 43]));
    assert_eq!(matrix.t(), Matrix::new_from(3, 2, vec![1, 4, 2, 5, 3, 6]));
}

#[test]
fn strassen_pieces_make_the_product() {
    let a = Matrix::<i64>::random(64, 64, -9, 9);
    let b = Matrix::<i64>::random(64, 64, -9, 9);
    let (a11, a12) = (a.block(0, 0, 32, 32), a.block(0, 32, 32, 32));
    let (a21, a22) = (a.block(32, 0, 32, 32), a.block(32, 32, 32, 32));
    let (b11, b12) = (b.block(0, 0, 32, 32), b.block(0, 32, 32, 32));
    let (b21, b22) = (b.block(32, 0, 32, 32), b.block(32, 32, 32, 32));
    let pairs = strassen::operand_pairs(&a11, &a12, &a21, &a22, &b11, &b12, &b21, &b22);
    assert_eq!(pairs.len(), 7);
    assert_eq!(pairs[0].0, a11.add(&a22));
    assert_eq!(pairs[3].1, b21.sub(&b11));
    assert_eq!(pairs[4].1, b22);
    let p: Vec<Matrix<i64>> =
        pairs.iter().map(|pair| strassen::strassen_mul(&pair.0, &pair.1, 2, 0)).collect();
    let combined = strassen::combine(&p[0], &p[1], &p[2], &p[3], &p[4], &p[5], &p[6]);
    assert_eq!(combined, a.matmul(&b));
    let single =
        strassen::mul_single_thread(&a11, &a12, &a21, &a22, &b11, &b12, &b21, &b22, 1, 0);
    assert_eq!(single.0, p[0]);
    assert_eq!(single.6, p[6]);
}

#[test]
fn strassen_hands_out_only_the_first_split() {
    assert_eq!(strassen::MIN_SIZE, 64);
    assert_eq!(strassen::THREAD_MAX_DEPTH, 1);
    assert!(strassen::spawns_threads(0));
    assert!(strassen::spawns_threads(1));
    assert!(!strassen::spawns_threads(2));
    assert!(!strassen::spawns_threads(255));
}
