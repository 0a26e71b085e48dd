use simple_nn::nn::functions::{argmax, low_byte_of};
use simple_nn::Matrix;

#[test]
fn functions_argmax() {
    let input = Matrix::new_from(2, 4, vec![1.0, 2.0, 3.0, 1.0, -1.0, 8.0, 2.0, 1.0]);
    let expected = Matrix::new_from(2, 1, vec![2, 1]);
    let output = argmax(&input);
    assert_eq!(output, expected);
}

#[test]
fn argmax_takes_the_first_of_equal_cells_above_default() {
    let input = Matrix::new_from(3, 3, vec![5, 9, 9, -4, -2, -3, 0, 0, 1]);
    assert_eq!(argmax(&input), Matrix::new_from(3, 1, vec![1, 0, 2]));
    let none = Matrix::<i32>::new_from(2, 0, vec![]);
    assert_eq!(argmax(&none), Matrix::new_from(2, 1, vec![0, 0]));
}

#[test]
fn argmax_keeps_the_low_byte_of_the_column() {
    let mut cells = vec![0u16; 300];
    cells[299] = 1;
    let input = Matrix::new_from(1, 300, cells);
    assert_eq!(argmax(&input), Matrix::new_from(1, 1, vec![43]));
    assert_eq!(low_byte_of(255), 255);
    assert_eq!(low_byte_of(256), 0);
}

#[test]
fn one_hot_marks_the_class_of_each_row() {
    let labels = Matrix::new_from(3, 1, vec![2usize, 0, 1]);
    let hot: Matrix<f64> = labels.to_one_hot(3);
    assert_eq!(hot, Matrix::new_from(3, 3, vec![0.0, 0.0, 1.0, 1.0, 0.0, 0.0, 0.0, 1.0, 0.0]));
    let wide: Matrix<u32> = Matrix::new_from(1, 1, vec![1usize]).to_one_hot(10);
    assert_eq!(wide, Matrix::new_from(1, 10, vec![0, 1, 0, 0, 0, 0, 0, 0, 0, 0]));
}
