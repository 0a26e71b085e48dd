use simple_nn::linalg::render::{push_decimal, push_text};
use simple_nn::linalg::text::{chars_of, split, text_of, ParseMatrixError};
use simple_nn::Matrix;

fn integer(token: &str) -> Result<i64, String> {
    token.parse::<i64>().map_err(|e| e.to_string())
}

#[test]
fn text_round_trip_of_integers() {
    let matrix = Matrix::new_from(3, 2, vec![1, -2, 30, 4, 5, -600]);
    let text = matrix.format_with(|v: i64| v.to_string());
    assert_eq!(text, "1 -2\n30 4\n5 -600");
    assert_eq!(Matrix::parse_with(&text, integer), Ok(matrix));
}

#[test]
fn text_round_trip_of_reals() {
    let matrix = Matrix::new_from(2, 2, vec![0.5, -1.25, 7.70e+01, 3.0]);
    let text = matrix.format_with(|v: f64| v.to_string());
    let back = Matrix::parse_with(&text, |t: &str| t.parse::<f64>().map_err(|e| e.to_string()));
    assert_eq!(back, Ok(matrix));
}

#[test]
fn text_is_trimmed_before_it_is_split() {
    let parsed = Matrix::parse_with(" \t\n1 2\n3 4\n\n ", integer);
    assert_eq!(parsed, Ok(Matrix::new_from(2, 2, vec![1, 2, 3, 4])));
}

#[test]
fn text_reports_the_first_token_that_does_not_parse() {
    let expected = "x1".parse::<i64>().unwrap_err().to_string();
    let parsed = Matrix::parse_with("1 x1\n3 y", integer);
    assert_eq!(parsed, Err(ParseMatrixError { message: expected.clone() }));
    let error = parsed.unwrap_err();
    assert_eq!(error.__description(), "could not parse matrix");
    assert_eq!(error.to_string(), format!("could not parse matrix: {}", expected));
}

#[test]
fn text_with_two_spaces_has_an_empty_token() {
    let expected = "".parse::<i64>().unwrap_err().to_string();
    let parsed = Matrix::parse_with("1  2", integer);
    assert_eq!(parsed, Err(ParseMatrixError { message: expected.clone() }));
    let empty = Matrix::parse_with("", integer);
    assert_eq!(empty, Err(ParseMatrixError { message: expected }));
}

#[test]
fn text_takes_its_columns_from_the_first_line() {
    let longer = Matrix::parse_with("1 2\n3 4 5", integer);
    assert_eq!(longer, Ok(Matrix::new_from(2, 2, vec![1, 2, 3, 4])));
    let shorter = Matrix::parse_with("1 2\n3", integer);
    assert_eq!(
        shorter,
        Err(ParseMatrixError { message: String::from("a line has fewer cells than the first line") })
    );
}

#[test]
fn text_pieces_between_separators() {
    let chars = chars_of("a,,bc,");
    assert_eq!(chars, vec!['a', ',', ',', 'b', 'c', ',']);
    let pieces = split(&chars, 0, chars.len(), ',');
    assert_eq!(pieces, vec![vec!['a'], vec![], vec!['b', 'c'], vec![]]);
    assert_eq!(split(&chars, 3, 5, ','), vec![vec!['b', 'c']]);
    assert_eq!(split(&chars, 2, 2, ','), vec![Vec::<char>::new()]);
}

#[test]
fn text_dump_for_the_eye() {
    let matrix = Matrix::new_from(2, 3, vec![1, 2, 3, 4, 5, 6]);
    let dump = matrix.display_with(|v: i32| v.to_string());
    assert_eq!(dump, "Matrix 2x3\n--------------\n1 2 3 \n4 5 6 \n--------------");
    let wide = Matrix::<u8>::new_from(0, 12, vec![]);
    assert_eq!(
        wide.display_with(|v: u8| v.to_string()),
        "Matrix 0x12\n--------------\n--------------"
    );
}

#[test]
fn text_decimal_digits() {
    let mut out = vec!['n', '='];
    push_decimal(&mut out, 0);
    push_text(&mut out, ", ");
    push_decimal(&mut out, 9);
    push_text(&mut out, ", ");
    push_decimal(&mut out, 10);
    push_text(&mut out, ", ");
    push_decimal(&mut out, 18446744073709551615);
    let text: String = out.iter().collect();
    assert_eq!(text, "n=0, 9, 10, 18446744073709551615");
}

#[test]
fn text_of_characters() {
    assert_eq!(text_of(&vec!['a', ' ', 'é', '\n']), "a é\n");
    assert_eq!(text_of(&vec![]), "");
    assert_eq!(chars_of("né"), vec!['n', 'é']);
}
