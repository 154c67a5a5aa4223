use raytracer_core::matrix::Matrix;
use raytracer_core::text::table_cells;

fn matrix_of(text: &str) -> Matrix<f64> {
    let rows: Vec<Vec<f64>> = table_cells(text)
        .iter()
        .map(|row| row.iter().map(|cell| cell.parse::<f64>().unwrap()).collect())
        .collect();
    Matrix::from_rows(rows).unwrap()
}

fn same(a: &Matrix<f64>, b: &Matrix<f64>) -> bool {
    if a.n_rows() != b.n_rows() || a.n_columns() != b.n_columns() {
        return false;
    }
    for i in 0..a.n_rows() {
        for j in 0..a.n_columns() {
            if (a.get(i, j) - b.get(i, j)).abs() >= 0.00001 {
                return false;
            }
        }
    }
    true
}

#[test]
pub fn matrix_creation() {
    let s = "
    | 1    | 2    | 3    | 4    |
    | 5.5  | 6.5  | 7.5  | 8.5  |
    | 9    | 10   | 11   | 12   |
    | 13.5 | 14.5 | 15.5 | 16.5 |
    ";
    let m = matrix_of(s);

    assert_eq!(m.n_rows(), 4);
    assert_eq!(m.n_columns(), 4);
    assert_eq!(m.get(0, 0), 1.0);
    assert_eq!(m.get(0, 3), 4.0);
    assert_eq!(m.get(1, 0), 5.5);
    assert_eq!(m.get(1, 2), 7.5);
    assert_eq!(m.get(2, 2), 11.0);
    assert_eq!(m.get(3, 0), 13.5);
    assert_eq!(m.get(3, 2), 15.5);
}

#[test]
pub fn matrix_2x2() {
    let s = "|-3|5|
    |1|-2|";

    let m = matrix_of(s);

    assert_eq!(m.get(0, 0), -3.0);
    assert_eq!(m.get(0, 1), 5.0);
    assert_eq!(m.get(1, 0), 1.0);
    assert_eq!(m.get(1, 1), -2.0);
}

#[test]
pub fn matrix_3x3() {
    let s = "|-3|5|0|
    |1|-2|-7|
    |0|1|1|";

    let m = matrix_of(s);

    assert_eq!(m.get(0, 0), -3.0);
    assert_eq!(m.get(1, 1), -2.0);
    assert_eq!(m.get(2, 2), 1.0);
}

#[test]
fn table_cells_split() {
    let cells = table_cells("\n  | a |bc|\t d\r\n\n|||\n x");
    assert_eq!(
        cells,
        vec![
            vec!["a".to_string(), "bc".to_string(), "d".to_string()],
            vec!["x".to_string()],
        ]
    );
    assert!(table_cells("").is_empty());
    assert!(table_cells(" | \n\u{3000}\n").is_empty());
}

#[test]
fn matrix_ragged_rows_are_refused() {
    assert!(Matrix::from_rows(vec![vec![1, 2], vec![3]]).is_none());
    let empty = Matrix::<i32>::from_rows(vec![]).unwrap();
    assert_eq!(empty.n_rows(), 0);
    assert_eq!(empty.n_columns(), 0);
}

#[test]
fn matrix_set_entry() {
    let mut m = Matrix::identity_matrix(3, 0, 1);
    m.set(0, 2, 7);
    assert_eq!(m.get(0, 2), 7);
    assert_eq!(m.get(0, 0), 1);
    assert_eq!(m.get(2, 0), 0);
}

#[test]
pub fn transpose() {
    let s = "
    | 0 | 9 | 3 | 0 |
    | 9 | 8 | 0 | 8 |
    | 1 | 8 | 5 | 3 |
    | 0 | 0 | 5 | 8 |
    ";

    let transposed = "
    | 0 | 9 | 1 | 0 |
    | 9 | 8 | 8 | 0 |
    | 3 | 0 | 5 | 5 |
    | 0 | 8 | 3 | 8 |
    ";

    let m = matrix_of(s);
    let expected = matrix_of(transposed);
    let actual = m.transpose();
    assert!(same(&actual, &expected));
}

#[test]
fn transpose_not_square() {
    let m = Matrix::from_rows(vec![vec![1, 2, 3], vec![4, 5, 6]]).unwrap();
    let t = m.transpose();
    assert_eq!(t.n_rows(), 3);
    assert_eq!(t.n_columns(), 2);
    assert_eq!(t.get(2, 0), 3);
    assert_eq!(t.get(0, 1), 4);
}

#[test]
pub fn transpose_identity() {
    let id = Matrix::identity_matrix(4, 0.0, 1.0);
    let transposed = id.transpose();
    assert!(same(&transposed, &id));
}

#[test]
pub fn submatrix_3x3() {
    let s = "
    | 1 | 5 | 0 |
    | -3 | 2 | 7 |
    | 0 | 6 | -3 |
    ";

    let expected = "
    | -3 | 2 |
    | 0 | 6 |
    ";

    let m = matrix_of(s);
    let expected = matrix_of(expected);

    let actual = m.submatrix(0, 2);
    assert!(same(&expected, &actual));
}

#[test]
pub fn submatrix_4x4() {
    let s = "
    | -6 | 1 | 1 | 6 |
    | -8 | 5 | 8 | 6 |
    | -1 | 0 | 8 | 2 |
    | -7 | 1 | -1 | 1 |
    ";

    let expected = "
    | -6 | 1 | 6 |
    | -8 | 8 | 6 |
    | -7 | -1 | 1 |
    ";

    let m = matrix_of(s);
    let expected = matrix_of(expected);

    let actual = m.submatrix(2, 1);
    assert!(same(&expected, &actual));
}
