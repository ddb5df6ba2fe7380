use tiny_basic::matrix::Matrix;
use tiny_basic::matrix4::{Cell, Matrix as Matrix4};

#[test]
fn rows_come_one_after_the_other() {
    let matrix = Matrix::new(2, 3, &[1, 2, 3, 4, 5, 6]);
    let mut walk = matrix.by_row();
    let mut cells = Vec::new();
    while let Some(cell) = walk.next() {
        cells.push(*cell);
    }
    assert_eq!(cells, [1, 2, 3, 4, 5, 6]);
    assert_eq!(walk.next(), None);
}

#[test]
fn columns_come_one_after_the_other() {
    let matrix = Matrix::new(2, 3, &[1, 2, 3, 4, 5, 6]);
    let mut walk = matrix.by_col();
    let mut cells = Vec::new();
    while let Some(cell) = walk.next() {
        cells.push(*cell);
    }
    assert_eq!(cells, [1, 4, 2, 5, 3, 6]);
    assert_eq!(walk.next(), None);
}

#[test]
fn a_matrix_takes_no_more_cells_than_it_has() {
    let matrix = Matrix::new(1, 2, &["a", "b", "c"]);
    let mut walk = matrix.by_row();
    assert_eq!(walk.next(), Some(&"a"));
    assert_eq!(walk.next(), Some(&"b"));
    assert_eq!(walk.next(), None);
    let mut walk = matrix.by_col();
    assert_eq!(walk.next(), Some(&"a"));
    assert_eq!(walk.next(), Some(&"b"));
    assert_eq!(walk.next(), None);
}

#[test]
fn a_matrix_without_columns_has_no_cells() {
    let matrix: Matrix<u8> = Matrix::new(3, 0, &[]);
    assert_eq!(matrix.rows(), 3);
    assert_eq!(matrix.cols(), 0);
    assert_eq!(matrix.by_row().next(), None);
    assert_eq!(matrix.by_col().next(), None);
}

#[test]
fn a_column_of_one_matrix_is_its_row() {
    let matrix = Matrix::new(3, 1, &[7, 8, 9]);
    let mut walk = matrix.by_col();
    assert_eq!(walk.next(), Some(&7));
    assert_eq!(walk.next(), Some(&8));
    assert_eq!(walk.next(), Some(&9));
    assert_eq!(walk.next(), None);
}

fn texts() -> Matrix4<String> {
    Matrix4::new(&["one".to_string(), "two".to_string(), "three".to_string(), "you get it".to_string()])
}

#[test]
fn a_small_matrix_is_read_by_rows_and_by_columns() {
    let matrix = Matrix4::new(&[1, 2, 3, 4]);
    assert_eq!(matrix.by_row(), [Cell(1), Cell(2), Cell(3), Cell(4)]);
    assert_eq!(matrix.by_col(), [Cell(1), Cell(3), Cell(2), Cell(4)]);
}

#[test]
fn a_number_plus_a_text() {
    assert_eq!(Cell(22) + Cell("apples".to_string()), Cell("22 apples".to_string()));
    assert_eq!(Cell(0) + Cell("apples".to_string()), Cell("0 apples".to_string()));
    assert_eq!(Cell(-4) + Cell("xirtam".to_string()), Cell("matrix 4".to_string()));
    assert_eq!(Cell(i32::MAX) + Cell("".to_string()), Cell("2147483647 ".to_string()));
    assert_eq!(Cell(-2147483647) + Cell("ab".to_string()), Cell("ba 2147483647".to_string()));
    assert_eq!(Cell(5).plus(Cell("x".to_string())), Cell("5 x".to_string()));
}

#[test]
fn a_number_times_a_text() {
    assert_eq!(Cell(3) * Cell("woah!".to_string()), Cell("woah!woah!woah!".to_string()));
    assert_eq!(Cell(0) * Cell("woah?".to_string()), Cell("".to_string()));
    assert_eq!(Cell(-3) * Cell(",regdab".to_string()), Cell("badger,badger,badger,".to_string()));
    assert_eq!(Cell(2).times(Cell("ab".to_string())), Cell("abab".to_string()));
}

#[test]
fn a_matrix_of_numbers_plus_a_matrix_of_texts() {
    let sums = Matrix4::new(&[1, 2, -3, 0]) + texts();
    assert_eq!(
        sums.by_row(),
        [
            Cell("1 one".to_string()),
            Cell("2 two".to_string()),
            Cell("eerht 3".to_string()),
            Cell("0 you get it".to_string()),
        ]
    );
}

#[test]
fn a_matrix_of_numbers_times_a_matrix_of_texts() {
    let products = Matrix4::new(&[1, 2, -1, 1]) * texts();
    assert_eq!(products, "one threethree owt you get it");
}
