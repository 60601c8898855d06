use dense_matrix::{Matrix, ShapeError};

fn three_by_two() -> Matrix<i32> {
    Matrix::from_vec(vec![1, 2, 3, 4, 5, 6], 3).unwrap()
}

#[test]
fn row_element_is_buffer_element() {
    let data: Vec<u32> = (0..12).map(|x| x * 10 + 7).collect();
    let m = Matrix::from_vec(data.clone(), 3).unwrap();
    assert_eq!(m.rows(), 3);
    assert_eq!(m.cols(), 4);
    for i in 0..3 {
        let row = m.row(i);
        assert_eq!(row.len(), 4);
        for j in 0..4 {
            assert_eq!(row[j], data[i * 4 + j]);
        }
    }
}

#[test]
fn from_vec_zero_rows_is_invalid_shape() {
    let r = Matrix::from_vec(vec![1, 2, 3], 0);
    assert_eq!(r.unwrap_err(), ShapeError::InvalidShape { len: 3, rows: 0 });
}

#[test]
fn from_vec_uneven_split_is_invalid_shape() {
    let r = Matrix::from_vec(vec![1, 2, 3, 4, 5, 6, 7], 2);
    assert_eq!(r.unwrap_err(), ShapeError::InvalidShape { len: 7, rows: 2 });
}

#[test]
fn from_vec_empty_buffer_gives_zero_width_rows() {
    let m: Matrix<u8> = Matrix::from_vec(Vec::new(), 3).unwrap();
    assert_eq!(m.rows(), 3);
    assert_eq!(m.cols(), 0);
    assert_eq!(m.row(2).len(), 0);
}

#[test]
fn from_rows_jagged_fails() {
    let r = Matrix::from_rows(vec![vec![1, 2, 3], vec![4, 5]]);
    assert_eq!(r.unwrap_err(), ShapeError::JaggedRow { row: 1, expected: 3, found: 2 });
}

#[test]
fn from_rows_names_first_jagged_row() {
    let r = Matrix::from_rows(vec![vec![1, 2], vec![3, 4], vec![5], vec![6, 7, 8]]);
    assert_eq!(r.unwrap_err(), ShapeError::JaggedRow { row: 2, expected: 2, found: 1 });
}

#[test]
fn from_rows_no_rows_is_invalid_shape() {
    let r: Result<Matrix<i32>, ShapeError> = Matrix::from_rows(Vec::new());
    assert_eq!(r.unwrap_err(), ShapeError::InvalidShape { len: 0, rows: 0 });
}

#[test]
fn from_rows_lays_rows_out_in_order() {
    let m = Matrix::from_rows(vec![vec![1, 2, 3], vec![4, 5, 6]]).unwrap();
    assert_eq!(m.rows(), 2);
    assert_eq!(m.cols(), 3);
    assert_eq!(m.as_slice(), &[1, 2, 3, 4, 5, 6][..]);
    assert_eq!(m.row(0), &[1, 2, 3][..]);
    assert_eq!(m.row(1), &[4, 5, 6][..]);
}

#[test]
fn from_rows_of_empty_rows() {
    let m: Matrix<i32> = Matrix::from_rows(vec![Vec::new(), Vec::new()]).unwrap();
    assert_eq!(m.rows(), 2);
    assert_eq!(m.cols(), 0);
}

#[test]
fn iter_yields_rows_then_nothing() {
    let m = three_by_two();
    let mut it = m.iter();
    assert_eq!(it.next(), Some(&[1, 2][..]));
    assert_eq!(it.next(), Some(&[3, 4][..]));
    assert_eq!(it.next(), Some(&[5, 6][..]));
    assert_eq!(it.next(), None);
    assert_eq!(it.next(), None);
    assert_eq!(it.next(), None);
}

#[test]
fn iter_mut_changes_only_the_rows_written() {
    let mut m = three_by_two();
    {
        let mut it = m.iter_mut();
        let mut i: usize = 0;
        while let Some(row) = it.next() {
            if i == 1 {
                for x in row.iter_mut() {
                    *x *= 2;
                }
            }
            i += 1;
        }
        assert_eq!(i, 3);
        assert!(it.next().is_none());
    }
    assert_eq!(m.row(0), &[1, 2][..]);
    assert_eq!(m.row(1), &[6, 8][..]);
    assert_eq!(m.row(2), &[5, 6][..]);
}

#[test]
fn iter_mut_rows_are_held_together() {
    let mut m = three_by_two();
    {
        let mut it = m.iter_mut();
        let a = it.next().unwrap();
        let b = it.next().unwrap();
        let c = it.next().unwrap();
        a[0] = 10;
        c[1] = 60;
        b[0] = 30;
    }
    assert_eq!(m.as_slice(), &[10, 2, 30, 4, 5, 60][..]);
}

#[test]
fn round_trip_through_iteration() {
    let data: Vec<i64> = vec![9, -1, 4, 4, 0, 7, 3, 2];
    for rows in [1usize, 2, 4, 8] {
        let m = Matrix::from_vec(data.clone(), rows).unwrap();
        let mut flat: Vec<i64> = Vec::new();
        let mut it = m.iter();
        while let Some(row) = it.next() {
            flat.extend_from_slice(row);
        }
        assert_eq!(flat, data);
    }
}

#[test]
fn empty_matrix_has_no_rows() {
    let mut m: Matrix<String> = Matrix::new();
    assert_eq!(m.rows(), 0);
    assert_eq!(m.cols(), 0);
    assert!(m.as_slice().is_empty());
    let mut it = m.iter();
    assert!(it.next().is_none());
    assert!(it.next().is_none());
    let mut it = m.iter_mut();
    assert!(it.next().is_none());
    assert!(it.next().is_none());
}

#[test]
fn with_capacity_starts_empty() {
    let m: Matrix<u16> = Matrix::with_capacity(4, 5);
    assert_eq!(m.rows(), 0);
    assert_eq!(m.cols(), 0);
    assert!(m.as_slice().is_empty());
    assert!(m.iter().next().is_none());
}

#[test]
fn row_mut_writes_its_row_only() {
    let mut m = three_by_two();
    {
        let row = m.row_mut(2);
        assert_eq!(row, &mut [5, 6][..]);
        row[0] = -5;
        row[1] = -6;
    }
    assert_eq!(m.as_slice(), &[1, 2, 3, 4, -5, -6][..]);
}

#[test]
fn debug_rendering_shows_elements() {
    let m = three_by_two();
    let text = format!("{:?}", m);
    assert!(text.contains('5'));
    assert!(text.contains('6'));
}

#[test]
fn clone_is_independent() {
    let m = three_by_two();
    let mut c = m.clone();
    c.row_mut(0)[0] = 100;
    assert_eq!(m.row(0), &[1, 2][..]);
    assert_eq!(c.row(0), &[100, 2][..]);
    assert_eq!(c.rows(), 3);
    assert_eq!(c.cols(), 2);
}
