use snap::error::ImageError;
use snap::matrix::Matrix;

fn grid(width: usize, height: usize, cells: Vec<isize>) -> Matrix<isize> {
    Matrix::from_vec(width, height, cells).unwrap()
}

fn cells_of(m: &Matrix<isize>) -> Vec<isize> {
    let mut out = Vec::new();
    for row in 0..m.height() {
        for col in 0..m.width() {
            out.push(*m.at(row, col));
        }
    }
    out
}

#[test]
fn new_filled_holds_the_value_everywhere() {
    let m: Matrix<usize> = Matrix::new_filled(3, 2, 7);
    assert_eq!(m.width(), 3);
    assert_eq!(m.height(), 2);
    for row in 0..2 {
        for col in 0..3 {
            assert_eq!(m.get(row, col), Some(&7));
        }
    }
}

#[test]
fn new_is_filled_with_the_default() {
    let m: Matrix<isize> = Matrix::new(2, 2);
    assert_eq!(cells_of(&m), vec![0, 0, 0, 0]);
}

#[test]
fn get_outside_is_none() {
    let m: Matrix<usize> = Matrix::new_filled(3, 2, 7);
    assert_eq!(m.get(2, 0), None);
    assert_eq!(m.get(0, 3), None);
    assert_eq!(m.get(usize::MAX, usize::MAX), None);
}

#[test]
fn set_outside_changes_nothing() {
    let mut m = grid(2, 2, vec![1, 2, 3, 4]);
    m.set(2, 0, 9);
    m.set(0, 2, 9);
    assert_eq!(cells_of(&m), vec![1, 2, 3, 4]);
    m.set(1, 0, 9);
    assert_eq!(cells_of(&m), vec![1, 2, 9, 4]);
}

#[test]
fn from_vec_is_row_major() {
    let m = grid(3, 2, vec![1, 2, 3, 4, 5, 6]);
    assert_eq!(*m.at(0, 2), 3);
    assert_eq!(*m.at(1, 0), 4);
    assert_eq!(m.into_vec(), vec![1, 2, 3, 4, 5, 6]);
}

#[test]
fn from_vec_rejects_a_wrong_length() {
    let made: Result<Matrix<usize>, ImageError> = Matrix::from_vec(2, 2, vec![1, 2, 3]);
    assert!(matches!(made, Err(ImageError::ShapeMismatch)));
    let made: Result<Matrix<usize>, ImageError> = Matrix::from_vec(usize::MAX, 2, vec![1, 2, 3]);
    assert!(matches!(made, Err(ImageError::ShapeMismatch)));
}

#[test]
fn fill_overwrites_all() {
    let mut m = grid(2, 2, vec![1, 2, 3, 4]);
    m.fill(5);
    assert_eq!(cells_of(&m), vec![5, 5, 5, 5]);
}

#[test]
fn fill_border_leaves_the_interior() {
    let mut m = grid(4, 3, vec![0; 12]);
    m.fill_border(8);
    assert_eq!(cells_of(&m), vec![8, 8, 8, 8, 8, 0, 0, 8, 8, 8, 8, 8]);
}

#[test]
fn fill_border_of_a_thin_matrix_fills_it() {
    let mut m = grid(2, 3, vec![0; 6]);
    m.fill_border(8);
    assert_eq!(cells_of(&m), vec![8; 6]);
    let mut empty = grid(0, 3, vec![]);
    empty.fill_border(8);
    assert_eq!(empty.width(), 0);
    assert_eq!(empty.height(), 3);
}

#[test]
fn min_and_max_over_all_cells() {
    let m = grid(3, 2, vec![4, -2, 9, 9, -2, 0]);
    assert_eq!(m.min(), Some(-2));
    assert_eq!(m.max(), Some(9));
    let empty = grid(0, 0, vec![]);
    assert_eq!(empty.min(), None);
    assert_eq!(empty.max(), None);
}

#[test]
fn leftmost_tie_break() {
    let cost = grid(3, 3, vec![5, 1, 1, 2, 2, 2, 7, 3, 3]);
    assert_eq!(cost.min_in_row_range(0, 0, 3), Some((1, 1)));
    assert_eq!(cost.min_in_row_range(1, 0, 3), Some((0, 2)));
    assert_eq!(cost.min_in_row_range(2, 0, 3), Some((1, 3)));
    assert_eq!(cost.min_in_row(2), Some((1, 3)));
}

#[test]
fn min_in_row_range_rejects_bad_ranges() {
    let cost = grid(3, 3, vec![5, 1, 1, 2, 2, 2, 7, 3, 3]);
    assert_eq!(cost.min_in_row_range(3, 0, 3), None);
    assert_eq!(cost.min_in_row_range(0, 2, 2), None);
    assert_eq!(cost.min_in_row_range(0, 2, 1), None);
    assert_eq!(cost.min_in_row_range(0, 0, 4), None);
    assert_eq!(cost.min_in_row_range(0, 1, 3), Some((1, 1)));
    assert_eq!(cost.min_in_row_range(0, 2, 3), Some((2, 1)));
}

#[test]
fn trim_width_keeps_the_first_columns() {
    let mut m = grid(3, 2, vec![1, 2, 3, 4, 5, 6]);
    m.trim_width(2);
    assert_eq!(m.width(), 2);
    assert_eq!(cells_of(&m), vec![1, 2, 4, 5]);
    m.trim_width(0);
    assert_eq!(m.width(), 0);
    assert_eq!(m.height(), 2);
}

#[test]
fn trim_height_keeps_the_first_rows() {
    let mut m = grid(2, 3, vec![1, 2, 3, 4, 5, 6]);
    m.trim_height(2);
    assert_eq!(m.height(), 2);
    assert_eq!(cells_of(&m), vec![1, 2, 3, 4]);
}

#[test]
fn transpose_swaps_rows_and_columns() {
    let mut m = grid(3, 2, vec![1, 2, 3, 4, 5, 6]);
    m.transpose();
    assert_eq!((m.width(), m.height()), (2, 3));
    assert_eq!(cells_of(&m), vec![1, 4, 2, 5, 3, 6]);
    let mut empty = grid(0, 2, vec![]);
    empty.transpose();
    assert_eq!((empty.width(), empty.height()), (2, 0));
}

#[test]
fn mirrors_reverse_rows_or_columns() {
    let mut m = grid(3, 2, vec![1, 2, 3, 4, 5, 6]);
    m.mirror_x();
    assert_eq!(cells_of(&m), vec![4, 5, 6, 1, 2, 3]);
    m.mirror_y();
    assert_eq!(cells_of(&m), vec![6, 5, 4, 3, 2, 1]);
}

#[test]
fn quarter_turns() {
    let mut m = grid(3, 2, vec![1, 2, 3, 4, 5, 6]);
    m.rotate_left();
    assert_eq!((m.width(), m.height()), (2, 3));
    assert_eq!(cells_of(&m), vec![3, 6, 2, 5, 1, 4]);
    m.rotate_right();
    assert_eq!(cells_of(&m), vec![1, 2, 3, 4, 5, 6]);
    m.rotate_right();
    assert_eq!(cells_of(&m), vec![4, 1, 5, 2, 6, 3]);
}

#[test]
fn window_cuts_a_rectangle() {
    let m = grid(3, 3, vec![1, 2, 3, 4, 5, 6, 7, 8, 9]);
    let w = m.window(1, 1, 2, 2);
    assert_eq!(cells_of(&w), vec![5, 6, 8, 9]);
}

#[test]
fn resample_takes_the_nearest_cell() {
    let m = grid(2, 1, vec![0, 100]);
    let r = m.resample(4, 2);
    assert_eq!(cells_of(&r), vec![0, 0, 100, 100, 0, 0, 100, 100]);
}

#[test]
fn remove_seam_closes_the_gap() {
    let mut m = grid(3, 3, vec![1, 2, 3, 4, 5, 6, 7, 8, 9]);
    m.remove_seam(&vec![0, 1, 2]);
    assert_eq!(m.width(), 2);
    assert_eq!(cells_of(&m), vec![2, 3, 4, 6, 7, 8]);
}

#[test]
fn clone_copies_shape_and_cells() {
    let m = grid(3, 2, vec![1, 2, 3, 4, 5, 6]);
    let mut copy = m.clone();
    assert_eq!((copy.width(), copy.height()), (3, 2));
    assert_eq!(cells_of(&copy), cells_of(&m));
    copy.set(0, 0, 9);
    assert_eq!(*m.at(0, 0), 1);
}
