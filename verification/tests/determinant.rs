use dognut::determinant::Determinant;
use dognut::determinant::MatrixError;

fn cells(m: &Determinant) -> Vec<Vec<i128>> {
    (0..m.m()).map(|i| (0..m.n()).map(|j| m.index(i, j)).collect()).collect()
}

fn walk(m: &Determinant) -> Vec<i128> {
    let mut it = m.iter();
    let mut v = Vec::new();
    while let Some(x) = it.next() {
        v.push(x);
    }
    v
}

#[test]
fn new_matrix_is_zero() {
    let m = Determinant::new(2, 3, false);
    assert_eq!((m.m(), m.n()), (2, 3));
    assert_eq!(cells(&m), vec![vec![0, 0, 0], vec![0, 0, 0]]);
}

#[test]
fn new_matrix_with_the_flag_set_is_read_transposed() {
    let m = Determinant::new(2, 3, true);
    assert_eq!((m.m(), m.n()), (3, 2));
}

#[test]
fn from_vec_checks_the_number_of_entries() {
    assert!(Determinant::from_vec(2, 3, false, vec![1, 2, 3, 4, 5, 6]).is_some());
    assert!(Determinant::from_vec(2, 3, false, vec![1, 2, 3, 4, 5]).is_none());
    assert!(Determinant::from_vec(2, 3, false, vec![1, 2, 3, 4, 5, 6, 7]).is_none());
    assert!(Determinant::from_vec(0, 3, false, vec![]).is_some());
    assert!(Determinant::from_vec(usize::MAX, 2, false, vec![1, 2]).is_none());
}

#[test]
fn index_follows_the_flag() {
    let m = Determinant::from_vec(2, 3, false, vec![1, 2, 3, 4, 5, 6]).unwrap();
    assert_eq!(cells(&m), vec![vec![1, 2, 3], vec![4, 5, 6]]);
    let t = Determinant::from_vec(2, 3, true, vec![1, 2, 3, 4, 5, 6]).unwrap();
    assert_eq!(cells(&t), vec![vec![1, 4], vec![2, 5], vec![3, 6]]);
}

#[test]
fn transposing_twice_gives_the_matrix_back() {
    let m = Determinant::from_vec(2, 3, false, vec![1, 2, 3, 4, 5, 6]).unwrap();
    let t = m.clone().t();
    assert_eq!(cells(&t), vec![vec![1, 4], vec![2, 5], vec![3, 6]]);
    let tt = t.t();
    assert_eq!((tt.m(), tt.n()), (m.m(), m.n()));
    assert_eq!(cells(&tt), cells(&m));
}

#[test]
fn transposing_an_empty_matrix_twice_keeps_its_shape() {
    let t = Determinant::new(0, 5, false).t();
    assert_eq!((t.m(), t.n()), (5, 0));
    let tt = t.t();
    assert_eq!((tt.m(), tt.n()), (0, 5));
}

#[test]
fn transposing_in_place_flips_the_shape_only() {
    let mut m = Determinant::from_vec(2, 3, false, vec![1, 2, 3, 4, 5, 6]).unwrap();
    m.transform_t();
    assert_eq!((m.m(), m.n()), (3, 2));
    assert_eq!(cells(&m), vec![vec![1, 4], vec![2, 5], vec![3, 6]]);
    m.transform_t();
    assert_eq!(cells(&m), vec![vec![1, 2, 3], vec![4, 5, 6]]);
}

#[test]
fn set_writes_one_cell() {
    let mut m = Determinant::new(2, 2, false);
    m.set(0, 1, 7);
    assert_eq!(cells(&m), vec![vec![0, 7], vec![0, 0]]);
    let mut t = Determinant::new(2, 3, true);
    t.set(2, 1, 9);
    assert_eq!(t.index(2, 1), 9);
    t.transform_t();
    assert_eq!(t.index(1, 2), 9);
}

#[test]
fn walk_goes_row_by_row() {
    let m = Determinant::from_vec(2, 3, false, vec![1, 2, 3, 4, 5, 6]).unwrap();
    assert_eq!(walk(&m), vec![1, 2, 3, 4, 5, 6]);
    assert_eq!(walk(&m.t()), vec![1, 4, 2, 5, 3, 6]);
}

#[test]
fn walk_over_a_matrix_without_cells() {
    assert_eq!(walk(&Determinant::new(0, 3, false)), Vec::<i128>::new());
    assert_eq!(walk(&Determinant::new(3, 0, false)), Vec::<i128>::new());
}

#[test]
fn walk_ends_for_good() {
    let m = Determinant::from_vec(1, 1, false, vec![5]).unwrap();
    let mut it = m.iter();
    assert_eq!(it.next(), Some(5));
    assert_eq!(it.next(), None);
    assert_eq!(it.next(), None);
}

#[test]
fn add_and_subtract() {
    let a = Determinant::from_vec(2, 2, false, vec![1, 2, 3, 4]).unwrap();
    let b = Determinant::from_vec(2, 2, false, vec![10, 20, 30, 40]).unwrap();
    assert_eq!(cells(&a.add(&b).unwrap()), vec![vec![11, 22], vec![33, 44]]);
    assert_eq!(cells(&a.sub(&b).unwrap()), vec![vec![-9, -18], vec![-27, -36]]);
}

#[test]
fn add_reads_both_operands_through_their_flags() {
    let a = Determinant::from_vec(2, 3, false, vec![1, 2, 3, 4, 5, 6]).unwrap();
    let b = Determinant::from_vec(3, 2, true, vec![10, 20, 30, 40, 50, 60]).unwrap();
    assert_eq!(cells(&a.add(&b).unwrap()), vec![vec![11, 32, 53], vec![24, 45, 66]]);
}

#[test]
fn add_and_subtract_mismatched_shapes_fail() {
    let a = Determinant::new(2, 3, false);
    let b = Determinant::new(3, 2, false);
    let c = Determinant::new(2, 2, false);
    assert!(matches!(a.add(&b), Err(MatrixError::DimensionMismatch)));
    assert!(matches!(a.sub(&b), Err(MatrixError::DimensionMismatch)));
    assert!(matches!(a.add(&c), Err(MatrixError::DimensionMismatch)));
    assert!(matches!(a.sub(&c), Err(MatrixError::DimensionMismatch)));
    assert!(a.add(&b.t()).is_ok());
}

#[test]
fn add_and_subtract_report_overflow() {
    let a = Determinant::from_vec(1, 2, false, vec![1, i128::MAX]).unwrap();
    let b = Determinant::from_vec(1, 2, false, vec![1, 1]).unwrap();
    assert!(matches!(a.add(&b), Err(MatrixError::Overflow)));
    assert!(a.sub(&b).is_ok());
    let c = Determinant::from_vec(1, 2, false, vec![1, i128::MIN]).unwrap();
    assert!(matches!(c.sub(&b), Err(MatrixError::Overflow)));
    assert!(c.add(&b).is_ok());
}

#[test]
fn multiply_two_by_two() {
    let a = Determinant::from_vec(2, 2, false, vec![1, 2, 3, 4]).unwrap();
    let b = Determinant::from_vec(2, 2, false, vec![5, 6, 7, 8]).unwrap();
    assert_eq!(cells(&a.mul(&b).unwrap()), vec![vec![19, 22], vec![43, 50]]);
    assert_eq!(cells(&b.mul(&a).unwrap()), vec![vec![23, 34], vec![31, 46]]);
}

#[test]
fn multiply_rectangular() {
    let a = Determinant::from_vec(2, 3, false, vec![1, 2, 3, 4, 5, 6]).unwrap();
    let b = Determinant::from_vec(3, 1, false, vec![1, 0, -1]).unwrap();
    let p = a.mul(&b).unwrap();
    assert_eq!((p.m(), p.n()), (2, 1));
    assert_eq!(cells(&p), vec![vec![-2], vec![-2]]);
}

#[test]
fn multiply_with_a_transposed_operand() {
    let a = Determinant::from_vec(2, 3, false, vec![1, 2, 3, 4, 5, 6]).unwrap();
    // a times its transpose
    assert_eq!(cells(&a.mul(&a.clone().t()).unwrap()), vec![vec![14, 32], vec![32, 77]]);
}

#[test]
fn multiply_mismatched_shapes_fails() {
    let a = Determinant::new(2, 3, false);
    let b = Determinant::new(2, 3, false);
    assert!(matches!(a.mul(&b), Err(MatrixError::DimensionMismatch)));
    assert!(a.mul(&b.t()).is_ok());
}

#[test]
fn multiply_tests_the_shapes_before_the_size() {
    let tall = Determinant::new(1 << 40, 0, false);
    let wide = Determinant::new(1, 1 << 25, false);
    assert!(matches!(tall.mul(&wide), Err(MatrixError::DimensionMismatch)));
}

#[test]
fn multiply_reports_a_product_too_large_to_hold() {
    let tall = Determinant::new(usize::MAX, 0, false);
    let wide = Determinant::new(0, 2, false);
    assert!(matches!(tall.mul(&wide), Err(MatrixError::TooLarge)));
    let flat = Determinant::new(0, usize::MAX, false);
    let empty = flat.mul(&tall).unwrap();
    assert_eq!((empty.m(), empty.n()), (0, 0));
}

#[test]
fn multiply_reports_overflow() {
    let a = Determinant::from_vec(1, 2, false, vec![i128::MAX, 1]).unwrap();
    let b = Determinant::from_vec(2, 1, false, vec![2, 0]).unwrap();
    assert!(matches!(a.mul(&b), Err(MatrixError::Overflow)));
    // a partial sum that leaves the range fails even where the whole sum would fit
    let c = Determinant::from_vec(1, 3, false, vec![i128::MAX, 1, -1]).unwrap();
    let d = Determinant::from_vec(3, 1, false, vec![1, 1, 1]).unwrap();
    assert!(matches!(c.mul(&d), Err(MatrixError::Overflow)));
    let e = Determinant::from_vec(1, 3, false, vec![i128::MAX, -1, 1]).unwrap();
    assert_eq!(cells(&e.mul(&d).unwrap()), vec![vec![i128::MAX]]);
}

#[test]
fn multiply_is_associative() {
    let a = Determinant::from_vec(2, 3, false, vec![1, -2, 3, 4, 5, -6]).unwrap();
    let b = Determinant::from_vec(3, 2, false, vec![7, 8, -9, 10, 11, 12]).unwrap();
    let c = Determinant::from_vec(2, 4, false, vec![1, 2, 3, 4, -5, 6, 7, 8]).unwrap();
    let left = a.mul(&b).unwrap().mul(&c).unwrap();
    let right = a.mul(&b.mul(&c).unwrap()).unwrap();
    assert_eq!(cells(&left), cells(&right));
    assert_eq!((left.m(), left.n()), (2, 4));
}

#[test]
fn identity_changes_nothing() {
    let i = Determinant::identity_matrix();
    let m = Determinant::from_rows4([1, 2, 3, 4, 5, 6, 7, 8, 9, 10, 11, 12, 13, 14, 15, 16]);
    assert_eq!(cells(&i.mul(&m).unwrap()), cells(&m));
    assert_eq!(cells(&m.mul(&i).unwrap()), cells(&m));
    assert_eq!(m.index(2, 1), 10);
}
