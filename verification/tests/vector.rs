use dognut::determinant::Determinant;
use dognut::fixed::div_ceil;
use dognut::fixed::div_floor;
use dognut::fixed::floor_root;
use dognut::fixed::UNIT;
use dognut::position::quotient_i64;
use dognut::position::Pos3;
use dognut::vector::product_difference;
use dognut::vector::Vector3;

#[test]
fn vector_sum_difference_and_scale() {
    let a = Vector3::from_xyz(1, 2, 3);
    let b = Vector3::from_xyz(10, -20, 30);
    assert_eq!(a.add(&b), Vector3::from_xyz(11, -18, 33));
    assert_eq!(a.sub(&b), Vector3::from_xyz(-9, 22, -27));
    assert_eq!(a.scale(-3), Vector3::from_xyz(-3, -6, -9));
    assert_eq!((a.x(), a.y(), a.z()), (1, 2, 3));
}

#[test]
fn cross_product_follows_the_right_hand() {
    let x = Vector3::from_xyz(1, 0, 0);
    let y = Vector3::from_xyz(0, 1, 0);
    let z = Vector3::from_xyz(0, 0, 1);
    assert_eq!(x.cross(&y), z);
    assert_eq!(y.cross(&z), x);
    assert_eq!(z.cross(&x), y);
    assert_eq!(y.cross(&x), Vector3::from_xyz(0, 0, -1));
    assert_eq!(
        Vector3::from_xyz(1, 2, 3).cross(&Vector3::from_xyz(4, 5, 6)),
        Vector3::from_xyz(-3, 6, -3)
    );
}

#[test]
fn dot_product() {
    assert_eq!(Vector3::from_xyz(1, 2, 3).dot(&Vector3::from_xyz(4, -5, 6)), 12);
    let big = Vector3::from_xyz(1 << 62, 1 << 62, 1 << 62);
    assert_eq!(big.dot(&big), 3 << 124);
}

#[test]
fn product_difference_of_extremes() {
    // 2^126 + 2^63 * (2^63 - 1): the largest difference there is
    assert_eq!(
        product_difference(i64::MIN, i64::MIN, i64::MIN, i64::MAX),
        i128::MAX - (1 << 63) + 1
    );
    assert_eq!(product_difference(2, 3, 4, 5), -14);
}

#[test]
fn normalize_gives_the_unit_length() {
    // (3, 4, 0) has the length 5: 3/5 and 4/5 of 65536, rounded downwards
    assert_eq!(Vector3::from_xyz(3, 4, 0).normalize(), Some(Vector3::from_xyz(39321, 52428, 0)));
    assert_eq!(Vector3::from_xyz(0, 0, -7).normalize(), Some(Vector3::from_xyz(0, 0, -UNIT)));
    // the length of (1, 1, 1) is rounded down to 1
    assert_eq!(Vector3::from_xyz(1, 1, 1).normalize(), Some(Vector3::from_xyz(UNIT, UNIT, UNIT)));
    // (-3, 4, 0): -3/5 of 65536 is -39321.6
    assert_eq!(Vector3::from_xyz(-3, 4, 0).normalize(), Some(Vector3::from_xyz(-39322, 52428, 0)));
}

#[test]
fn normalize_of_the_zero_vector_is_nothing() {
    assert_eq!(Vector3::from_xyz(0, 0, 0).normalize(), None);
}

#[test]
fn position_and_vector() {
    let p = Pos3::new(5, 6, 7);
    let q = Pos3::from_xyz(1, 8, 7);
    assert_eq!(p.sub(&q), Vector3::from_xyz(4, -2, 0));
    assert_eq!(q.add(&Vector3::from_xyz(4, -2, 0)), p);
    assert_eq!((p.x(), p.y(), p.z()), (5, 6, 7));
}

#[test]
fn homogeneous_row_of_a_position() {
    let h = Pos3::new(5, -6, 7).to_homogeneous();
    assert_eq!((h.m(), h.n()), (1, 4));
    assert_eq!((h.index(0, 0), h.index(0, 1), h.index(0, 2), h.index(0, 3)), (5, -6, 7, 1));
}

#[test]
fn position_of_a_homogeneous_row() {
    let row = |v: Vec<i128>| Determinant::from_vec(1, 4, false, v).unwrap();
    assert_eq!(Pos3::from_matrix(&row(vec![5, -6, 7, 1])), Some(Pos3::new(5, -6, 7)));
    assert_eq!(Pos3::from_matrix(&row(vec![10, -7, 7, 2])), Some(Pos3::new(5, -4, 3)));
    assert_eq!(Pos3::from_matrix(&row(vec![10, -7, 7, -2])), Some(Pos3::new(-5, 3, -4)));
    assert_eq!(Pos3::from_matrix(&Pos3::new(1, 2, 3).to_homogeneous()), Some(Pos3::new(1, 2, 3)));
}

#[test]
fn rows_without_a_position() {
    let row = |v: Vec<i128>| Determinant::from_vec(1, 4, false, v).unwrap();
    assert_eq!(Pos3::from_matrix(&row(vec![5, -6, 7, 0])), None);
    assert_eq!(Pos3::from_matrix(&row(vec![1 << 64, 0, 0, 1])), None);
    assert_eq!(Pos3::from_matrix(&row(vec![i128::MIN, 0, 0, -1])), None);
    assert_eq!(Pos3::from_matrix(&Determinant::new(4, 1, false)), None);
    assert_eq!(Pos3::from_matrix(&Determinant::new(1, 3, false)), None);
    let column = Determinant::from_vec(4, 1, true, vec![8, 6, 4, 2]).unwrap();
    assert_eq!(Pos3::from_matrix(&column), Some(Pos3::new(4, 3, 2)));
}

#[test]
fn quotients_round_downwards() {
    assert_eq!(div_floor(7, 2), 3);
    assert_eq!(div_floor(-7, 2), -4);
    assert_eq!(div_floor(7, -2), -4);
    assert_eq!(div_floor(-7, -2), 3);
    assert_eq!(div_floor(-8, 2), -4);
    assert_eq!(div_floor(0, 5), 0);
    assert_eq!(div_floor(-1, i128::MAX), -1);
}

#[test]
fn quotients_round_upwards() {
    assert_eq!(div_ceil(7, 2), 4);
    assert_eq!(div_ceil(-7, 2), -3);
    assert_eq!(div_ceil(7, -2), -3);
    assert_eq!(div_ceil(-7, -2), 4);
    assert_eq!(div_ceil(8, 2), 4);
}

#[test]
fn quotients_at_the_ends_of_the_range() {
    assert_eq!(quotient_i64(i128::MIN, i128::MIN), Some(1));
    assert_eq!(quotient_i64(i128::MAX, i128::MIN), Some(-1));
    assert_eq!(quotient_i64(-5, i128::MIN), Some(0));
    assert_eq!(quotient_i64(0, i128::MIN), Some(0));
    assert_eq!(quotient_i64(i128::MIN, -1), None);
    assert_eq!(quotient_i64(i128::MIN, 1), None);
    assert_eq!(quotient_i64(i128::MIN, 1 << 64), Some(i64::MIN));
    assert_eq!(quotient_i64(i128::MIN, -(1 << 64)), None);
    assert_eq!(quotient_i64(i128::MIN, -(1 << 65)), Some(1 << 62));
    assert_eq!(quotient_i64(i128::MIN, 3), None);
    assert_eq!(quotient_i64((i64::MAX as i128) + 1, 1), None);
    assert_eq!(quotient_i64(i64::MAX as i128, 1), Some(i64::MAX));
    assert_eq!(quotient_i64(i64::MIN as i128, 1), Some(i64::MIN));
    assert_eq!(quotient_i64((i64::MIN as i128) - 1, 1), None);
}

#[test]
fn roots_round_downwards() {
    assert_eq!(floor_root(0), 0);
    assert_eq!(floor_root(1), 1);
    assert_eq!(floor_root(24), 4);
    assert_eq!(floor_root(25), 5);
    assert_eq!(floor_root(26), 5);
    assert_eq!(floor_root(1 << 126), 1 << 63);
    assert_eq!(floor_root((1 << 126) - 1), (1 << 63) - 1);
}
