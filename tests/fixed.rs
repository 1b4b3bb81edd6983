use linear_algebra::dims::Axis;
use linear_algebra::error::LinalgError;
use linear_algebra::matrix3::{rodrigues_with, Matrix3};
use linear_algebra::vector3::Vector3;

fn plus(x: f64, y: f64) -> f64 {
    x + y
}

fn minus(x: f64, y: f64) -> f64 {
    x - y
}

fn times(x: f64, y: f64) -> f64 {
    x * y
}

fn neg(x: f64) -> f64 {
    -x
}

fn v(x: f64, y: f64, z: f64) -> Vector3<f64> {
    Vector3::new(x, y, z)
}

fn counting() -> Matrix3<f64> {
    Matrix3::new(v(1.0, 2.0, 3.0), v(4.0, 5.0, 6.0), v(7.0, 8.0, 9.0))
}

fn reversed() -> Matrix3<f64> {
    Matrix3::new(v(9.0, 8.0, 7.0), v(6.0, 5.0, 4.0), v(3.0, 2.0, 1.0))
}

fn continued() -> Matrix3<f64> {
    Matrix3::new(v(10.0, 11.0, 12.0), v(13.0, 14.0, 15.0), v(16.0, 17.0, 18.0))
}

#[test]
fn vector3d_test_new() {
    let vector = v(1.0, 2.0, 3.0);
    assert_eq!(vector.x, 1.0);
    assert_eq!(vector.y, 2.0);
    assert_eq!(vector.z, 3.0);
}

#[test]
fn vector3d_test_magnitude() {
    let vector = v(3.0, 4.0, 5.0);
    let magnitude = vector.dot_with(&vector, &plus, &times).sqrt();
    assert!((magnitude - 7.071067811865476).abs() <= 1e-12);
}

#[test]
fn vector3d_test_dot() {
    let vector1 = v(1.0, 2.0, 3.0);
    let vector2 = v(4.0, 5.0, 6.0);
    assert_eq!(vector1.dot_with(&vector2, &plus, &times), 32.0);
}

#[test]
fn vector3d_test_cross() {
    let vector1 = v(1.0, 2.0, 3.0);
    let vector2 = v(4.0, 5.0, 6.0);
    let cross_product = vector1.cross_with(&vector2, &minus, &times);
    assert_eq!(cross_product.x, -3.0);
    assert_eq!(cross_product.y, 6.0);
    assert_eq!(cross_product.z, -3.0);
}

#[test]
fn vector3d_test_plus() {
    let result = v(1.0, 2.0, 3.0).zip_with(&v(4.0, 5.0, 6.0), &plus);
    assert_eq!(result.x, 5.0);
    assert_eq!(result.y, 7.0);
    assert_eq!(result.z, 9.0);
}

#[test]
fn vector3d_test_minus() {
    let result = v(1.0, 2.0, 3.0).zip_with(&v(4.0, 5.0, 6.0), &minus);
    assert_eq!(result.x, -3.0);
    assert_eq!(result.y, -3.0);
    assert_eq!(result.z, -3.0);
}

#[test]
fn test_element() {
    let vector = v(1.0, 2.0, 3.0);
    assert_eq!(vector.element(0), Ok(1.0));
    assert_eq!(vector.element(1), Ok(2.0));
    assert_eq!(vector.element(2), Ok(3.0));
}

#[test]
fn element_past_the_third_is_refused() {
    let vector = v(1.0, 2.0, 3.0);
    assert_eq!(vector.element(3), Err(LinalgError::IndexOutOfRange(3)));
    assert_eq!(vector.element(usize::MAX), Err(LinalgError::IndexOutOfRange(usize::MAX)));
    assert_eq!(vector.component(Axis::Y), 2.0);
}

#[test]
fn test_cartesian_vector_plus() {
    let c = v(1.0, 2.0, 3.0).zip_with(&v(4.0, 5.0, 6.0), &plus);
    assert_eq!((c.x, c.y, c.z), (5.0, 7.0, 9.0));
}

#[test]
fn test_cartesian_vector_minus() {
    let c = v(1.0, 2.0, 3.0).zip_with(&v(4.0, 5.0, 6.0), &minus);
    assert_eq!((c.x, c.y, c.z), (-3.0, -3.0, -3.0));
}

#[test]
fn test_cartesian_vector_dot() {
    assert_eq!(v(1.0, 2.0, 3.0).dot_with(&v(4.0, 5.0, 6.0), &plus, &times), 32.0);
}

#[test]
fn test_cartesian_vector_scale() {
    let c = v(1.0, 2.0, 3.0).map(&|x: f64| x * 2.0);
    assert_eq!((c.x, c.y, c.z), (2.0, 4.0, 6.0));
}

#[test]
fn test_cartesian_vector_cross() {
    let c = v(1.0, 2.0, 3.0).cross_with(&v(4.0, 5.0, 6.0), &minus, &times);
    assert_eq!((c.x, c.y, c.z), (-3.0, 6.0, -3.0));
}

#[test]
fn test_cartesian_vector_magnitude() {
    let a = v(1.0, 2.0, 3.0);
    assert_eq!(a.dot_with(&a, &plus, &times).sqrt(), 3.7416573867739413);
}

#[test]
fn test_cartesian_vector_normalize() {
    let a = v(1.0, 2.0, 3.0);
    let inverse = 1.0 / a.dot_with(&a, &plus, &times).sqrt();
    let b = a.map(&|x: f64| x * inverse);
    assert_eq!(b.x, 0.2672612419124244);
    assert_eq!(b.y, 0.5345224838248488);
    assert_eq!(b.z, 0.8017837257372732);
}

#[test]
fn plus_is_commutative_and_minus_self_is_zero() {
    let a = v(0.1, -2.5, 1e10);
    let b = v(0.2, 7.0, -3.0);
    assert_eq!(a.zip_with(&b, &plus), b.zip_with(&a, &plus));
    assert_eq!(a.zip_with(&a, &minus), v(0.0, 0.0, 0.0));
}

#[test]
fn plus_is_associative_on_exact_values() {
    let a = v(1.0, 2.0, 3.0);
    let b = v(4.0, -5.0, 6.5);
    let c = v(-7.0, 8.25, 9.0);
    let left = a.zip_with(&b, &plus).zip_with(&c, &plus);
    let right = a.zip_with(&b.zip_with(&c, &plus), &plus);
    assert_eq!(left, right);
}

#[test]
fn cross_is_anticommutative_and_orthogonal() {
    let a = v(1.5, -2.0, 3.25);
    let b = v(-4.0, 5.5, 0.5);
    let ab = a.cross_with(&b, &minus, &times);
    let ba = b.cross_with(&a, &minus, &times);
    assert_eq!(ab, ba.map(&|x: f64| x * -1.0));
    assert!(a.dot_with(&ab, &plus, &times).abs() <= 1e-12);
    assert!(b.dot_with(&ab, &plus, &times).abs() <= 1e-12);
}

#[test]
fn matrix3x3_test_new() {
    let matrix = counting();
    assert_eq!(matrix.row(0), Ok(v(1.0, 2.0, 3.0)));
    assert_eq!(matrix.row(1), Ok(v(4.0, 5.0, 6.0)));
    assert_eq!(matrix.row(2), Ok(v(7.0, 8.0, 9.0)));
}

#[test]
fn test_column() {
    let matrix = counting();
    assert_eq!(matrix.column(0), Ok(v(1.0, 4.0, 7.0)));
    assert_eq!(matrix.column(1), Ok(v(2.0, 5.0, 8.0)));
    assert_eq!(matrix.column(2), Ok(v(3.0, 6.0, 9.0)));
}

#[test]
fn row_and_column_past_the_third_are_refused() {
    let matrix = counting();
    assert_eq!(matrix.row(3), Err(LinalgError::IndexOutOfRange(3)));
    assert_eq!(matrix.column(7), Err(LinalgError::IndexOutOfRange(7)));
    assert_eq!(matrix.column_on(Axis::Z), v(3.0, 6.0, 9.0));
}

#[test]
fn matrix3x3_test_determinant() {
    let d = counting().determinant_with(&plus, &minus, &times);
    assert!(d.abs() <= 1e-12);
}

#[test]
fn matrix3x3_test_transpose() {
    let expected = Matrix3::new(v(1.0, 4.0, 7.0), v(2.0, 5.0, 8.0), v(3.0, 6.0, 9.0));
    assert_eq!(counting().transpose(), expected);
}

#[test]
fn matrix3x3_test_plus() {
    let expected = Matrix3::new(v(11.0, 13.0, 15.0), v(17.0, 19.0, 21.0), v(23.0, 25.0, 27.0));
    assert_eq!(counting().zip_with(&continued(), &plus), expected);
}

#[test]
fn matrix3x3_test_minus() {
    let expected = Matrix3::new(v(-9.0, -9.0, -9.0), v(-9.0, -9.0, -9.0), v(-9.0, -9.0, -9.0));
    assert_eq!(counting().zip_with(&continued(), &minus), expected);
}

#[test]
fn test_times_scalar() {
    let expected = Matrix3::new(v(2.0, 4.0, 6.0), v(8.0, 10.0, 12.0), v(14.0, 16.0, 18.0));
    assert_eq!(counting().map(&|x: f64| x * 2.0), expected);
}

#[test]
fn test_times_matrix3x3() {
    let expected = Matrix3::new(v(84.0, 90.0, 96.0), v(201.0, 216.0, 231.0), v(318.0, 342.0, 366.0));
    assert_eq!(counting().product_with(&continued(), &plus, &times), expected);
}

#[test]
fn test_cartesian_matrix_plus() {
    let c = counting().zip_with(&reversed(), &plus);
    for i in 0..3 {
        let row = c.row(i).unwrap();
        assert_eq!((row.x, row.y, row.z), (10.0, 10.0, 10.0));
    }
}

#[test]
fn test_cartesian_matrix_minus() {
    let c = counting().zip_with(&reversed(), &minus);
    assert_eq!(c, Matrix3::new(v(-8.0, -6.0, -4.0), v(-2.0, 0.0, 2.0), v(4.0, 6.0, 8.0)));
}

#[test]
fn test_cartesian_matrix_scale() {
    let b = counting().map(&|x: f64| x * 2.0);
    assert_eq!(b, Matrix3::new(v(2.0, 4.0, 6.0), v(8.0, 10.0, 12.0), v(14.0, 16.0, 18.0)));
}

#[test]
fn test_cartesian_matrix_column() {
    let a = counting();
    assert_eq!(a.column(0).unwrap(), v(1.0, 4.0, 7.0));
    assert_eq!(a.column(1).unwrap(), v(2.0, 5.0, 8.0));
    assert_eq!(a.column(2).unwrap(), v(3.0, 6.0, 9.0));
}

#[test]
fn test_cartesian_matrix_determinant() {
    assert_eq!(counting().determinant_with(&plus, &minus, &times), 0.0);
}

#[test]
fn test_cartesian_matrix_transpose() {
    let b = counting().transpose();
    assert_eq!(b, Matrix3::new(v(1.0, 4.0, 7.0), v(2.0, 5.0, 8.0), v(3.0, 6.0, 9.0)));
}

#[test]
fn test_cartesian_matrix_multiply_matrix() {
    let c = counting().product_with(&reversed(), &plus, &times);
    assert_eq!(c, Matrix3::new(v(30.0, 24.0, 18.0), v(84.0, 69.0, 54.0), v(138.0, 114.0, 90.0)));
}

#[test]
fn test_cartesian_matrix_multiply_vector() {
    let c = counting().apply_with(&v(1.0, 2.0, 3.0), &plus, &times);
    assert_eq!((c.x, c.y, c.z), (14.0, 32.0, 50.0));
}

#[test]
fn test_cartesian_matrix_row_1() {
    assert_eq!(counting().row(0).unwrap(), v(1.0, 2.0, 3.0));
}

#[test]
fn test_cartesian_matrix_row_2() {
    assert_eq!(counting().row(1).unwrap(), v(4.0, 5.0, 6.0));
}

#[test]
fn test_cartesian_matrix_row_3() {
    assert_eq!(counting().row(2).unwrap(), v(7.0, 8.0, 9.0));
}

#[test]
fn test_cartesian_matrix_column_1() {
    assert_eq!(counting().column(0).unwrap(), v(1.0, 4.0, 7.0));
}

#[test]
fn test_cartesian_matrix_column_2() {
    assert_eq!(counting().column(1).unwrap(), v(2.0, 5.0, 8.0));
}

#[test]
fn test_cartesian_matrix_column_3() {
    assert_eq!(counting().column(2).unwrap(), v(3.0, 6.0, 9.0));
}

#[test]
fn determinant_with_equal_lower_rows_is_zero() {
    let m = Matrix3::new(v(2.5, -1.0, 7.0), v(0.3, 0.7, 1.1), v(0.3, 0.7, 1.1));
    assert_eq!(m.determinant_with(&plus, &minus, &times), 0.0);
}

#[test]
fn determinant_of_invertible_matrix() {
    let m = Matrix3::new(v(6.0, 1.0, 1.0), v(4.0, -2.0, 5.0), v(2.0, 8.0, 7.0));
    assert_eq!(m.determinant_with(&plus, &minus, &times), -306.0);
}

#[test]
fn minors_cofactors_and_adjugate() {
    let m = Matrix3::new(v(3.0, 0.0, 2.0), v(2.0, 0.0, -2.0), v(0.0, 1.0, 1.0));
    let minors = m.minors_with(&minus, &times);
    assert_eq!(minors, Matrix3::new(v(2.0, 2.0, 2.0), v(-2.0, 3.0, 3.0), v(0.0, -10.0, 0.0)));
    let cofactors = m.cofactors_with(&minus, &times, &neg);
    assert_eq!(cofactors, Matrix3::new(v(2.0, -2.0, 2.0), v(2.0, 3.0, -3.0), v(0.0, 10.0, 0.0)));
    let adjugate = m.adjugate_with(&minus, &times, &neg);
    assert_eq!(adjugate, Matrix3::new(v(2.0, 2.0, 0.0), v(-2.0, 3.0, 10.0), v(2.0, -3.0, 0.0)));
    let det = m.determinant_with(&plus, &minus, &times);
    assert_eq!(det, 10.0);
    let inverse = adjugate.map(&|x: f64| x / det);
    assert_eq!(inverse, Matrix3::new(v(0.2, 0.2, 0.0), v(-0.2, 0.3, 1.0), v(0.2, -0.3, 0.0)));
}

#[test]
fn signs_alternate_in_a_checkerboard() {
    let w = |x: i32, y: i32, z: i32| Vector3::new(x, y, z);
    let ones = Matrix3::new(w(1, 1, 1), w(1, 1, 1), w(1, 1, 1));
    let signed = ones.signed_with(&|x: i32| -x);
    assert_eq!(signed, Matrix3::new(w(1, -1, 1), w(-1, 1, -1), w(1, -1, 1)));
}

#[test]
fn test_cartesian_vector_rotate_about_axis() {
    let a = v(1.0, 2.0, 3.0);
    let k = v(1.0, 1.0, 1.0);
    let inverse = 1.0 / k.dot_with(&k, &plus, &times).sqrt();
    let b = k.map(&|x: f64| x * inverse);
    let angle = std::f64::consts::PI / 2.0;
    let (s, c) = (angle.sin(), angle.cos());
    let rotation = rodrigues_with(&b, c, s, 1.0, &plus, &minus, &times);
    let r = rotation.apply_with(&a, &plus, &times);
    assert!((r.x - 2.577350269189626).abs() <= 1e-12);
    assert!((r.y - 0.8452994616207488).abs() <= 1e-12);
    assert!((r.z - 2.577350269189626).abs() <= 1e-12);
}

#[test]
fn rodrigues_matrix_of_quarter_turn_about_z() {
    let rotation = rodrigues_with(&v(0.0, 0.0, 1.0), 0.0, 1.0, 1.0, &plus, &minus, &times);
    assert_eq!(rotation, Matrix3::new(v(0.0, -1.0, 0.0), v(1.0, 0.0, 0.0), v(0.0, 0.0, 1.0)));
    let r = rotation.apply_with(&v(1.0, 2.0, 3.0), &plus, &times);
    assert_eq!(r, v(-2.0, 1.0, 3.0));
}

#[test]
fn rodrigues_matrix_of_zero_angle_is_identity() {
    let rotation = rodrigues_with(&v(0.6, 0.0, 0.8), 1.0, 0.0, 1.0, &plus, &minus, &times);
    assert_eq!(rotation, Matrix3::new(v(1.0, 0.0, 0.0), v(0.0, 1.0, 0.0), v(0.0, 0.0, 1.0)));
}

fn quarter_turn() -> (f64, f64) {
    let angle = std::f64::consts::PI / 2.0;
    (angle.cos(), angle.sin())
}

fn close(a: Vector3<f64>, b: Vector3<f64>) -> bool {
    (a.x - b.x).abs() <= 1e-12 && (a.y - b.y).abs() <= 1e-12 && (a.z - b.z).abs() <= 1e-12
}

#[test]
fn test_cartesian_vector_rotate_about_x() {
    let (c, s) = quarter_turn();
    let b = v(1.0, 2.0, 3.0).rotate_about_x_with(c, s, &plus, &minus, &times);
    assert!(close(b, v(1.0, -3.0, 2.0)));
}

#[test]
fn test_cartesian_vector_rotate_about_y() {
    let (c, s) = quarter_turn();
    let b = v(1.0, 2.0, 3.0).rotate_about_y_with(c, s, &plus, &minus, &times);
    assert!(close(b, v(3.0, 2.0, -1.0)));
}

#[test]
fn test_cartesian_vector_rotate_about_z() {
    let (c, s) = quarter_turn();
    let b = v(1.0, 2.0, 3.0).rotate_about_z_with(c, s, &plus, &minus, &times);
    assert!(close(b, v(-2.0, 1.0, 3.0)));
}

#[test]
fn rotation_by_zero_angle_is_identity() {
    let a = v(1.5, -2.0, 3.25);
    let (c, s) = (0.0f64.cos(), 0.0f64.sin());
    assert_eq!(a.rotate_about_x_with(c, s, &plus, &minus, &times), a);
    assert_eq!(a.rotate_about_y_with(c, s, &plus, &minus, &times), a);
    assert_eq!(a.rotate_about_z_with(c, s, &plus, &minus, &times), a);
}

#[test]
fn rotation_by_full_turn_returns_close_to_start() {
    let a = v(1.5, -2.0, 3.25);
    let angle = 2.0 * std::f64::consts::PI;
    let (c, s) = (angle.cos(), angle.sin());
    assert!(close(a.rotate_about_x_with(c, s, &plus, &minus, &times), a));
    assert!(close(a.rotate_about_y_with(c, s, &plus, &minus, &times), a));
    assert!(close(a.rotate_about_z_with(c, s, &plus, &minus, &times), a));
}

fn iplus(x: i64, y: i64) -> i64 {
    x + y
}

fn iminus(x: i64, y: i64) -> i64 {
    x - y
}

fn itimes(x: i64, y: i64) -> i64 {
    x * y
}

#[test]
fn determinant_with_any_repeated_row_is_zero_in_exact_arithmetic() {
    let r = Vector3::new(7i64, -3, 11);
    let s = Vector3::new(2i64, 5, -13);
    for m in [Matrix3::new(r, r, s), Matrix3::new(r, s, r), Matrix3::new(s, r, r)] {
        assert_eq!(m.determinant_with(&iplus, &iminus, &itimes), 0);
    }
}

#[test]
fn cross_product_is_orthogonal_in_exact_arithmetic() {
    let a = Vector3::new(3i64, -7, 12);
    let b = Vector3::new(-5i64, 4, 9);
    let ab = a.cross_with(&b, &iminus, &itimes);
    assert_eq!(ab, Vector3::new(-111, -87, -23));
    assert_eq!(a.dot_with(&ab, &iplus, &itimes), 0);
    assert_eq!(b.dot_with(&ab, &iplus, &itimes), 0);
}
