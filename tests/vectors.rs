use linear_algebra::dims::{Axis, Dimension};
use linear_algebra::dynvec::{cross_with, dot_with, map_components, zip_components};
use linear_algebra::error::LinalgError;

fn plus(x: f64, y: f64) -> f64 {
    x + y
}

fn minus(x: f64, y: f64) -> f64 {
    x - y
}

fn times(x: f64, y: f64) -> f64 {
    x * y
}

fn dot(a: &Vec<f64>, b: &Vec<f64>) -> Result<f64, LinalgError> {
    dot_with(a, b, 0.0, &plus, &times)
}

#[test]
fn vectors_test_add() {
    let a = vec![1.0, 2.0, 3.0];
    let b = vec![4.0, 5.0, 6.0];
    let result = zip_components(&a, &b, &plus).unwrap();
    assert_eq!(result, vec![5.0, 7.0, 9.0]);
}

#[test]
fn vectors_test_subtract() {
    let a = vec![1.0, 2.0, 3.0];
    let b = vec![4.0, 5.0, 6.0];
    let result = zip_components(&a, &b, &minus).unwrap();
    assert_eq!(result, vec![-3.0, -3.0, -3.0]);
}

#[test]
fn vectors_test_dot() {
    let a = vec![1.0, 2.0, 3.0];
    let b = vec![4.0, 5.0, 6.0];
    let result = dot(&a, &b).unwrap();
    assert_eq!(result, 32.0);
}

#[test]
fn vectors_test_scale() {
    let a = vec![1.0, 2.0, 3.0];
    let b = 2.0;
    let result = map_components(&a, &|x: f64| x * b).unwrap();
    assert_eq!(result, vec![2.0, 4.0, 6.0]);
}

#[test]
fn vectors_test_cross() {
    let a = vec![1.0, 2.0, 3.0];
    let b = vec![4.0, 5.0, 6.0];
    let result = cross_with(&a, &b, &minus, &times).unwrap();
    assert_eq!(result, vec![-3.0, 6.0, -3.0]);
}

#[test]
fn vectors_test_magnitude() {
    let a = vec![1.0, 2.0, 3.0];
    let result = dot(&a, &a).unwrap().sqrt();
    assert_eq!(result, 3.7416573867739413);
}

#[test]
fn test_normalize() {
    let a = vec![1.0, 2.0, 3.0];
    let mag = dot(&a, &a).unwrap().sqrt();
    let result = map_components(&a, &|x: f64| x / mag).unwrap();
    assert_eq!(result, vec![0.2672612419124244, 0.5345224838248488, 0.8017837257372732]);
}

#[test]
fn functions_test_dot() {
    let a = vec![1.0, 2.0, 3.0];
    let b = vec![4.0, 5.0, 6.0];
    let result = dot(&a, &b).unwrap();
    assert_eq!(result, 32.0);
}

#[test]
fn add_of_length_four_is_unsupported() {
    let a = vec![1.0, 2.0, 3.0, 4.0];
    let b = vec![5.0, 6.0, 7.0, 8.0];
    assert_eq!(zip_components(&a, &b, &plus), Err(LinalgError::UnsupportedDimension(4)));
}

#[test]
fn dispatch_accepts_only_two_and_three() {
    assert_eq!(Dimension::of_length(2), Ok(Dimension::Two));
    assert_eq!(Dimension::of_length(3), Ok(Dimension::Three));
    assert_eq!(Dimension::of_length(0), Err(LinalgError::UnsupportedDimension(0)));
    assert_eq!(Dimension::of_length(1), Err(LinalgError::UnsupportedDimension(1)));
    assert_eq!(Dimension::of_length(4), Err(LinalgError::UnsupportedDimension(4)));
    assert_eq!(Dimension::Two.len(), 2);
    assert_eq!(Dimension::Three.len(), 3);
}

#[test]
fn two_dimensional_operations() {
    let a = vec![3.0, 4.0];
    let b = vec![1.0, -2.0];
    assert_eq!(zip_components(&a, &b, &plus).unwrap(), vec![4.0, 2.0]);
    assert_eq!(zip_components(&a, &b, &minus).unwrap(), vec![2.0, 6.0]);
    assert_eq!(dot(&a, &b).unwrap(), -5.0);
    assert_eq!(dot(&a, &a).unwrap().sqrt(), 5.0);
    assert_eq!(map_components(&a, &|x: f64| x / 5.0).unwrap(), vec![0.6, 0.8]);
}

#[test]
fn operands_of_different_lengths_are_refused() {
    let a = vec![1.0, 2.0, 3.0];
    let b = vec![1.0, 2.0];
    assert_eq!(zip_components(&a, &b, &plus), Err(LinalgError::LengthMismatch(3, 2)));
    assert_eq!(dot(&a, &b), Err(LinalgError::LengthMismatch(3, 2)));
    assert_eq!(dot(&b, &vec![1.0; 5]), Err(LinalgError::LengthMismatch(2, 5)));
}

#[test]
fn unsupported_lengths_are_refused_by_every_operation() {
    let a = vec![1.0; 5];
    assert_eq!(dot(&a, &a), Err(LinalgError::UnsupportedDimension(5)));
    assert_eq!(map_components(&a, &|x: f64| x * 2.0), Err(LinalgError::UnsupportedDimension(5)));
    let e: Vec<f64> = Vec::new();
    assert_eq!(zip_components(&e, &e, &plus), Err(LinalgError::UnsupportedDimension(0)));
}

#[test]
fn cross_needs_length_three() {
    let a = vec![1.0, 2.0];
    let b = vec![1.0, 2.0, 3.0];
    assert_eq!(cross_with(&a, &a, &minus, &times), Err(LinalgError::UnsupportedDimension(2)));
    assert_eq!(cross_with(&b, &a, &minus, &times), Err(LinalgError::LengthMismatch(3, 2)));
}

#[test]
fn normalizing_zero_vector_gives_nan() {
    let a = vec![0.0, 0.0, 0.0];
    let mag = dot(&a, &a).unwrap().sqrt();
    let result = map_components(&a, &|x: f64| x / mag).unwrap();
    assert!(result.iter().all(|x| x.is_nan()));
}

#[test]
fn axis_decoding() {
    assert_eq!(Axis::from_index(0), Ok(Axis::X));
    assert_eq!(Axis::from_index(1), Ok(Axis::Y));
    assert_eq!(Axis::from_index(2), Ok(Axis::Z));
    assert_eq!(Axis::from_index(3), Err(LinalgError::IndexOutOfRange(3)));
    assert_eq!(Axis::Z.index(), 2);
}
