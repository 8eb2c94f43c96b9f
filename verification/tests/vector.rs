use concurrency::{check_dot_fits, dot_product, Error, Vector};

#[test]
fn dot_product_sums_the_pairwise_products() {
    let a = Vector::new(vec![1, 2, 3]);
    let b = Vector::new(vec![4, 5, 6]);
    assert_eq!(dot_product(a, b), Ok(32));
}

#[test]
fn dot_product_of_empty_vectors_is_zero() {
    let a: Vector<i64> = Vector::new(vec![]);
    let b: Vector<i64> = Vector::new(vec![]);
    assert_eq!(dot_product(a, b), Ok(0));
}

#[test]
fn dot_product_of_mismatched_lengths_fails() {
    let a = Vector::new(vec![1, 2, 3]);
    let b = Vector::new(vec![4, 5]);
    assert_eq!(dot_product(a, b), Err(Error::DimensionMismatch));
    let c: Vector<i32> = Vector::new(vec![]);
    let d = Vector::new(vec![1]);
    assert_eq!(dot_product(c, d), Err(Error::DimensionMismatch));
}

#[test]
fn dot_product_commutes() {
    let left = dot_product(Vector::new(vec![3, -1, 4, 1]), Vector::new(vec![5, 9, -2, 6]));
    let right = dot_product(Vector::new(vec![5, 9, -2, 6]), Vector::new(vec![3, -1, 4, 1]));
    assert_eq!(left, Ok(4));
    assert_eq!(left, right);
}

#[test]
fn dot_product_over_wide_integers() {
    let a = Vector::new(vec![3_000_000_000i64, 2]);
    let b = Vector::new(vec![3i64, -1]);
    assert_eq!(dot_product(a, b), Ok(8_999_999_998));
}

#[test]
fn vector_keeps_its_elements_in_order() {
    let v = Vector::new(vec![7, 8, 9]);
    assert_eq!(v.len(), 3);
    assert_eq!(v.get(0), 7);
    assert_eq!(v.get(2), 9);
    assert_eq!(v.as_slice(), &[7, 8, 9]);
}

#[test]
fn dot_overflow_is_found_before_computing() {
    let big = Vector::new(vec![i32::MAX]);
    let two = Vector::new(vec![2]);
    assert!(!check_dot_fits(&big, &two));
    let one = Vector::new(vec![1]);
    assert!(check_dot_fits(&big, &one));
    let sums = Vector::new(vec![i32::MAX, 1]);
    let ones = Vector::new(vec![1, 1]);
    assert!(!check_dot_fits(&sums, &ones));
    let back = Vector::new(vec![i32::MIN, -1]);
    let signs = Vector::new(vec![1, 1]);
    assert!(!check_dot_fits(&back, &signs));
    let short = Vector::new(vec![i32::MAX]);
    assert!(check_dot_fits(&short, &ones));
}
