use concurrency::{check_product_fits, parallel_multiply, sequential_multiply, Error, Matrix};

#[test]
fn test_sequential_multiply() {
    let a = Matrix::new(2, 3, vec![1, 2, 3, 4, 5, 6]);
    let b = Matrix::new(3, 2, vec![1, 2, 3, 4, 5, 6]);
    let c = sequential_multiply(&a, &b).unwrap();
    assert_eq!(c.to_string(), "{22 28, 49 64}");
}

#[test]
fn test_demention_mismatch() {
    let a = Matrix::new(2, 3, vec![1, 2, 3, 4, 5, 6]);
    let b = Matrix::new(2, 3, vec![1, 2, 3, 4, 5, 6]);
    assert!(parallel_multiply(&a, &b).is_err());
}

#[test]
fn mismatch_fails_on_both_paths_with_its_own_error() {
    let a = Matrix::new(2, 3, vec![1, 2, 3, 4, 5, 6]);
    let b = Matrix::new(2, 3, vec![1, 2, 3, 4, 5, 6]);
    assert!(matches!(sequential_multiply(&a, &b), Err(Error::DimensionMismatch)));
    assert!(matches!(parallel_multiply(&a, &b), Err(Error::DimensionMismatch)));
}

#[test]
fn product_cells_are_row_times_column() {
    let a = Matrix::new(2, 3, vec![1i64, 2, 3, 4, 5, 6]);
    let b = Matrix::new(3, 2, vec![1i64, 2, 3, 4, 5, 6]);
    let c = sequential_multiply(&a, &b).unwrap();
    assert_eq!(c.rows(), 2);
    assert_eq!(c.cols(), 2);
    assert_eq!(c.get(0, 0), 22);
    assert_eq!(c.get(0, 1), 28);
    assert_eq!(c.get(1, 0), 49);
    assert_eq!(c.get(1, 1), 64);
}

#[test]
fn product_is_not_commutative() {
    let a = Matrix::new(2, 2, vec![1, 2, 3, 4]);
    let b = Matrix::new(2, 2, vec![0, 1, 1, 0]);
    assert_eq!(sequential_multiply(&a, &b).unwrap().to_string(), "{2 1, 4 3}");
    assert_eq!(sequential_multiply(&b, &a).unwrap().to_string(), "{3 4, 1 2}");
}

#[test]
fn product_with_negative_cells() {
    let a = Matrix::new(1, 2, vec![-3, 4]);
    let b = Matrix::new(2, 1, vec![5, -6]);
    assert_eq!(sequential_multiply(&a, &b).unwrap().to_string(), "{-39}");
}

#[test]
fn product_over_an_empty_inner_dimension_is_zero() {
    let a: Matrix<i32> = Matrix::new(2, 0, vec![]);
    let b: Matrix<i32> = Matrix::new(0, 3, vec![]);
    assert_eq!(sequential_multiply(&a, &b).unwrap().to_string(), "{0 0 0, 0 0 0}");
}

#[test]
fn rows_and_columns_are_copied_out() {
    let m = Matrix::new(2, 3, vec![1, 2, 3, 4, 5, 6]);
    let row = m.row(1);
    assert_eq!(row.len(), 3);
    assert_eq!((row.get(0), row.get(1), row.get(2)), (4, 5, 6));
    let col = m.col(2);
    assert_eq!(col.len(), 2);
    assert_eq!((col.get(0), col.get(1)), (3, 6));
    let first = m.col(0);
    assert_eq!((first.get(0), first.get(1)), (1, 4));
}

#[test]
fn matrix_text_of_each_shape() {
    assert_eq!(Matrix::new(2, 3, vec![1, 2, 3, 4, 5, 6]).to_string(), "{1 2 3, 4 5 6}");
    assert_eq!(Matrix::new(3, 2, vec![1, 2, 3, 4, 5, 6]).to_string(), "{1 2, 3 4, 5 6}");
    assert_eq!(Matrix::new(1, 1, vec![-7]).to_string(), "{-7}");
    assert_eq!(Matrix::new(1, 3, vec![10, 0, -10]).to_string(), "{10 0 -10}");
    assert_eq!(Matrix::new(3, 1, vec![1, 2, 3]).to_string(), "{1, 2, 3}");
    let none: Matrix<i32> = Matrix::new(0, 0, vec![]);
    assert_eq!(none.to_string(), "{}");
    let no_columns: Matrix<i32> = Matrix::new(2, 0, vec![]);
    assert_eq!(no_columns.to_string(), "{, }");
    let no_rows: Matrix<i32> = Matrix::new(0, 2, vec![]);
    assert_eq!(no_rows.to_string(), "{}");
}

#[test]
fn matrix_text_of_the_widest_values() {
    let m = Matrix::new(1, 2, vec![i64::MIN, i64::MAX]);
    assert_eq!(m.to_string(), "{-9223372036854775808 9223372036854775807}");
}

#[test]
fn overflow_is_found_before_multiplying() {
    let a = Matrix::new(1, 2, vec![i32::MAX, 1]);
    let b = Matrix::new(2, 1, vec![1, 1]);
    assert!(!check_product_fits(&a, &b));
    let c = Matrix::new(1, 2, vec![i32::MAX, -1]);
    assert!(check_product_fits(&c, &b));
    assert_eq!(sequential_multiply(&c, &b).unwrap().to_string(), "{2147483646}");
    let d = Matrix::new(1, 1, vec![65536]);
    assert!(!check_product_fits(&d, &d));
    let wide = Matrix::new(1, 1, vec![65536i64]);
    assert!(check_product_fits(&wide, &wide));
    assert_eq!(sequential_multiply(&wide, &wide).unwrap().to_string(), "{4294967296}");
}

#[test]
fn running_sums_count_for_overflow_too() {
    let a = Matrix::new(1, 3, vec![i32::MAX, 1, -1]);
    let b = Matrix::new(3, 1, vec![1, 1, 1]);
    assert!(!check_product_fits(&a, &b));
}

#[test]
fn mismatched_shapes_pass_the_overflow_check() {
    let a = Matrix::new(1, 2, vec![i32::MAX, i32::MAX]);
    let b = Matrix::new(1, 2, vec![i32::MAX, i32::MAX]);
    assert!(check_product_fits(&a, &b));
    assert!(matches!(sequential_multiply(&a, &b), Err(Error::DimensionMismatch)));
}

#[test]
fn product_over_unsigned_cells() {
    let a = Matrix::new(1, 2, vec![4_000_000_000u64, 1]);
    let b = Matrix::new(2, 1, vec![4u64, 5]);
    assert!(check_product_fits(&a, &b));
    assert_eq!(sequential_multiply(&a, &b).unwrap().to_string(), "{16000000005}");
    let narrow = Matrix::new(1, 2, vec![4_000_000_000u32, 1]);
    let by = Matrix::new(2, 1, vec![4u32, 5]);
    assert!(!check_product_fits(&narrow, &by));
}
