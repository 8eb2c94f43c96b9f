use concurrency::text::push_decimal;

fn decimal(v: i128) -> String {
    let mut out = String::new();
    push_decimal(&mut out, v);
    out
}

#[test]
fn decimal_text_of_small_numbers() {
    assert_eq!(decimal(0), "0");
    assert_eq!(decimal(7), "7");
    assert_eq!(decimal(10), "10");
    assert_eq!(decimal(1234567890), "1234567890");
    assert_eq!(decimal(-1), "-1");
    assert_eq!(decimal(-405), "-405");
}

#[test]
fn decimal_text_at_the_ends_of_the_range() {
    assert_eq!(decimal(i128::MAX), "170141183460469231731687303715884105727");
    assert_eq!(decimal(i128::MIN), "-170141183460469231731687303715884105728");
    assert_eq!(decimal(i64::MIN as i128), "-9223372036854775808");
}

#[test]
fn decimal_text_is_appended() {
    let mut out = String::from("x=");
    push_decimal(&mut out, -20);
    push_decimal(&mut out, 30);
    assert_eq!(out, "x=-2030");
}

#[test]
fn decimal_text_agrees_with_the_standard_formatting() {
    for v in [-1000i128, -999, -11, -10, -9, 0, 9, 10, 11, 99, 100, 101, 65535, 65536] {
        assert_eq!(decimal(v), format!("{}", v));
    }
}
