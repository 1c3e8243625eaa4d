use gen_color::text::{decimal_string, positions_string};

#[test]
fn positions_in_decimal() {
    assert_eq!(positions_string(&vec![]), "[]");
    assert_eq!(
        positions_string(&vec![1, -999_999, 2_000_000, 120_000, i32::MIN]),
        "[0.000001, -0.999999, 2.0, 0.12, -2147.483648]"
    );
}

#[test]
fn counts_in_decimal() {
    assert_eq!(decimal_string(0), "0");
    assert_eq!(decimal_string(12345), "12345");
    assert_eq!(decimal_string(u64::MAX), "18446744073709551615");
}
