use minicc::text::{push_decimal, push_signed_decimal, push_str};

#[test]
fn decimal_rendering() {
    let mut s = String::new();
    push_decimal(&mut s, 0);
    push_str(&mut s, " ");
    push_decimal(&mut s, 1203);
    push_str(&mut s, " ");
    push_signed_decimal(&mut s, -45);
    push_str(&mut s, " ");
    push_signed_decimal(&mut s, i64::MIN);
    push_str(&mut s, " ");
    push_signed_decimal(&mut s, 9);
    assert_eq!(s, "0 1203 -45 -9223372036854775808 9");
}
