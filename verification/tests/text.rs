use dada_execute::text::{
    decimal_text, hexadecimal_text, push_decimal, push_decimal_digits, push_hex_digits, push_spaces,
    signed_decimal_text,
};

#[test]
fn decimal_digits() {
    assert_eq!(decimal_text(0), "0");
    assert_eq!(decimal_text(7), "7");
    assert_eq!(decimal_text(10), "10");
    assert_eq!(decimal_text(1234567890), "1234567890");
    assert_eq!(decimal_text(u64::MAX), "18446744073709551615");
}

#[test]
fn signed_decimal_digits() {
    assert_eq!(signed_decimal_text(0), "0");
    assert_eq!(signed_decimal_text(-1), "-1");
    assert_eq!(signed_decimal_text(42), "42");
    assert_eq!(signed_decimal_text(i64::MAX), "9223372036854775807");
    assert_eq!(signed_decimal_text(i64::MIN), "-9223372036854775808");
}

#[test]
fn hexadecimal_digits() {
    assert_eq!(hexadecimal_text(0), "0x0");
    assert_eq!(hexadecimal_text(255), "0xff");
    assert_eq!(hexadecimal_text(0xabcdef0123456789), "0xabcdef0123456789");
    assert_eq!(hexadecimal_text(16), "0x10");
}

#[test]
fn pushing_appends() {
    let mut out = String::from("n=");
    push_decimal(&mut out, 305);
    push_spaces(&mut out, 3);
    push_decimal_digits(&mut out, 9);
    push_spaces(&mut out, 0);
    push_hex_digits(&mut out, 4096);
    assert_eq!(out, "n=305   91000");
}
