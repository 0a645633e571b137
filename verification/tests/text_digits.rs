use thorn::text::{push_decimal, push_signed_decimal};

#[test]
fn decimal_notation() {
    let mut s = String::new();
    push_decimal(&mut s, 0);
    s.push(' ');
    push_decimal(&mut s, 7);
    s.push(' ');
    push_decimal(&mut s, 1090);
    s.push(' ');
    push_decimal(&mut s, u64::MAX);
    assert_eq!(s, "0 7 1090 18446744073709551615");
}

#[test]
fn signed_notation() {
    let mut s = String::new();
    push_signed_decimal(&mut s, -1);
    s.push(' ');
    push_signed_decimal(&mut s, 15);
    assert_eq!(s, "-1 15");
}
