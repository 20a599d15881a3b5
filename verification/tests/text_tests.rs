use venture::text::{push_decimal, push_two_digits};

#[test]
fn decimal_digits() {
    let mut s = String::new();
    push_decimal(&mut s, 0);
    assert_eq!(s, "0");
    let mut s = String::from("n=");
    push_decimal(&mut s, 1234567890);
    assert_eq!(s, "n=1234567890");
    let mut s = String::new();
    push_decimal(&mut s, u64::MAX);
    assert_eq!(s, u64::MAX.to_string());
}

#[test]
fn two_digit_padding() {
    let mut s = String::new();
    push_two_digits(&mut s, 7);
    assert_eq!(s, "07");
    let mut s = String::new();
    push_two_digits(&mut s, 42);
    assert_eq!(s, "42");
    let mut s = String::new();
    push_two_digits(&mut s, 100);
    assert_eq!(s, "100");
}
