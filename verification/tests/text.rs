use multiview::text::{decimal_text, join3};

#[test]
fn decimal_notation() {
    assert_eq!(decimal_text(0), "0");
    assert_eq!(decimal_text(9), "9");
    assert_eq!(decimal_text(10), "10");
    assert_eq!(decimal_text(1234567890), "1234567890");
    assert_eq!(decimal_text(u128::MAX), "340282366920938463463374607431768211455");
}

#[test]
fn numbers_differ_in_notation() {
    for a in 0..120u128 {
        for b in 0..120u128 {
            assert_eq!(decimal_text(a) == decimal_text(b), a == b);
        }
    }
}

#[test]
fn joining() {
    assert_eq!(join3("a", "", "bc"), "abc");
}
