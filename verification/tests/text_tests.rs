use crust::text::{decimal_string, str_le};

#[test]
fn decimal_rendering() {
    assert_eq!(decimal_string(0), "0");
    assert_eq!(decimal_string(7), "7");
    assert_eq!(decimal_string(50), "50");
    assert_eq!(decimal_string(2024), "2024");
    assert_eq!(decimal_string(1000000), "1000000");
}

#[test]
fn lexicographic_string_order() {
    assert!(str_le("09:00", "10:00"));
    assert!(!str_le("10:00", "09:00"));
    // The order is by characters, not by numeric value.
    assert!(str_le("10:00", "9:00"));
    assert!(str_le("abc", "abc"));
    assert!(str_le("ab", "abc"));
    assert!(!str_le("abc", "ab"));
    assert!(str_le("", "a"));
}
