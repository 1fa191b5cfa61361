use sylphie::text::{
    bytes_eq, copy_bytes, decimal_string, push_decimal, push_hex_lower, same_text, to_ascii_lowercase,
};

#[test]
fn decimal_string_renders_without_leading_zeros() {
    assert_eq!(decimal_string(0), "0");
    assert_eq!(decimal_string(7), "7");
    assert_eq!(decimal_string(10), "10");
    assert_eq!(decimal_string(1024), "1024");
    assert_eq!(decimal_string(4294967295), "4294967295");
}

#[test]
fn push_decimal_appends_to_what_is_there() {
    let mut text = String::from("v");
    push_decimal(&mut text, 305);
    assert_eq!(text, "v305");
}

#[test]
fn hex_is_lower_case_high_digit_first() {
    let mut text = String::from("x");
    push_hex_lower(&mut text, &[0x00, 0x0f, 0xa5, 0xff, 0x10], 4);
    assert_eq!(text, "x000fa5ff");
    let mut none = String::new();
    push_hex_lower(&mut none, &[1, 2, 3], 0);
    assert_eq!(none, "");
}

#[test]
fn lowercase_touches_only_ascii_letters() {
    assert_eq!(to_ascii_lowercase("Hello, WORLD-42"), "hello, world-42");
    assert_eq!(to_ascii_lowercase("AZ[@az"), "az[@az");
    assert_eq!(to_ascii_lowercase("ÀB"), "Àb");
    assert_eq!(to_ascii_lowercase(""), "");
}

#[test]
fn byte_strings_compare_and_copy() {
    assert!(bytes_eq(&[1, 2, 3], &[1, 2, 3]));
    assert!(!bytes_eq(&[1, 2, 3], &[1, 2, 4]));
    assert!(!bytes_eq(&[1, 2, 3], &[1, 2]));
    assert!(bytes_eq(&[], &[]));
    assert_eq!(copy_bytes(&[9, 8, 7]), vec![9, 8, 7]);
    assert!(same_text("init_with", "init_with"));
    assert!(!same_text("init_with", "init_With"));
}
