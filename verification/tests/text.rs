use pathway_connectors::text::{
    bytes_equal, bytes_less, decimal, hexadecimal, join_path, join_text, signed_decimal, text_equal,
    text_less,
};

#[test]
fn decimal_renders_zero_and_the_largest_number() {
    assert_eq!(decimal(0), "0");
    assert_eq!(decimal(7), "7");
    assert_eq!(decimal(1234567890), "1234567890");
    assert_eq!(decimal(u128::MAX), u128::MAX.to_string());
}

#[test]
fn hexadecimal_is_lower_case_without_padding() {
    assert_eq!(hexadecimal(0), "0");
    assert_eq!(hexadecimal(255), "ff");
    assert_eq!(hexadecimal(0xdead_beef), "deadbeef");
    assert_eq!(hexadecimal(u128::MAX), format!("{:x}", u128::MAX));
}

#[test]
fn signed_decimal_keeps_the_sign() {
    assert_eq!(signed_decimal(1), "1");
    assert_eq!(signed_decimal(-1), "-1");
    assert_eq!(signed_decimal(0), "0");
    assert_eq!(signed_decimal(i64::MIN), i64::MIN.to_string());
    assert_eq!(signed_decimal(i64::MAX), i64::MAX.to_string());
}

#[test]
fn join_path_puts_one_separator() {
    assert_eq!(join_path("/tmp", "x"), "/tmp/x");
    assert_eq!(join_path("/tmp/", "x"), "/tmp/x");
    assert_eq!(join_path("", "x"), "x");
}

#[test]
fn join_text_appends() {
    assert_eq!(join_text("cache-", "12"), "cache-12");
    assert_eq!(join_text("", ""), "");
}

#[test]
fn text_order_is_the_byte_order() {
    assert!(text_less("a", "b"));
    assert!(!text_less("b", "a"));
    assert!(!text_less("a", "a"));
    assert!(text_less("a", "aa"));
    assert!(text_less("", "a"));
    assert!(text_less("a/b", "a0"));
    assert!(text_less("Z", "a"));
    assert!(text_less("z", "é"));
    assert_eq!(text_less("dir/f1", "dir/f2"), "dir/f1" < "dir/f2");
}

#[test]
fn byte_order_and_equality() {
    assert!(bytes_less(&[1, 2], &[1, 3]));
    assert!(bytes_less(&[1], &[1, 0]));
    assert!(!bytes_less(&[2], &[1, 9]));
    assert!(bytes_equal(&[1, 2, 3], &[1, 2, 3]));
    assert!(!bytes_equal(&[1, 2, 3], &[1, 2]));
    assert!(text_equal("abc", "abc"));
    assert!(!text_equal("abc", "abd"));
}
