use hujingzhi::text::{
    chars_of, clone_strings, decimal_string, hex_string, signed_decimal_string, starts_with,
    strings_equal,
};

#[test]
fn decimal_of_small_and_large_numbers() {
    assert_eq!(decimal_string(0), "0");
    assert_eq!(decimal_string(7), "7");
    assert_eq!(decimal_string(10), "10");
    assert_eq!(decimal_string(20000), "20000");
    assert_eq!(decimal_string(4294967295), "4294967295");
    assert_eq!(decimal_string(u64::MAX), "18446744073709551615");
}

#[test]
fn signed_decimal_of_negative_numbers() {
    assert_eq!(signed_decimal_string(-1), "-1");
    assert_eq!(signed_decimal_string(0), "0");
    assert_eq!(signed_decimal_string(137), "137");
    assert_eq!(signed_decimal_string(i32::MIN), "-2147483648");
    assert_eq!(signed_decimal_string(i32::MAX), "2147483647");
}

#[test]
fn hex_is_lowercase_and_two_digits_per_byte() {
    assert_eq!(hex_string(&vec![]), "");
    assert_eq!(hex_string(&vec![0x00, 0x0f, 0xa0, 0xff]), "000fa0ff");
    assert_eq!(hex_string(&vec![0x12, 0xab]), "12ab");
}

#[test]
fn prefix_test() {
    assert!(starts_with("127.0.0.5", "127.0.0."));
    assert!(!starts_with("127.0.1.5", "127.0.0."));
    assert!(!starts_with("127", "127.0.0."));
    assert!(starts_with("abc", ""));
    assert!(starts_with("", ""));
}

#[test]
fn characters_of_a_string() {
    assert_eq!(chars_of("a:é"), vec!['a', ':', 'é']);
    assert_eq!(chars_of(""), Vec::<char>::new());
}

#[test]
fn string_lists_compare_and_copy() {
    let a = vec!["x".to_string(), "y".to_string()];
    let b = clone_strings(&a);
    assert_eq!(a, b);
    assert!(strings_equal(&a, &b));
    assert!(!strings_equal(&a, &vec!["x".to_string()]));
    assert!(!strings_equal(&a, &vec!["y".to_string(), "x".to_string()]));
}
