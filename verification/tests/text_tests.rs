use tsh::text::{chars_of, same_text, to_decimal, to_signed_decimal};

#[test]
fn decimal_of_small_numbers() {
    assert_eq!(to_decimal(0), "0");
    assert_eq!(to_decimal(7), "7");
    assert_eq!(to_decimal(9), "9");
    assert_eq!(to_decimal(10), "10");
    assert_eq!(to_decimal(4096), "4096");
    assert_eq!(to_decimal(1234567890), "1234567890");
}

#[test]
fn decimal_of_the_largest_number() {
    assert_eq!(to_decimal(u64::MAX), "18446744073709551615");
}

#[test]
fn signed_decimal_has_a_minus_sign() {
    assert_eq!(to_signed_decimal(0), "0");
    assert_eq!(to_signed_decimal(42), "42");
    assert_eq!(to_signed_decimal(-1), "-1");
    assert_eq!(to_signed_decimal(-305), "-305");
    assert_eq!(to_signed_decimal(i64::MAX), "9223372036854775807");
    assert_eq!(to_signed_decimal(i64::MIN), "-9223372036854775808");
}

#[test]
fn chars_of_keeps_every_character() {
    assert_eq!(chars_of(""), Vec::<char>::new());
    assert_eq!(chars_of("a|b"), vec!['a', '|', 'b']);
    assert_eq!(chars_of("né"), vec!['n', 'é']);
}

#[test]
fn same_text_compares_contents() {
    assert!(same_text("", ""));
    assert!(same_text("cd", "cd"));
    assert!(!same_text("cd", "cd "));
    assert!(!same_text("a", "b"));
}
