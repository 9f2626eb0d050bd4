use stellaris_save_editor::text::{
    chars_of, count_char_in, has_char, keyed_number, occurs_in_exec, parse_i32_chars,
    parse_i32_or_zero,
};

#[test]
fn parse_accepts_signed_decimal_numbers() {
    assert_eq!(parse_i32_or_zero("123"), 123);
    assert_eq!(parse_i32_or_zero("-5"), -5);
    assert_eq!(parse_i32_or_zero("+7"), 7);
    assert_eq!(parse_i32_or_zero("0007"), 7);
    assert_eq!(parse_i32_or_zero("2147483647"), 2147483647);
    assert_eq!(parse_i32_or_zero("-2147483648"), -2147483648);
}

#[test]
fn parse_falls_back_to_zero() {
    assert_eq!(parse_i32_or_zero(""), 0);
    assert_eq!(parse_i32_or_zero("-"), 0);
    assert_eq!(parse_i32_or_zero("+"), 0);
    assert_eq!(parse_i32_or_zero("12a"), 0);
    assert_eq!(parse_i32_or_zero("2147483648"), 0);
    assert_eq!(parse_i32_or_zero("-2147483649"), 0);
    assert_eq!(parse_i32_or_zero("99999999999999999999999"), 0);
    assert_eq!(parse_i32_or_zero("\u{0663}"), 0);
    assert_eq!(parse_i32_chars(&chars_of(" 1")), None);
}

#[test]
fn parse_agrees_with_std() {
    for s in ["0", "42", "-42", "+42", "2147483647", "2147483648", "x", "", "-0", "1 "] {
        assert_eq!(parse_i32_or_zero(s), s.parse::<i32>().unwrap_or(0), "{}", s);
    }
}

#[test]
fn keyed_number_writes_decimal() {
    assert_eq!(keyed_number("info=", 42), "info=42");
    assert_eq!(keyed_number("x", 0), "x0");
    assert_eq!(keyed_number("", 1000), "1000");
    assert_eq!(keyed_number("total=", u128::MAX), format!("total={}", u128::MAX));
}

#[test]
fn decimal_then_parse_gives_the_number_back() {
    for n in [0u128, 1, 9, 10, 99, 100, 12345, 2147483647] {
        assert_eq!(parse_i32_or_zero(&keyed_number("", n)) as u128, n);
    }
}

#[test]
fn char_helpers() {
    let v = chars_of("a{b{c}é");
    assert_eq!(v.len(), 7);
    assert_eq!(count_char_in(&v, '{'), 2);
    assert_eq!(count_char_in(&v, '}'), 1);
    assert!(has_char(&v, '}'));
    assert!(!has_char(&v, 'z'));
    assert!(occurs_in_exec(&chars_of("b{c"), &v));
    assert!(!occurs_in_exec(&chars_of("cb"), &v));
    assert!(occurs_in_exec(&chars_of(""), &v));
    assert!(!occurs_in_exec(&chars_of("a{b{c}éx"), &v));
}
