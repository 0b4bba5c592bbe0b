use interpret_deez::text::{
    chopped, indented, integer_to_string, natural_to_string, parse_integer, str_eq, str_lt,
};

#[test]
fn integers_are_written_in_decimal() {
    assert_eq!(integer_to_string(0), "0");
    assert_eq!(integer_to_string(7), "7");
    assert_eq!(integer_to_string(-7), "-7");
    assert_eq!(integer_to_string(1090), "1090");
    assert_eq!(integer_to_string(i64::MAX), "9223372036854775807");
    assert_eq!(integer_to_string(i64::MIN), "-9223372036854775808");
    assert_eq!(natural_to_string(u64::MAX), "18446744073709551615");
    assert_eq!(natural_to_string(10), "10");
}

#[test]
fn integers_are_read_from_decimal_digits() {
    assert_eq!(parse_integer("0"), Some(0));
    assert_eq!(parse_integer("000"), Some(0));
    assert_eq!(parse_integer("0042"), Some(42));
    assert_eq!(parse_integer("9223372036854775807"), Some(i64::MAX));
    assert_eq!(parse_integer("9223372036854775808"), None);
    assert_eq!(parse_integer("92233720368547758070"), None);
    assert_eq!(parse_integer(""), None);
    assert_eq!(parse_integer("-1"), None);
    assert_eq!(parse_integer("+1"), None);
    assert_eq!(parse_integer("1a"), None);
    assert_eq!(parse_integer("１"), None);
    assert_eq!(parse_integer("99999999999999999999x"), None);
}

#[test]
fn written_integers_are_read_back() {
    for n in [0, 1, 9, 10, 99, 100, 12345, i64::MAX] {
        assert_eq!(parse_integer(&integer_to_string(n)), Some(n));
    }
}

#[test]
fn line_breaks_are_indented() {
    assert_eq!(indented(""), "");
    assert_eq!(indented("abc"), "abc");
    assert_eq!(indented("{\nx;\n}"), "{\n  x;\n  }");
    assert_eq!(indented("\n\n"), "\n  \n  ");
    assert_eq!(indented("é\n🍌"), "é\n  🍌");
}

#[test]
fn texts_are_chopped_by_characters() {
    assert_eq!(chopped("abcdef", 3), "abc");
    assert_eq!(chopped("abc", 3), "");
    assert_eq!(chopped("ab", 3), "");
    assert_eq!(chopped("é🍌x", 1), "é🍌");
    assert_eq!(chopped("abc", 0), "abc");
}

#[test]
fn texts_compare_by_their_bytes() {
    assert!(str_eq("", ""));
    assert!(str_eq("joe", "joe"));
    assert!(!str_eq("joe", "joE"));
    assert!(!str_eq("joe", "joe "));
    assert!(str_eq("🍌", "🍌"));
    assert!(str_lt("", "a"));
    assert!(!str_lt("", ""));
    assert!(!str_lt("a", ""));
    assert!(str_lt("a", "b"));
    assert!(!str_lt("b", "a"));
    assert!(str_lt("ab", "abc"));
    assert!(str_lt("abc", "abd"));
    assert!(str_lt("~", "é"));
    assert!(str_lt("é", "🍌"));
}
