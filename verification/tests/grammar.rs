use trajan::grammar::{parse_count, push_decimal, str_eq, tokenize, trim_str, CountRead};

#[test]
fn tokenize_whitespace_runs() {
    let toks = tokenize("  H\t1.0   2.0\t\t3.0  ");
    assert_eq!(toks, vec!["H", "1.0", "2.0", "3.0"]);
    assert_eq!(tokenize(""), Vec::<String>::new());
    assert_eq!(tokenize("   \t "), Vec::<String>::new());
    assert_eq!(tokenize("one"), vec!["one"]);
}

#[test]
fn trim_both_ends() {
    assert_eq!(trim_str(" \t x y \r\n"), "x y");
    assert_eq!(trim_str(""), "");
    assert_eq!(trim_str("plain"), "plain");
    assert_eq!(trim_str("  \t"), "");
}

#[test]
fn count_forms() {
    assert!(matches!(parse_count("42"), CountRead::Count(42)));
    assert!(matches!(parse_count("+7"), CountRead::Count(7)));
    assert!(matches!(parse_count("007"), CountRead::Count(7)));
    assert!(matches!(parse_count("0"), CountRead::Count(0)));
    assert!(matches!(parse_count(""), CountRead::Invalid));
    assert!(matches!(parse_count("+"), CountRead::Invalid));
    assert!(matches!(parse_count("-1"), CountRead::Invalid));
    assert!(matches!(parse_count("4 2"), CountRead::Invalid));
    assert!(matches!(parse_count("1.5"), CountRead::Invalid));
    assert!(matches!(
        parse_count("99999999999999999999999999"),
        CountRead::Overflow
    ));
    assert!(matches!(
        parse_count("99999999999999999999999999x"),
        CountRead::Invalid
    ));
}

#[test]
fn decimal_rendering() {
    let mut s = String::new();
    push_decimal(&mut s, 0);
    assert_eq!(s, "0");
    let mut s = String::from("n = ");
    push_decimal(&mut s, 907);
    assert_eq!(s, "n = 907");
}

#[test]
fn string_equality() {
    assert!(str_eq("name", "name"));
    assert!(!str_eq("name", "nam"));
    assert!(!str_eq("name", "mass"));
    assert!(str_eq("", ""));
}
