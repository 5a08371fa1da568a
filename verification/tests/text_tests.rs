use mesai::text::{csv_field, decimal_string, join, parse_tags, trim};

#[test]
fn trim_removes_surrounding_whitespace() {
    assert_eq!(trim("  hello world \t\n"), "hello world");
    assert_eq!(trim("\u{3000}x\u{a0}"), "x");
    assert_eq!(trim("   "), "");
    assert_eq!(trim(""), "");
    assert_eq!(trim("a b"), "a b");
}

#[test]
fn parse_tags_splits_trims_and_drops_empty() {
    assert_eq!(parse_tags("c, shell, pointer"), vec!["c", "shell", "pointer"]);
    assert_eq!(parse_tags(" c ,, ,shell,"), vec!["c", "shell"]);
    assert_eq!(parse_tags(""), Vec::<String>::new());
    assert_eq!(parse_tags(",,,"), Vec::<String>::new());
    assert_eq!(parse_tags("tek"), vec!["tek"]);
}

#[test]
fn csv_field_quotes_only_when_needed() {
    assert_eq!(csv_field("plain"), "plain");
    assert_eq!(csv_field("a,b"), "\"a,b\"");
    assert_eq!(csv_field("x;y"), "\"x;y\"");
    assert_eq!(csv_field("say \"hi\""), "\"say \"\"hi\"\"\"");
    assert_eq!(csv_field("two\nlines"), "\"two\nlines\"");
    assert_eq!(csv_field("cr\r"), "\"cr\r\"");
    assert_eq!(csv_field(""), "");
}

#[test]
fn join_puts_separator_between_items() {
    let v: Vec<String> = vec!["c".to_string(), "shell".to_string(), "pointer".to_string()];
    assert_eq!(join(&v, ", "), "c, shell, pointer");
    assert_eq!(join(&Vec::new(), ", "), "");
    assert_eq!(join(&vec!["one".to_string()], ", "), "one");
}

#[test]
fn decimal_writes_digits() {
    assert_eq!(decimal_string(0), "0");
    assert_eq!(decimal_string(7), "7");
    assert_eq!(decimal_string(10), "10");
    assert_eq!(decimal_string(1234567890), "1234567890");
    assert_eq!(decimal_string(u64::MAX), u64::MAX.to_string());
}
