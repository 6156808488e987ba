use cryptenv::config::add_names_of;
use cryptenv::config::holds_name;
use cryptenv::table::copy_strings;
use cryptenv::table::Table;
use cryptenv::text::decimal;
use cryptenv::text::precedes;
use cryptenv::text::same_text;

#[test]
fn numbers_in_decimal() {
    assert_eq!(decimal(0), "0");
    assert_eq!(decimal(7), "7");
    assert_eq!(decimal(10), "10");
    assert_eq!(decimal(1234567890), "1234567890");
    assert_eq!(decimal(usize::MAX), usize::MAX.to_string());
}

#[test]
fn names_are_ordered_by_their_bytes() {
    assert!(precedes("a", "b"));
    assert!(precedes("", "a"));
    assert!(precedes("a", "ab"));
    assert!(precedes("B", "a"));
    assert!(precedes("z", "\u{e9}"));
    assert!(!precedes("b", "a"));
    assert!(!precedes("a", "a"));
    assert!(!precedes("ab", "a"));
    assert!(!precedes("", ""));
    for (a, b) in [("x", "y"), ("\u{4e16}", "\u{e9}"), ("ab", "abc"), ("A", "a")] {
        assert_eq!(precedes(a, b), a < b);
        assert_eq!(precedes(b, a), b < a);
    }
}

#[test]
fn texts_are_equal_when_their_characters_are() {
    assert!(same_text("", ""));
    assert!(same_text("abc", "abc"));
    assert!(same_text("\u{e9}", "\u{e9}"));
    assert!(!same_text("abc", "abd"));
    assert!(!same_text("abc", "ab"));
    assert!(!same_text("e\u{301}", "\u{e9}"));
}

#[test]
fn strings_are_copied_and_searched() {
    let list = vec!["a".to_string(), "b".to_string()];
    assert_eq!(copy_strings(&list), list);
    assert!(holds_name(&list, "b"));
    assert!(!holds_name(&list, "c"));
}

#[test]
fn new_names_are_added_once() {
    let mut seen = vec!["B".to_string()];
    let mut table = Table::new();
    table.insert("A".to_string(), "x".to_string());
    table.insert("B".to_string(), "y".to_string());
    table.insert("C".to_string(), "z".to_string());
    add_names_of(&mut seen, &table);
    assert_eq!(seen, vec!["B".to_string(), "A".to_string(), "C".to_string()]);
}
