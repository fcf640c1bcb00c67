use media_sync::text::{decimal, joined, same_text};

#[test]
fn decimal_writes_digits_without_leading_zeros() {
    assert_eq!(decimal(0), "0");
    assert_eq!(decimal(9), "9");
    assert_eq!(decimal(10), "10");
    assert_eq!(decimal(25), "25");
    assert_eq!(decimal(100), "100");
    assert_eq!(decimal(1234567890), "1234567890");
    assert_eq!(decimal(usize::MAX), usize::MAX.to_string());
}

#[test]
fn different_numbers_are_written_differently() {
    for a in 0..120 {
        for b in 0..120 {
            assert_eq!(decimal(a) == decimal(b), a == b);
        }
    }
}

#[test]
fn joined_puts_one_after_the_other() {
    assert_eq!(joined("ab", "c"), "abc");
    assert_eq!(joined("", "c"), "c");
    assert_eq!(joined("ab", ""), "ab");
}

#[test]
fn same_text_compares_characters() {
    assert!(same_text("", ""));
    assert!(same_text("_meta", "_meta"));
    assert!(!same_text("_meta", "_met"));
    assert!(!same_text("a", "A"));
}
