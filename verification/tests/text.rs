use homesync::text::{
    chars_of, comes_before, copy_texts, count_among, decimal_of, is_among, is_taken, same_text,
};

#[test]
fn decimal_of_writes_numbers_without_leading_zeros() {
    assert_eq!(decimal_of(0), "0");
    assert_eq!(decimal_of(7), "7");
    assert_eq!(decimal_of(10), "10");
    assert_eq!(decimal_of(1203), "1203");
    assert_eq!(decimal_of(u64::MAX), "18446744073709551615");
}

#[test]
fn texts_are_compared_character_by_character() {
    assert_eq!(chars_of("a/\u{e9}"), vec!['a', '/', '\u{e9}']);
    assert!(chars_of("").is_empty());
    assert!(same_text("", ""));
    assert!(same_text("abc", "abc"));
    assert!(!same_text("abc", "abd"));
    assert!(!same_text("abc", "ab"));
    assert!(comes_before("", "a"));
    assert!(!comes_before("", ""));
    assert!(comes_before("abc", "abd"));
    assert!(comes_before("ab", "abc"));
    assert!(!comes_before("b", "abc"));
    assert!(comes_before("z", "\u{e9}"));
}

#[test]
fn names_are_found_among_names() {
    let names = vec!["main".to_owned(), "main-tmp".to_owned()];
    assert!(is_taken(&names, "main-tmp"));
    assert!(!is_taken(&names, "main-tm"));
    assert!(!is_taken(&vec![], ""));
    assert_eq!(copy_texts(&names), names);
}

#[test]
fn characters_are_counted_among_a_set() {
    assert_eq!(count_among("", "ab"), 0);
    assert_eq!(count_among("abcabc", ""), 0);
    assert_eq!(count_among("abcabc", "ab"), 4);
    assert_eq!(count_among("- a: [b, {c: d}]", "-?:[{"), 5);
    assert_eq!(count_among("a*b**", "*"), 3);
    assert!(is_among('b', &vec!['a', 'b']));
    assert!(!is_among('c', &vec!['a', 'b']));
    assert!(!is_among('c', &vec![]));
}

