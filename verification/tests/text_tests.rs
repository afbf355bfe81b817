use theca::text::{
    chars_of, decimal_of, find, find_char, has_at, has_prefix, has_suffix, number_between,
    same_text, string_between, string_of,
};

fn chars(s: &str) -> Vec<char> {
    s.chars().collect()
}

#[test]
fn chars_and_strings_convert_both_ways() {
    assert_eq!(chars_of("héllo"), vec!['h', 'é', 'l', 'l', 'o']);
    assert_eq!(chars_of(""), Vec::<char>::new());
    assert_eq!(string_of(&chars("héllo ♥")), "héllo ♥");
    assert_eq!(string_of(&Vec::new()), "");
    assert_eq!(string_between(&chars("abcdef"), 2, 4), "cd");
    assert_eq!(string_between(&chars("abcdef"), 3, 3), "");
}

#[test]
fn same_text_compares_characters() {
    assert!(same_text("default", "default"));
    assert!(!same_text("default", "Default"));
    assert!(!same_text("a", "ab"));
    assert!(same_text("", ""));
}

#[test]
fn prefix_suffix_and_position() {
    let v = chars("---\nid: 1\n---\nbody");
    assert!(has_prefix(&v, &chars("---\n")));
    assert!(!has_prefix(&v, &chars("--- ")));
    assert!(has_suffix(&v, &chars("body")));
    assert!(!has_suffix(&v, &chars("bod")));
    assert!(has_at(&v, &chars("id"), 4));
    assert!(!has_at(&v, &chars("id"), 5));
    assert!(!has_at(&v, &chars("body!"), 14));
    assert!(!has_suffix(&chars("md"), &chars(".md")));
}

#[test]
fn find_gives_first_position_from_start() {
    let v = chars("---\nid: 1\n---\nbody");
    let marker = chars("---\n");
    assert_eq!(find(&v, &marker, 0), Some(0));
    assert_eq!(find(&v, &marker, 1), Some(10));
    assert_eq!(find(&v, &marker, 4), Some(10));
    assert_eq!(find(&v, &marker, 11), None);
    assert_eq!(find(&v, &chars("zzz"), 0), None);
    assert_eq!(find(&chars("ab"), &chars("abc"), 0), None);
    assert_eq!(find(&v, &chars(""), 3), Some(3));
}

#[test]
fn find_char_gives_position_or_length() {
    let v = chars("ab\ncd");
    assert_eq!(find_char(&v, '\n', 0), 2);
    assert_eq!(find_char(&v, '\n', 2), 2);
    assert_eq!(find_char(&v, '\n', 3), 5);
    assert_eq!(find_char(&v, 'a', 0), 0);
}

#[test]
fn decimal_writes_base_ten() {
    assert_eq!(string_of(&decimal_of(0)), "0");
    assert_eq!(string_of(&decimal_of(7)), "7");
    assert_eq!(string_of(&decimal_of(10)), "10");
    assert_eq!(string_of(&decimal_of(1234567890)), "1234567890");
    assert_eq!(string_of(&decimal_of(usize::MAX)), usize::MAX.to_string());
}

#[test]
fn numbers_are_read_as_std_reads_them() {
    let cases = [
        "0", "7", "007", "+12", "12", "", "+", "-1", "1a", " 1", "1 ", "١", "18446744073709551615",
        "18446744073709551616", "99999999999999999999999", "++1", "1+",
    ];
    for case in cases {
        let v = chars(case);
        assert_eq!(number_between(&v, 0, v.len()), case.parse::<usize>().ok(), "{:?}", case);
    }
    let v = chars("id: 42\n");
    assert_eq!(number_between(&v, 4, 6), Some(42));
    assert_eq!(number_between(&v, 4, 7), None);
}
