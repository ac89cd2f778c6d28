use logroll::text::{
    contains_text, decimal_string, lex_le_str, parse_u32, parse_u64, same_text, sort_texts,
    split_fields, to_chars,
};

fn strings(items: &[&str]) -> Vec<String> {
    items.iter().map(|s| s.to_string()).collect()
}

#[test]
fn to_chars_gives_the_characters() {
    assert_eq!(to_chars("a/b"), vec!['a', '/', 'b']);
    assert_eq!(to_chars(""), Vec::<char>::new());
    assert_eq!(to_chars("é1"), vec!['é', '1']);
}

#[test]
fn parse_u32_reads_digits() {
    assert_eq!(parse_u32("0"), Some(0));
    assert_eq!(parse_u32("7"), Some(7));
    assert_eq!(parse_u32("007"), Some(7));
    assert_eq!(parse_u32("+12"), Some(12));
    assert_eq!(parse_u32("4294967295"), Some(4294967295));
}

#[test]
fn parse_u32_rejects_what_is_no_number() {
    assert_eq!(parse_u32(""), None);
    assert_eq!(parse_u32("+"), None);
    assert_eq!(parse_u32("-1"), None);
    assert_eq!(parse_u32("1 "), None);
    assert_eq!(parse_u32("1_0"), None);
    assert_eq!(parse_u32("log"), None);
    assert_eq!(parse_u32("4294967296"), None);
    assert_eq!(parse_u32("99999999999999999999999999"), None);
}

#[test]
fn parse_agrees_with_std() {
    for s in ["0", "1", "+5", "++5", "12a", "000000000000000000000000001", "18446744073709551615",
        "18446744073709551616", "", " 1", "１２"]
    {
        assert_eq!(parse_u64(s), s.parse::<u64>().ok(), "{}", s);
        assert_eq!(parse_u32(s), s.parse::<u32>().ok(), "{}", s);
    }
}

#[test]
fn decimal_string_writes_numbers() {
    assert_eq!(decimal_string(0), "0");
    assert_eq!(decimal_string(9), "9");
    assert_eq!(decimal_string(10), "10");
    assert_eq!(decimal_string(4294967295), "4294967295");
    assert_eq!(decimal_string(u64::MAX), "18446744073709551615");
}

#[test]
fn decimal_string_reads_back() {
    for n in [0u64, 1, 9, 10, 99, 100, 12345, 4294967295] {
        assert_eq!(parse_u64(&decimal_string(n)), Some(n));
    }
}

#[test]
fn split_fields_cuts_at_each_separator() {
    assert_eq!(split_fields("size:1024:2:/tmp/a.log", ':'), strings(&["size", "1024", "2", "/tmp/a.log"]));
    assert_eq!(split_fields("", ':'), strings(&[""]));
    assert_eq!(split_fields("abc", ':'), strings(&["abc"]));
    assert_eq!(split_fields(":", ':'), strings(&["", ""]));
    assert_eq!(split_fields("a::b:", ':'), strings(&["a", "", "b", ""]));
}

#[test]
fn split_fields_agrees_with_std() {
    for s in ["", ":", "a", "a:b", ":a:", "time:7:D:U:5:/tmp.log", "::::"] {
        let expected: Vec<String> = s.split(':').map(|f| f.to_string()).collect();
        assert_eq!(split_fields(s, ':'), expected, "{}", s);
    }
}

#[test]
fn lex_le_is_the_order_of_strings() {
    let items = ["", "a", "ab", "b", "app.log.20240101", "app.log.20240102", "app.log.2024", "é"];
    for a in items {
        for b in items {
            assert_eq!(lex_le_str(a, b), a <= b, "{} {}", a, b);
        }
    }
}

#[test]
fn same_text_compares_whole_strings() {
    assert!(same_text("size", "size"));
    assert!(same_text("", ""));
    assert!(!same_text("size", "sizes"));
    assert!(!same_text("size", "time"));
}

#[test]
fn sort_texts_sorts_and_keeps_duplicates() {
    let list = strings(&["b", "a", "c", "a", ""]);
    assert_eq!(sort_texts(&list), strings(&["", "a", "a", "b", "c"]));
    assert_eq!(sort_texts(&Vec::new()), Vec::<String>::new());
    let mut expected = list.clone();
    expected.sort();
    assert_eq!(sort_texts(&list), expected);
}

#[test]
fn contains_text_finds_a_member() {
    let list = strings(&["app.log", "app.log.1"]);
    assert!(contains_text(&list, &"app.log.1".to_string()));
    assert!(!contains_text(&list, &"app.log.2".to_string()));
    assert!(!contains_text(&Vec::new(), &"app.log".to_string()));
}
