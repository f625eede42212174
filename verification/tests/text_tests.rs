use agent_editor::keyed::KeyedList;
use agent_editor::num::{parse_u64, parse_unsigned_chars, parse_usize};
use agent_editor::text::{
    chars_of, find_char, find_pair, split_lines, split_vec, str_ends_with, str_eq,
    str_eq_ignore_ascii_case, str_starts_with, string_of, to_ascii_lower, trim_vec,
};

#[test]
fn keyed_list_reads_back_what_was_written() {
    let mut m: KeyedList<u32> = KeyedList::new();
    m.insert("a".to_string(), 1);
    m.insert("b".to_string(), 2);
    m.insert("a".to_string(), 3);
    assert_eq!(m.get("a"), Some(3));
    assert_eq!(m.get("b"), Some(2));
    assert!(m.contains("b"));
    assert_eq!(m.remove("b"), Some(2));
    assert_eq!(m.remove("b"), None);
    assert!(!m.contains("b"));
    assert_eq!(m.get("zz"), None);
}

#[test]
fn unsigned_parsing_follows_str_parse() {
    assert_eq!(parse_u64("42"), Some(42));
    assert_eq!(parse_u64("+7"), Some(7));
    assert_eq!(parse_u64("+"), None);
    assert_eq!(parse_u64(""), None);
    assert_eq!(parse_u64("-1"), None);
    assert_eq!(parse_u64("18446744073709551615"), Some(u64::MAX));
    assert_eq!(parse_u64("18446744073709551616"), None);
    assert_eq!(parse_usize("0012"), Some(12));
    assert_eq!(parse_unsigned_chars(&chars_of("300"), 255), None);
    assert_eq!(parse_unsigned_chars(&chars_of("255"), 255), Some(255));
}

#[test]
fn line_splitting_and_trimming() {
    let lines = split_lines(&chars_of("a\r\nb\n\nc\n"));
    let as_strings: Vec<String> = lines.iter().map(string_of).collect();
    assert_eq!(as_strings, vec!["a", "b", "", "c"]);
    assert_eq!(string_of(&trim_vec(&chars_of("  x y \t"))), "x y");
    let parts: Vec<String> = split_vec(&chars_of("a_b__c"), '_').iter().map(string_of).collect();
    assert_eq!(parts, vec!["a", "b", "", "c"]);
}

#[test]
fn searching_and_comparing() {
    let v = chars_of("ab[[cd]]");
    assert_eq!(find_char(&v, 'c', 0), Some(4));
    assert_eq!(find_char(&v, 'z', 0), None);
    assert_eq!(find_pair(&v, ']', ']', 0), Some(6));
    assert!(str_eq("abc", "abc") && !str_eq("abc", "abd"));
    assert!(str_starts_with("docs/a.md", "docs/") && str_ends_with("docs/a.md", ".md"));
    assert!(str_eq_ignore_ascii_case("HeLLo", "hello"));
    assert_eq!(to_ascii_lower('Q'), 'q');
}
