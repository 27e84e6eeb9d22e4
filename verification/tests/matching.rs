use linegrep::options::{build_plan, CliOptions};
use linegrep::pattern::Query;
use linegrep::report::search_content;
use linegrep::text::contains_str;
use linegrep::SearchError;

fn opts() -> CliOptions {
    CliOptions {
        literal: None,
        pattern: None,
        flags: None,
        path_short: None,
        path_long: None,
        exclude: None,
    }
}

fn literal_query(text: &str) -> Query {
    let mut o = opts();
    o.literal = Some(text.to_owned());
    build_plan(&o).unwrap().query
}

fn pattern_query(src: &str, flags: Option<&str>) -> Query {
    let mut o = opts();
    o.pattern = Some(src.to_owned());
    o.flags = flags.map(|f| f.to_owned());
    build_plan(&o).unwrap().query
}

#[test]
fn literal_substring_found() {
    let q = literal_query("hello");
    assert!(q.matches("say hello world"));
    assert!(q.matches("hello"));
    assert!(!q.matches("helo"));
}

#[test]
fn literal_is_case_sensitive() {
    let q = literal_query("hello");
    assert!(!q.matches("Hello there"));
    assert!(!q.matches("HELLO"));
}

#[test]
fn empty_literal_matches_everything() {
    let q = literal_query("");
    assert!(q.matches(""));
    assert!(q.matches("anything"));
}

#[test]
fn contains_str_direct() {
    assert!(contains_str("abcde", "cd"));
    assert!(contains_str("abcde", "abcde"));
    assert!(!contains_str("abcde", "ce"));
    assert!(!contains_str("ab", "abc"));
}

#[test]
fn pattern_query_matches() {
    let q = pattern_query("h.llo", None);
    assert!(q.matches("hallo"));
    assert!(q.matches("hxllo there"));
    assert!(!q.matches("hllo"));
}

#[test]
fn pattern_case_insensitive_flag() {
    let plain = pattern_query("hello", None);
    assert!(!plain.matches("HELLO"));
    let ci = pattern_query("hello", Some("i"));
    assert!(ci.matches("HELLO"));
    assert!(ci.matches("Hello"));
}

#[test]
fn pattern_flags_order_and_duplicates_do_not_matter() {
    for f in ["im", "mi", "iim", "ximx"] {
        let q = pattern_query("hello", Some(f));
        assert!(q.matches("HELLO"), "flags {:?}", f);
    }
}

#[test]
fn pattern_multi_line_flag_accepted() {
    let q = pattern_query("^b", Some("m"));
    assert!(q.matches("b"));
    assert!(!q.matches("ab"));
}

#[test]
fn invalid_pattern_is_fatal() {
    let mut o = opts();
    o.pattern = Some("(".to_owned());
    assert!(matches!(build_plan(&o), Err(SearchError::InvalidPattern)));
}

#[test]
fn pattern_wins_over_literal() {
    let mut o = opts();
    o.literal = Some("zzz".to_owned());
    o.pattern = Some("a+".to_owned());
    let plan = build_plan(&o).unwrap();
    assert!(plan.query.matches("aaa"));
    assert!(!plan.query.matches("zzz"));
}

#[test]
fn missing_query_aborts_before_anything() {
    let o = opts();
    assert!(matches!(build_plan(&o), Err(SearchError::MissingQuery)));
}

#[test]
fn spec_example_single_match() {
    let q = literal_query("hello");
    let records = search_content(&q, "hello\nworld", "a.txt");
    assert_eq!(records.len(), 1);
    assert_eq!(records[0].line, 1);
    assert_eq!(records[0].path, "a.txt");
}

#[test]
fn line_numbers_are_one_based_and_contiguous() {
    let q = literal_query("");
    let records = search_content(&q, "a\nb\nc", "f");
    let numbers: Vec<usize> = records.iter().map(|m| m.line).collect();
    assert_eq!(numbers, vec![1, 2, 3]);
}

#[test]
fn only_matching_lines_are_reported() {
    let q = literal_query("b");
    let records = search_content(&q, "abc\nxyz\nrab\nno", "f");
    let numbers: Vec<usize> = records.iter().map(|m| m.line).collect();
    assert_eq!(numbers, vec![1, 3]);
}

#[test]
fn trailing_newline_yields_trailing_empty_line() {
    let q = literal_query("");
    let records = search_content(&q, "a\n", "f");
    let numbers: Vec<usize> = records.iter().map(|m| m.line).collect();
    assert_eq!(numbers, vec![1, 2]);
}
