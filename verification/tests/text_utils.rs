use linegrep::options::{build_plan, CliOptions};
use linegrep::report::search_content;
use linegrep::text::{char_in, split_at_char, str_eq, trim_str};

#[test]
fn split_keeps_empty_pieces() {
    let pieces = split_at_char("a\n\nb", '\n');
    assert_eq!(pieces, vec!["a".to_owned(), "".to_owned(), "b".to_owned()]);
}

#[test]
fn split_of_empty_text_is_one_empty_piece() {
    assert_eq!(split_at_char("", '\n'), vec!["".to_owned()]);
}

#[test]
fn trim_removes_edges_only() {
    assert_eq!(trim_str("  a b  "), "a b".to_owned());
    assert_eq!(trim_str("\t x\n"), "x".to_owned());
    assert_eq!(trim_str("   "), "".to_owned());
    assert_eq!(trim_str(""), "".to_owned());
}

#[test]
fn str_eq_compares_contents() {
    assert!(str_eq("abc", "abc"));
    assert!(!str_eq("abc", "abd"));
    assert!(!str_eq("abc", "ab"));
}

#[test]
fn char_in_scans_all_characters() {
    assert!(char_in("xyz", 'y'));
    assert!(!char_in("xyz", 'a'));
    assert!(!char_in("", 'a'));
}

#[test]
fn empty_content_is_one_empty_line() {
    let o = CliOptions {
        literal: Some("".to_owned()),
        pattern: None,
        flags: None,
        path_short: None,
        path_long: None,
        exclude: None,
    };
    let plan = build_plan(&o).unwrap();
    let records = search_content(&plan.query, "", "f");
    assert_eq!(records.len(), 1);
    assert_eq!(records[0].line, 1);
}
