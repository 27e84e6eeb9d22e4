use linegrep::ignore::{is_ignore_file_name, load_ignore};
use linegrep::pattern::{Pattern, Query};

fn probe(p: Pattern) -> Query {
    Query::Pattern(p)
}

#[test]
fn ignore_file_name_is_gitignore() {
    assert!(is_ignore_file_name(".gitignore"));
    assert!(!is_ignore_file_name("gitignore"));
    assert!(!is_ignore_file_name(".gitignore.bak"));
}

#[test]
fn plain_entry_matches_paths_containing_it() {
    let rule = load_ignore("build\n").unwrap().unwrap();
    let q = probe(rule);
    assert!(q.matches("root/build"));
    assert!(q.matches("root/build/inner.txt"));
    assert!(!q.matches("root/src"));
}

#[test]
fn comments_and_blanks_yield_no_rule() {
    assert!(load_ignore("# a comment\n\n   \n# another\n").unwrap().is_none());
}

#[test]
fn empty_file_yields_no_rule() {
    assert!(load_ignore("").unwrap().is_none());
}

#[test]
fn wildcard_is_deleted_and_dot_escaped() {
    let rule = load_ignore("*.log\n").unwrap().unwrap();
    let q = probe(rule);
    assert!(q.matches("out/errors.log"));
    assert!(!q.matches("out/errorslog"));
}

#[test]
fn slash_is_deleted_from_entries() {
    let rule = load_ignore("target/\n").unwrap().unwrap();
    let q = probe(rule);
    assert!(q.matches("x/target"));
}

#[test]
fn entries_are_trimmed() {
    let rule = load_ignore("  build  \n").unwrap().unwrap();
    let q = probe(rule);
    assert!(q.matches("a/build/b"));
    assert!(!q.matches("a/b"));
}

#[test]
fn several_entries_are_or_joined() {
    let rule = load_ignore("build\ndist\n# note\n").unwrap().unwrap();
    let q = probe(rule);
    assert!(q.matches("a/build"));
    assert!(q.matches("a/dist"));
    assert!(!q.matches("a/src"));
}

#[test]
fn parenthesis_in_entry_is_escaped() {
    let rule = load_ignore("a(b\n").unwrap().unwrap();
    let q = probe(rule);
    assert!(q.matches("x/a(b/y"));
    assert!(!q.matches("x/ab/y"));
}

#[test]
fn comment_after_sanitizing_is_dropped() {
    // The slash is deleted before the comment test, so this line becomes `#x`.
    assert!(load_ignore("/#x\n").unwrap().is_none());
}
