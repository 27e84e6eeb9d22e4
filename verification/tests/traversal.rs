use linegrep::ignore::load_ignore;
use linegrep::options::{build_plan, parse_args};
use linegrep::pattern::Pattern;
use linegrep::report::search_content;
use linegrep::traverse::{DirEntry, Traversal};

fn entry(path: &str, ignore: Option<Pattern>) -> DirEntry {
    DirEntry { path: path.to_owned(), ignore }
}

fn literal_plan(text: &str) -> linegrep::options::SearchPlan {
    let args: Vec<String> = ["prog", "-t", text].iter().map(|s| s.to_owned().to_owned()).collect();
    build_plan(&parse_args(&args)).unwrap()
}

#[test]
fn children_are_visited_before_siblings() {
    let mut t = Traversal::new(entry("root", None));
    assert_eq!(t.next_entry(), Some("root".to_owned()));
    t.push_children(vec![entry("root/a", None), entry("root/b", None)]);
    assert_eq!(t.next_entry(), Some("root/b".to_owned()));
    t.push_children(vec![entry("root/b/c", None)]);
    assert_eq!(t.next_entry(), Some("root/b/c".to_owned()));
    assert_eq!(t.next_entry(), Some("root/a".to_owned()));
    assert_eq!(t.next_entry(), None);
}

#[test]
fn every_queued_path_is_delivered_exactly_once() {
    let mut t = Traversal::new(entry("r", None));
    assert_eq!(t.next_entry(), Some("r".to_owned()));
    t.push_children(vec![entry("r/x", None), entry("r/y", None), entry("r/z", None)]);
    let mut seen: Vec<String> = Vec::new();
    while let Some(p) = t.next_entry() {
        seen.push(p);
    }
    let mut sorted = seen.clone();
    sorted.sort();
    sorted.dedup();
    assert_eq!(seen.len(), 3);
    assert_eq!(sorted, vec!["r/x".to_owned(), "r/y".to_owned(), "r/z".to_owned()]);
}

#[test]
fn ignore_scope_blocks_subtree_but_not_sibling() {
    let plan = literal_plan("needle");
    let root_rule = load_ignore("build\n").unwrap();
    assert!(root_rule.is_some());
    let mut t = Traversal::new(entry("root", root_rule));

    let p = t.next_entry().unwrap();
    assert_eq!(p, "root");
    assert!(t.admits(&plan.exclude, &p));
    t.push_children(vec![entry("root/build", None), entry("root/src", None)]);

    let p = t.next_entry().unwrap();
    assert_eq!(p, "root/src");
    assert!(t.admits(&plan.exclude, &p));
    t.push_children(vec![entry("root/src/main.txt", None)]);

    let p = t.next_entry().unwrap();
    assert_eq!(p, "root/src/main.txt");
    assert!(t.admits(&plan.exclude, &p));
    let records = search_content(&plan.query, "hay\nneedle here", &p);
    assert_eq!(records.len(), 1);
    assert_eq!(records[0].line, 2);
    assert_eq!(records[0].path, "root/src/main.txt");

    let p = t.next_entry().unwrap();
    assert_eq!(p, "root/build");
    assert!(!t.admits(&plan.exclude, &p));

    assert_eq!(t.next_entry(), None);
}

#[test]
fn global_exclude_blocks_regardless_of_scope() {
    let args: Vec<String> = ["prog", "-t", "x", "-e", "secret"]
        .iter()
        .map(|s| s.to_owned().to_owned())
        .collect();
    let plan = build_plan(&parse_args(&args)).unwrap();

    let mut t = Traversal::new(entry("root", None));
    let p = t.next_entry().unwrap();
    assert!(t.admits(&plan.exclude, &p));
    t.push_children(vec![entry("root/secret/notes", None), entry("root/open", None)]);
    let p = t.next_entry().unwrap();
    assert_eq!(p, "root/open");
    assert!(t.admits(&plan.exclude, &p));
    let p = t.next_entry().unwrap();
    assert_eq!(p, "root/secret/notes");
    assert!(!t.admits(&plan.exclude, &p));
}

#[test]
fn entry_inside_scope_does_not_replace_it() {
    // The root carries a rule for `alpha`; a subdirectory inside the root's
    // scope carries its own rule for `beta`, but the root's scope stays.
    let root_rule = load_ignore("alpha\n").unwrap();
    let sub_rule = load_ignore("beta\n").unwrap();
    let mut t = Traversal::new(entry("root", root_rule));
    let p = t.next_entry().unwrap();
    assert_eq!(p, "root");
    t.push_children(vec![entry("root/sub", sub_rule)]);
    let p = t.next_entry().unwrap();
    assert_eq!(p, "root/sub");
    t.push_children(vec![entry("root/sub/alpha.txt", None), entry("root/sub/beta.txt", None)]);
    let beta = t.next_entry().unwrap();
    assert_eq!(beta, "root/sub/beta.txt");
    assert!(t.admits(&None, &beta));
    let alpha = t.next_entry().unwrap();
    assert_eq!(alpha, "root/sub/alpha.txt");
    assert!(!t.admits(&None, &alpha));
}

#[test]
fn sibling_directory_with_own_rule_replaces_scope() {
    // `root/x` and `root/y` are siblings: `root/y` is not inside `root/x`,
    // so its own rule takes over when it is dequeued.
    let x_rule = load_ignore("xonly\n").unwrap();
    let y_rule = load_ignore("yonly\n").unwrap();
    let mut t = Traversal::new(entry("root", None));
    let p = t.next_entry().unwrap();
    assert_eq!(p, "root");
    t.push_children(vec![entry("root/y", y_rule), entry("root/x", x_rule)]);
    let p = t.next_entry().unwrap();
    assert_eq!(p, "root/x");
    assert!(!t.admits(&None, "root/x/xonly.txt"));
    assert!(t.admits(&None, "root/x/yonly.txt"));
    let p = t.next_entry().unwrap();
    assert_eq!(p, "root/y");
    assert!(!t.admits(&None, "root/y/yonly.txt"));
    assert!(t.admits(&None, "root/y/xonly.txt"));
}

#[test]
fn prefix_without_separator_is_not_containment() {
    // `root/build` and `root/buildx` are siblings; the latter is not inside
    // the former, so its own rule replaces the scope.
    let a_rule = load_ignore("aaa\n").unwrap();
    let b_rule = load_ignore("bbb\n").unwrap();
    let mut t = Traversal::new(entry("root", None));
    assert_eq!(t.next_entry(), Some("root".to_owned()));
    t.push_children(vec![entry("root/buildx", b_rule), entry("root/build", a_rule)]);
    assert_eq!(t.next_entry(), Some("root/build".to_owned()));
    assert!(!t.admits(&None, "has aaa"));
    assert_eq!(t.next_entry(), Some("root/buildx".to_owned()));
    assert!(t.admits(&None, "has aaa"));
    assert!(!t.admits(&None, "has bbb"));
}
