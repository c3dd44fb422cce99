use watcher_knight::filter::filter_relevant;
use watcher_knight::marker::parse_markers;
use watcher_knight::scope::{
    join_path, normalize_path, parent_dir, resolve_file_entries, resolve_scope_entry,
    select_resolved, strip_root,
};

const NO_ROOT: &str = "/watcher_knight_no_such_root";

#[test]
fn normalize_resolves_dot_and_dotdot() {
    assert_eq!(normalize_path("a/./b/../c"), "a/c");
    assert_eq!(normalize_path("./x.rs"), "x.rs");
    assert_eq!(normalize_path("a/b/../../d"), "d");
    assert_eq!(normalize_path("../up.rs"), "up.rs");
    assert_eq!(normalize_path("a//b/"), "a/b");
    assert_eq!(normalize_path("/a/../.."), "");
}

#[test]
fn join_path_inserts_one_slash() {
    assert_eq!(join_path("src", "a.rs"), "src/a.rs");
    assert_eq!(join_path("", "a.rs"), "a.rs");
    assert_eq!(join_path("root/", "a.rs"), "root/a.rs");
    assert_eq!(join_path("root", "/abs.rs"), "/abs.rs");
}

#[test]
fn parent_dir_drops_last_component() {
    assert_eq!(parent_dir("src/sub/f.rs"), "src/sub");
    assert_eq!(parent_dir("f.rs"), "");
    assert_eq!(parent_dir("/f.rs"), "/");
}

#[test]
fn strip_root_requires_component_boundary() {
    assert_eq!(strip_root("/r/x/y.rs", "/r"), Some("x/y.rs"));
    assert_eq!(strip_root("/r/x/y.rs", "/r/"), Some("x/y.rs"));
    assert_eq!(strip_root("/rext/y.rs", "/r"), None);
    assert_eq!(strip_root("/other/y.rs", "/r"), None);
}

#[test]
fn unmatched_entry_keeps_literal_pattern() {
    let r = resolve_scope_entry("no/such/file_xyz.rs", NO_ROOT);
    assert_eq!(r, vec!["no/such/file_xyz.rs".to_string()]);
}

#[test]
fn select_falls_back_when_nothing_matched() {
    let none: Option<Vec<String>> = None;
    assert_eq!(select_resolved("p/q.rs", "/r", &none), vec!["p/q.rs".to_string()]);
    let empty: Option<Vec<String>> = Some(Vec::new());
    assert_eq!(select_resolved("p/q.rs", "/r", &empty), vec!["p/q.rs".to_string()]);
}

#[test]
fn select_keeps_matches_under_root() {
    let m = Some(vec!["/r/a.rs".to_string(), "/elsewhere/b.rs".to_string(), "/r/c/d.rs".to_string()]);
    assert_eq!(select_resolved("pat", "/r", &m), vec!["a.rs".to_string(), "c/d.rs".to_string()]);
}

#[test]
fn resolve_entries_splits_and_skips_empty() {
    let r = resolve_file_entries(" ./a.rs ,, b/c.rs ", "src", NO_ROOT);
    assert_eq!(r, vec!["src/a.rs".to_string(), "src/b/c.rs".to_string()]);
    let none = resolve_file_entries(" , ", "src", NO_ROOT);
    assert!(none.is_empty());
}

#[test]
fn empty_scope_is_always_relevant() {
    let ms = parse_markers("// <wk: a always />", "m.rs", NO_ROOT);
    let changed: Vec<String> = vec!["whatever.rs".to_string()];
    let kept = filter_relevant(ms, &changed);
    assert_eq!(kept.len(), 1);
    let ms2 = parse_markers("// <wk: a always />", "m.rs", NO_ROOT);
    let nothing: Vec<String> = Vec::new();
    let kept2 = filter_relevant(ms2, &nothing);
    assert_eq!(kept2.len(), 1);
}

#[test]
fn scoped_annotation_kept_only_on_intersection() {
    let text = "// <wk: s [./a.rs] scoped />";
    let ms = parse_markers(text, "src/m.rs", NO_ROOT);
    assert_eq!(ms[0].files, vec!["src/a.rs".to_string()]);
    let hit: Vec<String> = vec!["src/a.rs".to_string()];
    assert_eq!(filter_relevant(ms, &hit).len(), 1);
    let ms2 = parse_markers(text, "src/m.rs", NO_ROOT);
    let miss: Vec<String> = vec!["src/b.rs".to_string()];
    assert_eq!(filter_relevant(ms2, &miss).len(), 0);
}

#[test]
fn filter_keeps_order() {
    let text = "// <wk: one x />\n// <wk: two [./a.rs] y />\n// <wk: three z />\n";
    let ms = parse_markers(text, "m.rs", NO_ROOT);
    let changed: Vec<String> = vec!["nope.rs".to_string()];
    let kept = filter_relevant(ms, &changed);
    assert_eq!(kept.len(), 2);
    assert_eq!(kept[0].name, "one");
    assert_eq!(kept[1].name, "three");
}
