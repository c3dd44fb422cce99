use watcher_knight::marker::{parse_marker_patterns, parse_markers};

const NO_ROOT: &str = "/watcher_knight_no_such_root";

#[test]
fn single_line_tag_yields_one_annotation() {
    let text = "// <wk: foo this must hold />";
    let ms = parse_markers(text, "src/main.c", NO_ROOT);
    assert_eq!(ms.len(), 1);
    assert_eq!(ms[0].name, "foo");
    assert_eq!(ms[0].instruction, "this must hold");
    assert_eq!(ms[0].line, 1);
    assert_eq!(ms[0].rel_path, "src/main.c");
    assert!(ms[0].files.is_empty());
}

#[test]
fn single_line_long_tag_and_hash_prefix() {
    let text = "  # <watcher-knight: checker keep the table sorted />";
    let ms = parse_markers(text, "tools/gen.py", NO_ROOT);
    assert_eq!(ms.len(), 1);
    assert_eq!(ms[0].name, "checker");
    assert_eq!(ms[0].instruction, "keep the table sorted");
    assert!(ms[0].files.is_empty());
}

#[test]
fn name_taken_from_first_word_without_colon() {
    let text = "-- <wk keep this invariant />";
    let ms = parse_markers(text, "db/schema.sql", NO_ROOT);
    assert_eq!(ms.len(), 1);
    assert_eq!(ms[0].name, "keep");
    assert_eq!(ms[0].instruction, "this invariant");
}

#[test]
fn bare_tag_yields_empty_name_and_instruction() {
    let text = "// <wk />";
    let ms = parse_markers(text, "a.rs", NO_ROOT);
    assert_eq!(ms.len(), 1);
    assert_eq!(ms[0].name, "");
    assert_eq!(ms[0].instruction, "");
}

#[test]
fn multi_line_tag_joins_body_lines() {
    let text = "\
fn before() {}
// <wk: rule
// body line one
//
// body two />
fn after() {}
";
    let ms = parse_markers(text, "src/lib.rs", NO_ROOT);
    assert_eq!(ms.len(), 1);
    assert_eq!(ms[0].name, "rule");
    assert_eq!(ms[0].line, 2);
    assert_eq!(ms[0].instruction, "body line one\nbody two");
    assert!(ms[0].files.is_empty());
}

#[test]
fn multi_line_chain_broken_by_other_marker_yields_nothing() {
    let text = "// <wk: broken\n# not the same marker />\n";
    let ms = parse_markers(text, "a.rs", NO_ROOT);
    assert!(ms.is_empty());
}

#[test]
fn unterminated_multi_line_yields_nothing() {
    let text = "// <wk: dangling\n// still going\nplain code line\n";
    let ms = parse_markers(text, "a.rs", NO_ROOT);
    assert!(ms.is_empty());
}

#[test]
fn scanning_resumes_after_broken_chain() {
    let text = "// <wk: broken\n# <wk: other found it />\n";
    let ms = parse_markers(text, "a.rs", NO_ROOT);
    assert_eq!(ms.len(), 1);
    assert_eq!(ms[0].name, "other");
    assert_eq!(ms[0].instruction, "found it");
    assert_eq!(ms[0].line, 2);
}

#[test]
fn two_annotations_in_one_file() {
    let text = "\
# <wk: first one thing />
code
% <wk: second
% another thing />
";
    let ms = parse_markers(text, "x.m", NO_ROOT);
    assert_eq!(ms.len(), 2);
    assert_eq!(ms[0].name, "first");
    assert_eq!(ms[0].line, 1);
    assert_eq!(ms[1].name, "second");
    assert_eq!(ms[1].line, 3);
    assert_eq!(ms[1].instruction, "another thing");
}

#[test]
fn inline_scope_on_single_line() {
    let text = "// <wk: scoped [./a.ts, b.py] watch these />";
    let ms = parse_markers(text, "src/x.rs", NO_ROOT);
    assert_eq!(ms.len(), 1);
    assert_eq!(ms[0].name, "scoped");
    assert_eq!(ms[0].instruction, "watch these");
    assert_eq!(ms[0].files, vec!["src/a.ts".to_string(), "src/b.py".to_string()]);
}

#[test]
fn files_line_in_multi_line_body() {
    let text = "\
// <wk: scoped
// files = { ./sub/a.rs, ../top.rs }
// the instruction body />
";
    let ms = parse_markers(text, "src/x.rs", NO_ROOT);
    assert_eq!(ms.len(), 1);
    assert_eq!(ms[0].instruction, "the instruction body");
    assert_eq!(ms[0].files, vec!["src/sub/a.rs".to_string(), "top.rs".to_string()]);
}

#[test]
fn inline_scope_kept_on_multi_line_opener() {
    let text = "// <wk: scoped [./a.rs]\n// body />\n";
    let ms = parse_markers(text, "src/x.rs", NO_ROOT);
    assert_eq!(ms.len(), 1);
    assert_eq!(ms[0].files, vec!["src/a.rs".to_string()]);
    assert_eq!(ms[0].instruction, "body");
}

#[test]
fn inline_and_body_scopes_combine_on_multi_line() {
    let text = "// <wk: scoped [./a.rs]\n// files = { ./b.rs }\n// body />\n";
    let ms = parse_markers(text, "src/x.rs", NO_ROOT);
    assert_eq!(ms.len(), 1);
    assert_eq!(ms[0].files, vec!["src/a.rs".to_string(), "src/b.rs".to_string()]);
    assert_eq!(ms[0].instruction, "body");
}

#[test]
fn file_without_comment_markers_yields_nothing() {
    let text = "just some text\nwith no comments\n";
    assert!(parse_markers(text, "notes.txt", NO_ROOT).is_empty());
}

#[test]
fn parsing_twice_is_identical() {
    let text = "\
// <wk: a one />
-- <wk: b
-- two
-- files = { ./x.c }
-- three />
";
    let first = parse_marker_patterns(text, "src/y.rs");
    let second = parse_marker_patterns(text, "src/y.rs");
    assert_eq!(first.len(), second.len());
    for (p, q) in first.iter().zip(second.iter()) {
        assert_eq!(p.name, q.name);
        assert_eq!(p.line, q.line);
        assert_eq!(p.instruction, q.instruction);
        assert_eq!(p.entries, q.entries);
    }
    assert_eq!(first.len(), 2);
    assert_eq!(first[1].entries, vec!["src/x.c".to_string()]);
}

#[test]
fn text_before_mid_line_close_is_kept() {
    let text = "// <wk: partial\n// tail /> extra\n// next body line\n";
    let ms = parse_markers(text, "a.rs", NO_ROOT);
    assert_eq!(ms.len(), 1);
    // Scanning stops at the first line containing the close marker; the
    // text before it is the final body line, what follows it is dropped.
    assert_eq!(ms[0].instruction, "tail");
}

#[test]
fn unterminated_at_end_of_file_yields_nothing() {
    let ms = parse_markers("// <wk: x\n// still open", "a.rs", NO_ROOT);
    assert!(ms.is_empty());
}

#[test]
fn files_line_spacing_variants() {
    let text = "// <wk: s\n// files={./a.rs}\n// files   =   { ./b.rs }\n// body />\n";
    let ms = parse_markers(text, "m.rs", NO_ROOT);
    assert_eq!(ms.len(), 1);
    assert_eq!(ms[0].files, vec!["a.rs".to_string(), "b.rs".to_string()]);
    assert_eq!(ms[0].instruction, "body");
}

#[test]
fn empty_files_braces_yield_empty_scope() {
    let text = "// <wk: s\n// files = {}\n// body />\n";
    let ms = parse_markers(text, "m.rs", NO_ROOT);
    assert_eq!(ms.len(), 1);
    assert!(ms[0].files.is_empty());
    assert_eq!(ms[0].instruction, "body");
}

#[test]
fn unicode_whitespace_before_marker_is_stripped() {
    let text = "\u{a0}\u{2003}// <wk: u spaced out />";
    let ms = parse_markers(text, "a.rs", NO_ROOT);
    assert_eq!(ms.len(), 1);
    assert_eq!(ms[0].name, "u");
    assert_eq!(ms[0].instruction, "spaced out");
}

#[test]
fn unicode_indented_continuation_is_accepted() {
    let text = "// <wk: u\n\u{a0}// body here />\n";
    let ms = parse_markers(text, "a.rs", NO_ROOT);
    assert_eq!(ms.len(), 1);
    assert_eq!(ms[0].instruction, "body here");
}

#[test]
fn unicode_whitespace_ends_the_name() {
    let text = "// <wk: nm\u{a0}tail done />";
    let ms = parse_markers(text, "a.rs", NO_ROOT);
    assert_eq!(ms.len(), 1);
    assert_eq!(ms[0].name, "nm");
    assert_eq!(ms[0].instruction, "tail done");
}

#[test]
fn crlf_lines_are_handled() {
    let text = "// <wk: win carriage returns />\r\ncode\r\n";
    let ms = parse_markers(text, "w.rs", NO_ROOT);
    assert_eq!(ms.len(), 1);
    assert_eq!(ms[0].name, "win");
    assert_eq!(ms[0].instruction, "carriage returns");
}
