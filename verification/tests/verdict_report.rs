use watcher_knight::filter::filter_relevant;
use watcher_knight::marker::parse_markers;
use watcher_knight::prompt::{build_prompt, build_watcher_prompt};
use watcher_knight::report::{exit_code, report_of};
use watcher_knight::text::usize_to_string;
use watcher_knight::verdict::{
    extract_json, parse_response, verdict_of_invocation, InvocationOutcome, WatcherResult,
};

const NO_ROOT: &str = "/watcher_knight_no_such_root";

#[test]
fn extract_json_finds_first_balanced_object() {
    let text = "noise before {\"a\": {\"b\": 1}} trailing {\"c\": 2}";
    assert_eq!(extract_json(text), Some("{\"a\": {\"b\": 1}}"));
    assert_eq!(extract_json("no braces here"), None);
    assert_eq!(extract_json("open { never closes"), None);
}

#[test]
fn valid_response_yields_valid_verdict() {
    let r = parse_response("foo", "src/main.c:1", "{\"is_valid\": true}");
    assert!(r.is_valid);
    assert_eq!(r.name, "foo");
    assert_eq!(r.location, "src/main.c:1");
    assert!(r.reason.is_none());
}

#[test]
fn invalid_response_carries_reason() {
    let r = parse_response("foo", "l", "{\"is_valid\": false, \"reason\": \"bar\"}");
    assert!(!r.is_valid);
    assert_eq!(r.reason.as_deref(), Some("bar"));
}

#[test]
fn invalid_without_reason_gets_placeholder() {
    let r = parse_response("foo", "l", "{\"is_valid\": false}");
    assert!(!r.is_valid);
    assert_eq!(r.reason.as_deref(), Some("marked invalid with no reason"));
}

#[test]
fn missing_is_valid_defaults_to_invalid() {
    let r = parse_response("foo", "l", "{\"reason\": \"why\"}");
    assert!(!r.is_valid);
    assert_eq!(r.reason.as_deref(), Some("why"));
}

#[test]
fn unparsable_response_quotes_raw_output() {
    let r = parse_response("foo", "l", "total garbage");
    assert!(!r.is_valid);
    assert_eq!(r.reason.as_deref(), Some("malformed response: total garbage"));
}

#[test]
fn object_is_extracted_from_surrounding_prose() {
    let r = parse_response("foo", "l", "Sure! Here it is: {\"is_valid\": true} hope that helps");
    assert!(r.is_valid);
}

#[test]
fn launch_failure_is_a_failing_verdict() {
    let o = InvocationOutcome::LaunchFailed("no such binary".to_string());
    let r = verdict_of_invocation("foo", "l", &o);
    assert!(!r.is_valid);
    assert_eq!(r.reason.as_deref(), Some("failed to invoke the judge: no such binary"));
}

#[test]
fn nonzero_exit_is_a_failing_verdict() {
    let o = InvocationOutcome::Exited {
        success: false,
        status: "exit status: 2".to_string(),
        output: "{\"is_valid\": true}".to_string(),
    };
    let r = verdict_of_invocation("foo", "l", &o);
    assert!(!r.is_valid);
    assert_eq!(r.reason.as_deref(), Some("judge process exited with exit status: 2"));
}

#[test]
fn successful_exit_is_judged_by_trimmed_output() {
    let o = InvocationOutcome::Exited {
        success: true,
        status: "exit status: 0".to_string(),
        output: "  {\"is_valid\": true}\n".to_string(),
    };
    let r = verdict_of_invocation("foo", "l", &o);
    assert!(r.is_valid);
}

fn verdict(name: &str, ok: bool) -> WatcherResult {
    WatcherResult {
        name: name.to_string(),
        location: format!("{name}.rs:1"),
        is_valid: ok,
        reason: if ok { None } else { Some(format!("{name} broke")) },
    }
}

#[test]
fn report_counts_partition_the_verdicts() {
    let results = vec![
        verdict("a", true),
        verdict("b", false),
        verdict("c", true),
        verdict("d", false),
        verdict("e", true),
    ];
    let rep = report_of(&results);
    assert_eq!(rep.passed, 3);
    assert_eq!(rep.failed, 2);
    assert_eq!(exit_code(&rep), 1);
    assert!(rep.text.contains("3 passed; 2 failed"));
    assert!(rep.text.contains("---- RESULTS ----"));
    assert!(rep.text.contains("---- FAILURES ----"));
    assert!(rep.text.contains("b broke"));
    assert!(rep.text.contains("d broke"));
}

#[test]
fn all_valid_report_passes() {
    let results = vec![verdict("a", true), verdict("b", true)];
    let rep = report_of(&results);
    assert_eq!(rep.passed, 2);
    assert_eq!(rep.failed, 0);
    assert_eq!(exit_code(&rep), 0);
    assert!(rep.text.contains("2 passed; 0 failed"));
    assert!(!rep.text.contains("---- FAILURES ----"));
}

#[test]
fn empty_report_passes() {
    let results: Vec<WatcherResult> = Vec::new();
    let rep = report_of(&results);
    assert_eq!(rep.passed, 0);
    assert_eq!(rep.failed, 0);
    assert_eq!(exit_code(&rep), 0);
    assert!(rep.text.contains("0 passed; 0 failed"));
}

#[test]
fn run_level_counts_over_outcomes() {
    let outcomes = vec![
        InvocationOutcome::LaunchFailed("no judge".to_string()),
        InvocationOutcome::Exited {
            success: false,
            status: "exit status: 3".to_string(),
            output: "{\"is_valid\": true}".to_string(),
        },
        InvocationOutcome::Exited {
            success: true,
            status: "exit status: 0".to_string(),
            output: "no object here".to_string(),
        },
        InvocationOutcome::Exited {
            success: true,
            status: "exit status: 0".to_string(),
            output: "{\"is_valid\": true}".to_string(),
        },
    ];
    let mut results = Vec::new();
    for (idx, o) in outcomes.iter().enumerate() {
        let name = format!("w{idx}");
        results.push(verdict_of_invocation(&name, "f.rs:1", o));
    }
    let rep = report_of(&results);
    assert_eq!(rep.passed, 1);
    assert_eq!(rep.failed, 3);
    assert_eq!(exit_code(&rep), 1);
    assert!(rep.text.contains("1 passed; 3 failed"));
    assert!(rep.text.contains("failed to invoke the judge: no judge"));
    assert!(rep.text.contains("judge process exited with exit status: 3"));
    assert!(rep.text.contains("malformed response: no object here"));
}

#[test]
fn decimal_rendering() {
    assert_eq!(usize_to_string(0), "0");
    assert_eq!(usize_to_string(7), "7");
    assert_eq!(usize_to_string(10), "10");
    assert_eq!(usize_to_string(1234), "1234");
}

#[test]
fn watcher_prompt_carries_annotation_and_diff() {
    let ms = parse_markers("// <wk: foo this must hold />", "src/main.c", NO_ROOT);
    let p = build_watcher_prompt(&ms[0], "diff body");
    assert!(p.contains("Invariant name: foo\nFile: src/main.c (line 1)\nInstruction: this must hold"));
    assert!(p.contains("```diff\ndiff body\n```\n"));
    let p2 = build_watcher_prompt(&ms[0], "ends with newline\n");
    assert!(p2.contains("```diff\nends with newline\n```\n"));
}

#[test]
fn combined_prompt_numbers_invariants() {
    let text = "// <wk: one a />\n// <wk: two b />\n";
    let ms = parse_markers(text, "src/main.c", NO_ROOT);
    let p = build_prompt(&ms, "the diff");
    assert!(p.contains("Invariant 1\nFile: src/main.c (line 1)\nInstruction: a\n"));
    assert!(p.contains("Invariant 2\nFile: src/main.c (line 2)\nInstruction: b\n"));
    assert!(p.ends_with("---\n"));
}

#[test]
fn end_to_end_valid_run() {
    let ms = parse_markers("// <wk: foo this must hold />", "src/main.c", NO_ROOT);
    let changed: Vec<String> = vec!["src/main.c".to_string()];
    let kept = filter_relevant(ms, &changed);
    assert_eq!(kept.len(), 1);
    let m = &kept[0];
    let location = format!("{}:{}", m.rel_path, m.line);
    let outcome = InvocationOutcome::Exited {
        success: true,
        status: "exit status: 0".to_string(),
        output: "{\"is_valid\": true}".to_string(),
    };
    let v = verdict_of_invocation(&m.name, &location, &outcome);
    let rep = report_of(&vec![v]);
    assert!(rep.text.contains("watcher foo... "));
    assert!(rep.text.contains("1 passed; 0 failed"));
    assert_eq!(exit_code(&rep), 0);
}

#[test]
fn end_to_end_invalid_run() {
    let ms = parse_markers("// <wk: foo this must hold />", "src/main.c", NO_ROOT);
    let changed: Vec<String> = vec!["src/main.c".to_string()];
    let kept = filter_relevant(ms, &changed);
    let m = &kept[0];
    let location = format!("{}:{}", m.rel_path, m.line);
    let outcome = InvocationOutcome::Exited {
        success: true,
        status: "exit status: 0".to_string(),
        output: "{\"is_valid\": false, \"reason\": \"bar\"}".to_string(),
    };
    let v = verdict_of_invocation(&m.name, &location, &outcome);
    let rep = report_of(&vec![v]);
    assert!(rep.text.contains("foo (src/main.c:1)"));
    assert!(rep.text.contains("bar"));
    assert_eq!(rep.failed, 1);
    assert_eq!(exit_code(&rep), 1);
}
