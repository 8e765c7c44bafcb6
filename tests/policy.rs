use todo_tracker::ci::{check, format_check_result, CheckResult, Violation};
use todo_tracker::config::Config;
use todo_tracker::todo::{TodoItem, TodoMetadata, TodoTag};

fn item(tag: TodoTag, file: &str, line: u32, message: &str) -> TodoItem {
    TodoItem {
        id: "i".to_string(),
        tag,
        file: file.to_string(),
        line,
        column: 0,
        message: message.to_string(),
        metadata: TodoMetadata { author: None, date: None, tickets: Vec::new(), priority: None, blame: None },
    }
}

#[test]
fn passes_by_default() {
    let items = vec![item(TodoTag::Fixme, "a.rs", 3, "x")];
    let r = check(&items, &Config::default());
    assert!(r.passed);
    assert!(r.violations.is_empty());
    assert_eq!(format_check_result(&r), "All checks passed.");
}

#[test]
fn fixme_and_limit_violations() {
    let mut config = Config::default();
    config.ci.fail_on_fixme = true;
    config.ci.max_todos = 1;
    let items = vec![
        item(TodoTag::Todo, "a.rs", 1, "t"),
        item(TodoTag::Fixme, "b.rs", 12, "null deref"),
    ];
    let r = check(&items, &config);
    assert!(!r.passed);
    assert_eq!(r.violations.len(), 2);
    assert_eq!(r.violations[0].rule, "fail_on_fixme");
    assert_eq!(r.violations[0].message, "FIXME found: null deref");
    assert_eq!(r.violations[0].file.as_deref(), Some("b.rs"));
    assert_eq!(r.violations[0].line, Some(12));
    assert_eq!(r.violations[1].rule, "max_todos");
    assert_eq!(r.violations[1].message, "Total TODOs (2) exceeds limit (1)");
    assert_eq!(
        format_check_result(&r),
        " FAIL  b.rs:12\n       FIXME found: null deref\n\n FAIL  Total TODOs (2) exceeds limit (1)\n\n2 violation(s) found.\n"
    );
}

#[test]
fn limit_not_exceeded() {
    let mut config = Config::default();
    config.ci.max_todos = 2;
    let items = vec![item(TodoTag::Todo, "a.rs", 1, "t"), item(TodoTag::Todo, "a.rs", 2, "u")];
    assert!(check(&items, &config).passed);
}

#[test]
fn violation_rendering() {
    let v = Violation { rule: "r".into(), message: "msg".into(), file: None, line: Some(3) };
    assert_eq!(v.render(), " FAIL  msg");
    let w = Violation { rule: "r".into(), message: "msg".into(), file: Some("f".into()), line: Some(1234567) };
    assert_eq!(w.render(), " FAIL  f:1234567\n       msg");
    let r = CheckResult { passed: false, violations: vec![v] };
    assert_eq!(format_check_result(&r), " FAIL  msg\n\n1 violation(s) found.\n");
}
