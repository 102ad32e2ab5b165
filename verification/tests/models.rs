use crates_publish_check::models::{CheckResult, CrateReport};

fn report() -> CrateReport {
    CrateReport::new("alpha".to_string(), "/fleet/alpha/Cargo.toml".to_string())
}

#[test]
fn new_report_has_no_checks_and_is_ready() {
    let r = report();
    assert_eq!(r.name, "alpha");
    assert_eq!(r.path, "/fleet/alpha/Cargo.toml");
    assert!(r.checks.is_empty());
    assert!(r.is_ready());
    assert!(r.failed_checks().is_empty());
}

#[test]
fn add_appends_in_order() {
    let mut r = report();
    r.add("has-name", true, None);
    r.add("has-license", false, Some("Missing [package] license".to_string()));
    assert_eq!(r.checks.len(), 2);
    assert_eq!(r.checks[0].check, "has-name");
    assert!(r.checks[0].passed);
    assert_eq!(r.checks[0].message, None);
    assert_eq!(r.checks[1].check, "has-license");
    assert!(!r.checks[1].passed);
    assert_eq!(r.checks[1].message.as_deref(), Some("Missing [package] license"));
}

#[test]
fn one_failed_check_makes_report_unready() {
    let mut r = report();
    r.add("a", true, None);
    assert!(r.is_ready());
    r.add("b", false, None);
    assert!(!r.is_ready());
    r.add("c", true, None);
    assert!(!r.is_ready());
}

#[test]
fn failed_checks_lists_only_failures_in_order() {
    let mut r = report();
    r.add("a", false, Some("first".to_string()));
    r.add("b", true, None);
    r.add("c", false, None);
    let failed: Vec<&CheckResult> = r.failed_checks();
    assert_eq!(failed.len(), 2);
    assert_eq!(failed[0].check, "a");
    assert_eq!(failed[0].message.as_deref(), Some("first"));
    assert_eq!(failed[1].check, "c");
}

#[test]
fn ready_exactly_when_no_failures() {
    let mut r = report();
    for (name, ok) in [("x", true), ("y", true)] {
        r.add(name, ok, None);
    }
    assert_eq!(r.is_ready(), r.failed_checks().is_empty());
    r.add("z", false, None);
    assert_eq!(r.is_ready(), r.failed_checks().is_empty());
}
