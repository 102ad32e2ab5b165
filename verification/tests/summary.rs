use crates_publish_check::models::CrateReport;
use crates_publish_check::summary::{
    json_selection, partition_by_readiness, plan_report, publish_record, wants_dry_run, PublishRecord,
    PublishRun, ReportLine,
};

fn reports() -> Vec<CrateReport> {
    let mut a = CrateReport::new("a".to_string(), "/f/a/Cargo.toml".to_string());
    a.add("x", true, None);
    let mut b = CrateReport::new("b".to_string(), "/f/b/Cargo.toml".to_string());
    b.add("x", false, Some("broken".to_string()));
    b.add("y", true, None);
    b.add("z", false, None);
    let c = CrateReport::new("c".to_string(), "/f/c/Cargo.toml".to_string());
    vec![a, b, c]
}

fn describe(lines: &[ReportLine]) -> Vec<String> {
    lines
        .iter()
        .map(|l| match l {
            ReportLine::Title => "title".to_string(),
            ReportLine::Totals { total, ready, unready } => format!("totals {} {} {}", total, ready, unready),
            ReportLine::ReadyHeading => "ready:".to_string(),
            ReportLine::ReadyCrate { name } => format!("+{}", name),
            ReportLine::NotReadyHeading => "not ready:".to_string(),
            ReportLine::UnreadyCrate { name } => format!("-{}", name),
            ReportLine::FailedCheck { check, detail } => format!("  {}{}", check, detail),
            ReportLine::PublishHeading => "publish:".to_string(),
            ReportLine::PublishResult { name, success, first_line } => format!("{} {} {}", name, success, first_line),
            ReportLine::End => "end".to_string(),
        })
        .collect()
}

#[test]
fn partition_keeps_order() {
    let (ready, unready) = partition_by_readiness(&reports());
    assert_eq!(ready, vec![0, 2]);
    assert_eq!(unready, vec![1]);
    let (ready, unready) = partition_by_readiness(&Vec::new());
    assert!(ready.is_empty() && unready.is_empty());
}

#[test]
fn json_selection_with_and_without_ready_only() {
    let rs = reports();
    let all = json_selection(&rs, false);
    assert_eq!(all.ready, vec![0, 2]);
    assert_eq!(all.unready, vec![1]);
    assert_eq!(all.total, 3);
    assert_eq!(all.ready_count, 2);
    let only = json_selection(&rs, true);
    assert_eq!(only.ready, vec![0, 2]);
    assert!(only.unready.is_empty());
    assert_eq!(only.total, 3);
    assert_eq!(only.ready_count, 2);
}

#[test]
fn report_plan_lists_ready_then_unready() {
    let lines = plan_report(&reports(), &None, false);
    assert_eq!(
        describe(&lines),
        vec!["title", "totals 3 2 1", "ready:", "+a", "+c", "not ready:", "-b", "  x: broken", "  z", "end"]
    );
}

#[test]
fn report_plan_ready_only_with_publish() {
    let publish = Some(vec![
        PublishRecord { name: "a".to_string(), success: true, output: "Packaging a\nUploading".to_string() },
        PublishRecord { name: "c".to_string(), success: false, output: String::new() },
    ]);
    let lines = plan_report(&reports(), &publish, true);
    assert_eq!(
        describe(&lines),
        vec!["title", "totals 3 2 1", "ready:", "+a", "+c", "publish:", "a true Packaging a", "c false ", "end"]
    );
}

#[test]
fn report_plan_of_nothing() {
    let lines = plan_report(&Vec::new(), &None, false);
    assert_eq!(describe(&lines), vec!["title", "totals 0 0 0", "end"]);
    let lines = plan_report(&Vec::new(), &None, true);
    assert_eq!(describe(&lines), vec!["title", "totals 0 0 0", "end"]);
}

#[test]
fn publish_records_keep_the_right_output() {
    let name = "a".to_string();
    let ok = publish_record(&name, PublishRun::Ran { success: true, stdout: "out".to_string(), stderr: "err".to_string() });
    assert!(ok.success);
    assert_eq!(ok.output, "out");
    let bad = publish_record(&name, PublishRun::Ran { success: false, stdout: "out".to_string(), stderr: "err".to_string() });
    assert!(!bad.success);
    assert_eq!(bad.output, "err");
    let none = publish_record(&name, PublishRun::FailedToRun("no cargo".to_string()));
    assert!(!none.success);
    assert_eq!(none.output, "no cargo");
    assert_eq!(none.name, "a");
}

#[test]
fn dry_run_needs_flag_and_ready_crates() {
    assert!(wants_dry_run(true, &vec![0]));
    assert!(!wants_dry_run(true, &Vec::new()));
    assert!(!wants_dry_run(false, &vec![0]));
}
