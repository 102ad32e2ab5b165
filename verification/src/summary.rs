use vstd::prelude::*;

use crate::models::{CrateReport, ReportView, CheckView, CheckResult, failures};
use crate::text::{first_line, first_line_of, concat_text};

verus! {

// ---------------------------------------------------------------------------
// Ready and unready crates
// ---------------------------------------------------------------------------

/// The views of a sequence of reports.
pub open spec fn reports_view(rs: Seq<CrateReport>) -> Seq<ReportView> {
    rs.map_values(|r: CrateReport| r@)
}

/// The positions, in order, of the reports whose readiness is `ready`.
pub open spec fn indices_with(rs: Seq<ReportView>, ready: bool) -> Seq<int>
    decreases rs.len(),
{
    if rs.len() == 0 {
        Seq::empty()
    } else {
        let rest = indices_with(rs.drop_last(), ready);
        if rs.last().ready() == ready {
            rest.push(rs.len() - 1)
        } else {
            rest
        }
    }
}

/// The positions as mathematical integers.
pub open spec fn positions(v: Seq<usize>) -> Seq<int> {
    v.map_values(|i: usize| i as int)
}

/// The positions of the ready reports and of the others, each in order.
pub fn partition_by_readiness(results: &Vec<CrateReport>) -> (parts: (Vec<usize>, Vec<usize>))
    ensures
        positions(parts.0@) == indices_with(reports_view(results@), true),
        positions(parts.1@) == indices_with(reports_view(results@), false),
{
    let ghost rs = reports_view(results@);
    let mut ready: Vec<usize> = Vec::new();
    let mut unready: Vec<usize> = Vec::new();
    let n = results.len();
    let mut i: usize = 0;
    assert(positions(ready@) =~= indices_with(rs.take(0), true));
    assert(positions(unready@) =~= indices_with(rs.take(0), false));
    while i < n
        invariant
            n == results.len(),
            rs == reports_view(results@),
            i <= n,
            positions(ready@) == indices_with(rs.take(i as int), true),
            positions(unready@) == indices_with(rs.take(i as int), false),
        decreases n - i,
    {
        assert(rs.take(i + 1).drop_last() =~= rs.take(i as int));
        assert(rs.take(i + 1).last() == results@[i as int]@);
        let ghost r0 = ready@;
        let ghost u0 = unready@;
        if results[i].is_ready() {
            ready.push(i);
            assert(positions(ready@) =~= positions(r0).push(i as int));
        } else {
            unready.push(i);
            assert(positions(unready@) =~= positions(u0).push(i as int));
        }
        i = i + 1;
    }
    assert(rs.take(n as int) =~= rs);
    (ready, unready)
}

/// Every report is listed exactly once: among the ready ones when it is
/// ready, among the others when it is not, and the two lists together are
/// as long as the list of reports.
pub proof fn lemma_partition_covers(rs: Seq<ReportView>)
    ensures
        indices_with(rs, true).len() + indices_with(rs, false).len() == rs.len(),
        forall|i: int|
            0 <= i < rs.len() ==> (#[trigger] indices_with(rs, true).contains(i) <==> rs[i].ready()),
        forall|i: int|
            0 <= i < rs.len() ==> (#[trigger] indices_with(rs, false).contains(i) <==> !rs[i].ready()),
{
    lemma_partition_len(rs);
    assert forall|i: int| 0 <= i < rs.len() implies (#[trigger] indices_with(rs, true).contains(i)
        <==> rs[i].ready()) by {
        lemma_indices_contains(rs, true, i);
    }
    assert forall|i: int| 0 <= i < rs.len() implies (#[trigger] indices_with(rs, false).contains(i)
        <==> !rs[i].ready()) by {
        lemma_indices_contains(rs, false, i);
    }
}

proof fn lemma_partition_len(rs: Seq<ReportView>)
    ensures
        indices_with(rs, true).len() + indices_with(rs, false).len() == rs.len(),
    decreases rs.len(),
{
    if rs.len() > 0 {
        lemma_partition_len(rs.drop_last());
    }
}

proof fn lemma_seq_push_contains(s: Seq<int>, x: int, y: int)
    ensures
        s.push(x).contains(y) <==> (s.contains(y) || x == y),
{
    if s.contains(y) {
        let k = choose|k: int| 0 <= k < s.len() && s[k] == y;
        assert(s.push(x)[k] == y);
    }
    if x == y {
        assert(s.push(x)[s.len() as int] == y);
    }
    if s.push(x).contains(y) {
        let k = choose|k: int| 0 <= k < s.push(x).len() && s.push(x)[k] == y;
        if k < s.len() {
            assert(s[k] == y);
        }
    }
}

proof fn lemma_indices_contains(rs: Seq<ReportView>, ready: bool, i: int)
    requires
        0 <= i < rs.len(),
    ensures
        indices_with(rs, ready).contains(i) <==> (rs[i].ready() == ready),
    decreases rs.len(),
{
    let d = rs.drop_last();
    let rest = indices_with(d, ready);
    let n = rs.len() - 1;
    lemma_seq_push_contains(rest, n, i);
    if i < n {
        lemma_indices_contains(d, ready, i);
        assert(d[i] == rs[i]);
    } else {
        lemma_indices_below(d, ready);
        if rest.contains(i) {
            let k = choose|k: int| 0 <= k < rest.len() && rest[k] == i;
            assert(rest[k] < d.len());
        }
    }
}

proof fn lemma_indices_below(rs: Seq<ReportView>, ready: bool)
    ensures
        forall|k: int| 0 <= k < indices_with(rs, ready).len() ==> 0 <= #[trigger] indices_with(rs, ready)[k] < rs.len(),
    decreases rs.len(),
{
    if rs.len() > 0 {
        let d = rs.drop_last();
        lemma_indices_below(d, ready);
        let rest = indices_with(d, ready);
        assert forall|k: int| 0 <= k < indices_with(rs, ready).len() implies 0 <= #[trigger] indices_with(
            rs,
            ready,
        )[k] < rs.len() by {
            if k < rest.len() {
                assert(indices_with(rs, ready)[k] == rest[k]);
            }
        }
    }
}

// ---------------------------------------------------------------------------
// The JSON summary
// ---------------------------------------------------------------------------

/// What the JSON summary lists: the ready and unready reports (by position),
/// the number of reports checked, and the number of ready reports listed.
#[derive(Debug)]
pub struct JsonSelection {
    pub ready: Vec<usize>,
    pub unready: Vec<usize>,
    pub total: usize,
    pub ready_count: usize,
}

/// The selection of the JSON summary. With `ready_only`, only ready reports
/// are listed; the total still counts every report checked.
pub fn json_selection(results: &Vec<CrateReport>, ready_only: bool) -> (sel: JsonSelection)
    ensures
        positions(sel.ready@) == indices_with(reports_view(results@), true),
        positions(sel.unready@) == if ready_only {
            Seq::<int>::empty()
        } else {
            indices_with(reports_view(results@), false)
        },
        sel.total == results.len(),
        sel.ready_count == sel.ready.len(),
{
    let (ready, unready) = partition_by_readiness(results);
    let unready = if ready_only {
        let none: Vec<usize> = Vec::new();
        assert(positions(none@) =~= Seq::<int>::empty());
        none
    } else {
        unready
    };
    let ready_count = ready.len();
    JsonSelection { ready, unready, total: results.len(), ready_count }
}

// ---------------------------------------------------------------------------
// Dry-run publication
// ---------------------------------------------------------------------------

/// The outcome of `cargo publish --dry-run` for one crate: its name, whether
/// it succeeded, and what it printed.
#[derive(Debug)]
pub struct PublishRecord {
    pub name: String,
    pub success: bool,
    pub output: String,
}

pub struct PublishView {
    pub name: Seq<char>,
    pub success: bool,
    pub output: Seq<char>,
}

impl View for PublishRecord {
    type V = PublishView;

    open spec fn view(&self) -> PublishView {
        PublishView { name: self.name@, success: self.success, output: self.output@ }
    }
}

/// How a dry run went.
#[derive(Debug)]
pub enum PublishRun {
    /// The command ran: whether it succeeded, its standard output and its
    /// standard error.
    Ran { success: bool, stdout: String, stderr: String },
    /// The command could not be started; the text of the error.
    FailedToRun(String),
}

/// The record of a dry run: the output of a successful run, the error
/// output of a failed one, or why it could not run.
pub fn publish_record(name: &String, run: PublishRun) -> (rec: PublishRecord)
    ensures
        rec.name@ == name@,
        match run {
            PublishRun::Ran { success, stdout, stderr } => rec.success == success && rec.output@ == if success {
                stdout@
            } else {
                stderr@
            },
            PublishRun::FailedToRun(e) => !rec.success && rec.output@ == e@,
        },
{
    match run {
        PublishRun::Ran { success, stdout, stderr } => PublishRecord {
            name: name.clone(),
            success,
            output: if success {
                stdout
            } else {
                stderr
            },
        },
        PublishRun::FailedToRun(e) => PublishRecord { name: name.clone(), success: false, output: e },
    }
}

/// A dry run is made when it is asked for and some crate is ready.
pub fn wants_dry_run(publish: bool, ready: &Vec<usize>) -> (run: bool)
    ensures
        run == (publish && ready.len() > 0),
{
    publish && ready.len() > 0
}

// ---------------------------------------------------------------------------
// The printed report
// ---------------------------------------------------------------------------

/// One line of the printed report; its wording and colours are the
/// printer's.
#[derive(Debug)]
pub enum ReportLine {
    Title,
    Totals { total: usize, ready: usize, unready: usize },
    ReadyHeading,
    ReadyCrate { name: String },
    NotReadyHeading,
    UnreadyCrate { name: String },
    /// A failed check of the crate above, with `": message"` when it has one.
    FailedCheck { check: String, detail: String },
    PublishHeading,
    /// A dry run, with the first line of its output.
    PublishResult { name: String, success: bool, first_line: String },
    End,
}

pub enum LineView {
    Title,
    Totals { total: int, ready: int, unready: int },
    ReadyHeading,
    ReadyCrate { name: Seq<char> },
    NotReadyHeading,
    UnreadyCrate { name: Seq<char> },
    FailedCheck { check: Seq<char>, detail: Seq<char> },
    PublishHeading,
    PublishResult { name: Seq<char>, success: bool, first_line: Seq<char> },
    End,
}

impl View for ReportLine {
    type V = LineView;

    open spec fn view(&self) -> LineView {
        match self {
            ReportLine::Title => LineView::Title,
            ReportLine::Totals { total, ready, unready } => LineView::Totals {
                total: *total as int,
                ready: *ready as int,
                unready: *unready as int,
            },
            ReportLine::ReadyHeading => LineView::ReadyHeading,
            ReportLine::ReadyCrate { name } => LineView::ReadyCrate { name: name@ },
            ReportLine::NotReadyHeading => LineView::NotReadyHeading,
            ReportLine::UnreadyCrate { name } => LineView::UnreadyCrate { name: name@ },
            ReportLine::FailedCheck { check, detail } => LineView::FailedCheck {
                check: check@,
                detail: detail@,
            },
            ReportLine::PublishHeading => LineView::PublishHeading,
            ReportLine::PublishResult { name, success, first_line } => LineView::PublishResult {
                name: name@,
                success: *success,
                first_line: first_line@,
            },
            ReportLine::End => LineView::End,
        }
    }
}

pub open spec fn lines_view(lines: Seq<ReportLine>) -> Seq<LineView> {
    lines.map_values(|l: ReportLine| l@)
}

/// The lines naming the reports at the given positions as ready.
pub open spec fn ready_lines(rs: Seq<ReportView>, idx: Seq<int>) -> Seq<LineView> {
    idx.map_values(|i: int| LineView::ReadyCrate { name: rs[i].name })
}

/// `": message"`, or nothing.
pub open spec fn failure_detail(message: Option<Seq<char>>) -> Seq<char> {
    match message {
        Some(m) => ": "@ + m,
        None => Seq::empty(),
    }
}

/// The lines of the failed checks.
pub open spec fn failure_lines(checks: Seq<CheckView>) -> Seq<LineView> {
    failures(checks).map_values(
        |c: CheckView| LineView::FailedCheck { check: c.check, detail: failure_detail(c.message) },
    )
}

/// The lines of the reports at the given positions, each followed by its
/// failed checks.
pub open spec fn unready_lines(rs: Seq<ReportView>, idx: Seq<int>) -> Seq<LineView>
    decreases idx.len(),
{
    if idx.len() == 0 {
        Seq::empty()
    } else {
        unready_lines(rs, idx.drop_last()) + seq![LineView::UnreadyCrate { name: rs[idx.last()].name }]
            + failure_lines(rs[idx.last()].checks)
    }
}

/// The lines of the dry runs.
pub open spec fn publish_lines(ps: Seq<PublishView>) -> Seq<LineView> {
    ps.map_values(
        |p: PublishView| LineView::PublishResult { name: p.name, success: p.success, first_line: first_line(p.output) },
    )
}

/// The printed report: its title and totals; the ready crates, then the
/// others with their failed checks (both left out with `ready_only`); with
/// `ready_only`, the ready crates alone; the dry runs, when some were made;
/// and a closing blank line. A list with nothing in it is not shown.
pub open spec fn report_plan(rs: Seq<ReportView>, publish: Option<Seq<PublishView>>, ready_only: bool) -> Seq<LineView> {
    let r = indices_with(rs, true);
    let u = indices_with(rs, false);
    let ready_block = seq![LineView::ReadyHeading] + ready_lines(rs, r);
    seq![LineView::Title, LineView::Totals { total: rs.len() as int, ready: r.len() as int, unready: u.len() as int }]
        + (if r.len() > 0 && !ready_only { ready_block } else { Seq::empty() })
        + (if u.len() > 0 && !ready_only {
        seq![LineView::NotReadyHeading] + unready_lines(rs, u)
    } else {
        Seq::empty()
    }) + (if ready_only && r.len() > 0 { ready_block } else { Seq::empty() }) + (match publish {
        Some(ps) => seq![LineView::PublishHeading] + publish_lines(ps),
        None => Seq::empty(),
    }) + seq![LineView::End]
}

/// When dry runs were made, the printed report ends, with or without
/// `ready_only`, with the dry-run heading, then one line per dry run in the
/// order given (its crate, whether it succeeded and the first line of its
/// output), then the closing line; it begins with the title.
pub proof fn lemma_plan_shows_dry_runs(rs: Seq<ReportView>, ps: Seq<PublishView>, ready_only: bool)
    ensures
        ({
            let p = report_plan(rs, Some(ps), ready_only);
            let n = ps.len() as int;
            &&& p.len() >= n + 4
            &&& p[0] == LineView::Title
            &&& p[p.len() - n - 2] == LineView::PublishHeading
            &&& forall|j: int| 0 <= j < n ==> #[trigger] p[p.len() - n - 1 + j] == LineView::PublishResult {
                name: ps[j].name,
                success: ps[j].success,
                first_line: first_line(ps[j].output),
            }
            &&& p[p.len() - 1] == LineView::End
        }),
{
    let r = indices_with(rs, true);
    let u = indices_with(rs, false);
    let ready_block = seq![LineView::ReadyHeading] + ready_lines(rs, r);
    let head = seq![LineView::Title, LineView::Totals { total: rs.len() as int, ready: r.len() as int, unready: u.len() as int }]
        + (if r.len() > 0 && !ready_only { ready_block } else { Seq::empty() })
        + (if u.len() > 0 && !ready_only {
        seq![LineView::NotReadyHeading] + unready_lines(rs, u)
    } else {
        Seq::empty()
    }) + (if ready_only && r.len() > 0 { ready_block } else { Seq::empty() });
    let p = report_plan(rs, Some(ps), ready_only);
    let tail = seq![LineView::PublishHeading] + publish_lines(ps) + seq![LineView::End];
    assert(p =~= head + tail);
    assert(head.len() >= 2);
    assert(head[0] == LineView::Title);
    assert(p[0] == head[0]);
    let n = ps.len() as int;
    assert(p.len() == head.len() + n + 2);
    assert(p[p.len() - n - 2] == tail[0]);
    assert forall|j: int| 0 <= j < n implies #[trigger] p[p.len() - n - 1 + j] == LineView::PublishResult {
        name: ps[j].name,
        success: ps[j].success,
        first_line: first_line(ps[j].output),
    } by {
        assert(p[p.len() - n - 1 + j] == tail[1 + j]);
        assert(tail[1 + j] == publish_lines(ps)[j]);
    }
    assert(p[p.len() - 1] == tail[n + 1]);
}

/// A line that reports on dry runs.
pub open spec fn is_dry_run_line(l: LineView) -> bool {
    l is PublishHeading || l is PublishResult
}

proof fn lemma_unready_lines_no_dry_run(rs: Seq<ReportView>, idx: Seq<int>)
    ensures
        forall|j: int| 0 <= j < unready_lines(rs, idx).len() ==> !is_dry_run_line(#[trigger] unready_lines(rs, idx)[j]),
    decreases idx.len(),
{
    if idx.len() > 0 {
        lemma_unready_lines_no_dry_run(rs, idx.drop_last());
        let a = unready_lines(rs, idx.drop_last());
        let b = seq![LineView::UnreadyCrate { name: rs[idx.last()].name }];
        let c = failure_lines(rs[idx.last()].checks);
        assert forall|j: int| 0 <= j < unready_lines(rs, idx).len() implies !is_dry_run_line(#[trigger] unready_lines(rs, idx)[j]) by {
            if j < a.len() {
                assert(unready_lines(rs, idx)[j] == a[j]);
            } else if j == a.len() {
                assert(unready_lines(rs, idx)[j] == b[0]);
            } else {
                assert(unready_lines(rs, idx)[j] == c[j - a.len() - 1]);
            }
        }
    }
}

/// Without dry runs, the printed report holds no dry-run line at all.
pub proof fn lemma_plan_without_dry_runs(rs: Seq<ReportView>, ready_only: bool)
    ensures
        forall|j: int| 0 <= j < report_plan(rs, None, ready_only).len()
            ==> !is_dry_run_line(#[trigger] report_plan(rs, None, ready_only)[j]),
{
    let r = indices_with(rs, true);
    let u = indices_with(rs, false);
    lemma_unready_lines_no_dry_run(rs, u);
    let p = report_plan(rs, None, ready_only);
    let a = seq![LineView::Title, LineView::Totals { total: rs.len() as int, ready: r.len() as int, unready: u.len() as int }];
    let ready_block = seq![LineView::ReadyHeading] + ready_lines(rs, r);
    let b = if r.len() > 0 && !ready_only { ready_block } else { Seq::empty() };
    let c = if u.len() > 0 && !ready_only {
        seq![LineView::NotReadyHeading] + unready_lines(rs, u)
    } else {
        Seq::empty()
    };
    let d = if ready_only && r.len() > 0 { ready_block } else { Seq::empty() };
    let e = seq![LineView::End];
    assert(p =~= a + b + c + d + e);
    assert forall|k: int| 0 <= k < ready_block.len() implies !is_dry_run_line(#[trigger] ready_block[k]) by {
        if k > 0 {
            assert(ready_block[k] == ready_lines(rs, r)[k - 1]);
        }
    }
    assert forall|j: int| 0 <= j < p.len() implies !is_dry_run_line(#[trigger] p[j]) by {
        if j < a.len() {
            assert(p[j] == a[j]);
        } else if j < a.len() + b.len() {
            assert(p[j] == b[j - a.len()]);
        } else if j < a.len() + b.len() + c.len() {
            let k = j - a.len() - b.len();
            assert(p[j] == c[k]);
            if k > 0 {
                assert(c[k] == unready_lines(rs, u)[k - 1]);
            }
        } else if j < a.len() + b.len() + c.len() + d.len() {
            assert(p[j] == d[j - a.len() - b.len() - c.len()]);
        } else {
            assert(p[j] == e[0]);
        }
    }
}

pub open spec fn publish_view(ps: Option<Vec<PublishRecord>>) -> Option<Seq<PublishView>> {
    match ps {
        Some(v) => Some(v@.map_values(|p: PublishRecord| p@)),
        None => None,
    }
}

/// Appends the lines of the ready crates.
fn push_ready(lines: &mut Vec<ReportLine>, results: &Vec<CrateReport>, idx: &Vec<usize>)
    requires
        forall|k: int| 0 <= k < idx.len() ==> #[trigger] idx@[k] < results.len(),
    ensures
        lines_view(final(lines)@) == lines_view(old(lines)@) + ready_lines(
            reports_view(results@),
            positions(idx@),
        ),
{
    let ghost start = lines_view(lines@);
    let ghost rs = reports_view(results@);
    let n = idx.len();
    let mut k: usize = 0;
    while k < n
        invariant
            n == idx.len(),
            k <= n,
            rs == reports_view(results@),
            forall|q: int| 0 <= q < idx.len() ==> #[trigger] idx@[q] < results.len(),
            lines_view(lines@) == start + ready_lines(rs, positions(idx@).take(k as int)),
        decreases n - k,
    {
        let ghost before = lines@;
        let i = idx[k];
        lines.push(ReportLine::ReadyCrate { name: results[i].name.clone() });
        assert(positions(idx@).take(k + 1) =~= positions(idx@).take(k as int).push(i as int));
        assert(lines_view(lines@) =~= lines_view(before).push(LineView::ReadyCrate { name: rs[i as int].name }));
        assert(ready_lines(rs, positions(idx@).take(k + 1)) =~= ready_lines(rs, positions(idx@).take(k as int)).push(
            LineView::ReadyCrate { name: rs[i as int].name },
        ));
        k = k + 1;
    }
    assert(positions(idx@).take(n as int) =~= positions(idx@));
}

/// Appends the lines of the failed checks of one report.
fn push_failures(lines: &mut Vec<ReportLine>, report: &CrateReport)
    ensures
        lines_view(final(lines)@) == lines_view(old(lines)@) + failure_lines(report@.checks),
{
    let ghost start = lines_view(lines@);
    let failed = report.failed_checks();
    let ghost fs = failed@.map_values(|c: &CheckResult| c@);
    let n = failed.len();
    let mut k: usize = 0;
    while k < n
        invariant
            n == failed.len(),
            k <= n,
            fs == failed@.map_values(|c: &CheckResult| c@),
            lines_view(lines@) == start + fs.take(k as int).map_values(
                |c: CheckView| LineView::FailedCheck { check: c.check, detail: failure_detail(c.message) },
            ),
        decreases n - k,
    {
        let ghost before = lines@;
        let c = failed[k];
        let detail = match &c.message {
            Some(m) => concat_text(": ", m.as_str()),
            None => String::new(),
        };
        lines.push(ReportLine::FailedCheck { check: c.check.clone(), detail });
        assert(fs[k as int] == c@);
        assert(fs.take(k + 1) =~= fs.take(k as int).push(c@));
        assert(lines_view(lines@) =~= lines_view(before).push(
            LineView::FailedCheck { check: c@.check, detail: failure_detail(c@.message) },
        ));
        k = k + 1;
    }
    assert(fs.take(n as int) =~= fs);
}

/// Appends the lines of the reports that are not ready.
fn push_unready(lines: &mut Vec<ReportLine>, results: &Vec<CrateReport>, idx: &Vec<usize>)
    requires
        forall|k: int| 0 <= k < idx.len() ==> #[trigger] idx@[k] < results.len(),
    ensures
        lines_view(final(lines)@) == lines_view(old(lines)@) + unready_lines(
            reports_view(results@),
            positions(idx@),
        ),
{
    let ghost start = lines_view(lines@);
    let ghost rs = reports_view(results@);
    let n = idx.len();
    let mut k: usize = 0;
    while k < n
        invariant
            n == idx.len(),
            k <= n,
            rs == reports_view(results@),
            forall|q: int| 0 <= q < idx.len() ==> #[trigger] idx@[q] < results.len(),
            lines_view(lines@) == start + unready_lines(rs, positions(idx@).take(k as int)),
        decreases n - k,
    {
        let ghost before = lines_view(lines@);
        let i = idx[k];
        lines.push(ReportLine::UnreadyCrate { name: results[i].name.clone() });
        let ghost mid = lines_view(lines@);
        push_failures(lines, &results[i]);
        assert(positions(idx@).take(k + 1).drop_last() =~= positions(idx@).take(k as int));
        assert(positions(idx@).take(k + 1).last() == i as int);
        assert(rs[i as int] == results@[i as int]@);
        assert(mid =~= before + seq![LineView::UnreadyCrate { name: rs[i as int].name }]);
        assert(lines_view(lines@) =~= start + unready_lines(rs, positions(idx@).take(k + 1)));
        k = k + 1;
    }
    assert(positions(idx@).take(n as int) =~= positions(idx@));
}

/// Appends the lines of the dry runs.
fn push_publish(lines: &mut Vec<ReportLine>, records: &Vec<PublishRecord>)
    ensures
        lines_view(final(lines)@) == lines_view(old(lines)@) + publish_lines(
            records@.map_values(|p: PublishRecord| p@),
        ),
{
    let ghost start = lines_view(lines@);
    let ghost ps = records@.map_values(|p: PublishRecord| p@);
    let n = records.len();
    let mut k: usize = 0;
    while k < n
        invariant
            n == records.len(),
            k <= n,
            ps == records@.map_values(|p: PublishRecord| p@),
            lines_view(lines@) == start + publish_lines(ps.take(k as int)),
        decreases n - k,
    {
        let ghost before = lines@;
        let r = &records[k];
        let first = first_line_of(r.output.as_str());
        lines.push(ReportLine::PublishResult { name: r.name.clone(), success: r.success, first_line: first });
        assert(ps.take(k + 1) =~= ps.take(k as int).push(r@));
        assert(lines_view(lines@) =~= lines_view(before).push(
            LineView::PublishResult { name: r@.name, success: r@.success, first_line: first_line(r@.output) },
        ));
        assert(publish_lines(ps.take(k + 1)) =~= publish_lines(ps.take(k as int)).push(
            LineView::PublishResult { name: r@.name, success: r@.success, first_line: first_line(r@.output) },
        ));
        k = k + 1;
    }
    assert(ps.take(n as int) =~= ps);
}

/// The lines of the printed report.
pub fn plan_report(results: &Vec<CrateReport>, publish: &Option<Vec<PublishRecord>>, ready_only: bool) -> (lines: Vec<ReportLine>)
    ensures
        lines_view(lines@) == report_plan(reports_view(results@), publish_view(*publish), ready_only),
{
    let ghost rs = reports_view(results@);
    let (ready, unready) = partition_by_readiness(results);
    proof {
        lemma_indices_below(rs, true);
        lemma_indices_below(rs, false);
        assert forall|k: int| 0 <= k < ready.len() implies #[trigger] ready@[k] < results.len() by {
            assert(positions(ready@)[k] == ready@[k] as int);
        }
        assert forall|k: int| 0 <= k < unready.len() implies #[trigger] unready@[k] < results.len() by {
            assert(positions(unready@)[k] == unready@[k] as int);
        }
    }
    let mut lines: Vec<ReportLine> = Vec::new();
    lines.push(ReportLine::Title);
    lines.push(ReportLine::Totals { total: results.len(), ready: ready.len(), unready: unready.len() });
    let ghost head = lines_view(lines@);
    if ready.len() > 0 && !ready_only {
        lines.push(ReportLine::ReadyHeading);
        push_ready(&mut lines, results, &ready);
    }
    let ghost after_ready = lines_view(lines@);
    if unready.len() > 0 && !ready_only {
        lines.push(ReportLine::NotReadyHeading);
        push_unready(&mut lines, results, &unready);
    }
    let ghost after_unready = lines_view(lines@);
    if ready_only && ready.len() > 0 {
        lines.push(ReportLine::ReadyHeading);
        push_ready(&mut lines, results, &ready);
    }
    let ghost after_only = lines_view(lines@);
    match publish {
        Some(records) => {
            lines.push(ReportLine::PublishHeading);
            push_publish(&mut lines, records);
        },
        None => {},
    }
    let ghost after_publish = lines_view(lines@);
    lines.push(ReportLine::End);
    proof {
        let r = indices_with(rs, true);
        let u = indices_with(rs, false);
        let ready_block = seq![LineView::ReadyHeading] + ready_lines(rs, r);
        assert(head =~= seq![LineView::Title, LineView::Totals { total: rs.len() as int, ready: r.len() as int, unready: u.len() as int }]);
        assert(after_ready =~= head + (if r.len() > 0 && !ready_only { ready_block } else { Seq::empty() }));
        assert(after_unready =~= after_ready + (if u.len() > 0 && !ready_only {
            seq![LineView::NotReadyHeading] + unready_lines(rs, u)
        } else {
            Seq::empty()
        }));
        assert(after_only =~= after_unready + (if ready_only && r.len() > 0 { ready_block } else { Seq::empty() }));
        assert(after_publish =~= after_only + (match publish_view(*publish) {
            Some(ps) => seq![LineView::PublishHeading] + publish_lines(ps),
            None => Seq::empty(),
        }));
        assert(lines_view(lines@) =~= after_publish + seq![LineView::End]);
    }
    lines
}

} // verus!
