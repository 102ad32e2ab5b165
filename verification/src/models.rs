use vstd::prelude::*;

verus! {

/// The outcome of one named check on one crate.
#[derive(Debug)]
pub struct CheckResult {
    pub check: String,
    pub passed: bool,
    pub message: Option<String>,
}

/// The mathematical value of a [`CheckResult`].
pub struct CheckView {
    pub check: Seq<char>,
    pub passed: bool,
    pub message: Option<Seq<char>>,
}

/// The view of an optional string.
pub open spec fn opt_view(o: Option<String>) -> Option<Seq<char>> {
    match o {
        Some(s) => Some(s@),
        None => None,
    }
}

impl View for CheckResult {
    type V = CheckView;

    open spec fn view(&self) -> CheckView {
        CheckView { check: self.check@, passed: self.passed, message: opt_view(self.message) }
    }
}

/// The full report for one crate: its name, the path of its manifest, and the
/// checks run on it, in the order in which they were run.
#[derive(Debug)]
pub struct CrateReport {
    pub name: String,
    pub path: String,
    pub checks: Vec<CheckResult>,
}

/// The mathematical value of a [`CrateReport`].
pub struct ReportView {
    pub name: Seq<char>,
    pub path: Seq<char>,
    pub checks: Seq<CheckView>,
}

/// The views of a sequence of checks.
pub open spec fn checks_view(checks: Seq<CheckResult>) -> Seq<CheckView> {
    checks.map_values(|c: CheckResult| c@)
}

impl View for CrateReport {
    type V = ReportView;

    open spec fn view(&self) -> ReportView {
        ReportView { name: self.name@, path: self.path@, checks: checks_view(self.checks@) }
    }
}

/// A report is ready when every check it holds has passed.
pub open spec fn all_passed(checks: Seq<CheckView>) -> bool {
    forall|i: int| 0 <= i < checks.len() ==> #[trigger] checks[i].passed
}

/// The checks that failed, in their original order.
pub open spec fn failures(checks: Seq<CheckView>) -> Seq<CheckView> {
    checks.filter(|c: CheckView| !c.passed)
}

/// The check record that `add` appends.
pub open spec fn check_entry(check: Seq<char>, passed: bool, message: Option<Seq<char>>) -> CheckView {
    CheckView { check, passed, message }
}

impl ReportView {
    pub open spec fn ready(self) -> bool {
        all_passed(self.checks)
    }

    /// The report after one more check has been recorded.
    pub open spec fn with_check(self, entry: CheckView) -> ReportView {
        ReportView { checks: self.checks.push(entry), ..self }
    }
}

impl CrateReport {
    /// A report with the given name and manifest path and no checks yet.
    pub fn new(name: String, path: String) -> (report: Self)
        ensures
            report@.name == name@,
            report@.path == path@,
            report@.checks == Seq::<CheckView>::empty(),
    {
        let report = CrateReport { name, path, checks: Vec::new() };
        assert(report@.checks =~= Seq::<CheckView>::empty());
        report
    }

    /// Records the outcome of one check after those already recorded.
    pub fn add(&mut self, check: &str, passed: bool, message: Option<String>)
        ensures
            final(self)@ == old(self)@.with_check(check_entry(check@, passed, opt_view(message))),
    {
        let entry = CheckResult { check: check.to_owned(), passed, message };
        let ghost before = self.checks@;
        self.checks.push(entry);
        assert(checks_view(self.checks@) =~= checks_view(before).push(entry@));
    }

    /// Whether every recorded check has passed.
    pub fn is_ready(&self) -> (ready: bool)
        ensures
            ready == self@.ready(),
    {
        let n = self.checks.len();
        let mut i: usize = 0;
        while i < n
            invariant
                n == self.checks.len(),
                i <= n,
                forall|j: int| 0 <= j < i ==> #[trigger] self.checks@[j].passed,
            decreases n - i,
        {
            if !self.checks[i].passed {
                assert(!self@.checks[i as int].passed);
                return false;
            }
            i = i + 1;
        }
        assert forall|j: int| 0 <= j < self@.checks.len() implies #[trigger] self@.checks[j].passed by {
            assert(self.checks@[j].passed);
        }
        true
    }

    /// The checks that failed, in the order in which they were recorded.
    pub fn failed_checks(&self) -> (failed: Vec<&CheckResult>)
        ensures
            failed@.map_values(|c: &CheckResult| c@) == failures(self@.checks),
    {
        let n = self.checks.len();
        let mut out: Vec<&CheckResult> = Vec::new();
        let mut i: usize = 0;
        while i < n
            invariant
                n == self.checks.len(),
                i <= n,
                out@.map_values(|c: &CheckResult| c@) == failures(self@.checks.take(i as int)),
            decreases n - i,
        {
            let c = &self.checks[i];
            let ghost prefix = self@.checks.take(i as int);
            assert(self@.checks.take(i + 1).drop_last() =~= prefix);
            assert(self@.checks.take(i + 1).last() == c@);
            proof {
                reveal(Seq::filter);
            }
            if !c.passed {
                out.push(c);
            }
            assert(out@.map_values(|c: &CheckResult| c@) =~= failures(self@.checks.take(i + 1)));
            i = i + 1;
        }
        assert(self@.checks.take(n as int) =~= self@.checks);
        out
    }
}

/// A report is ready exactly when it has no failed check.
pub proof fn lemma_ready_iff_no_failures(report: ReportView)
    ensures
        report.ready() <==> failures(report.checks).len() == 0,
    decreases report.checks.len(),
{
    reveal(Seq::filter);
    let checks = report.checks;
    if checks.len() > 0 {
        let shorter = ReportView { checks: checks.drop_last(), ..report };
        lemma_ready_iff_no_failures(shorter);
        assert(failures(checks.drop_last()).len() <= failures(checks).len()) by {
            checks.drop_last().lemma_filter_len(|c: CheckView| !c.passed);
        }
        if shorter.ready() && checks.last().passed {
            assert forall|i: int| 0 <= i < checks.len() implies #[trigger] checks[i].passed by {
                if i < checks.len() - 1 {
                    assert(checks.drop_last()[i] == checks[i]);
                }
            }
        }
        if !shorter.ready() {
            let i = choose|i: int| 0 <= i < checks.len() - 1 && !(#[trigger] checks.drop_last()[i].passed);
            assert(!checks[i].passed);
        }
    }
}

/// Recording a failed check makes a report not ready, whatever it held before.
pub proof fn lemma_failed_check_blocks_readiness(report: ReportView, check: Seq<char>, message: Option<Seq<char>>)
    ensures
        !report.with_check(check_entry(check, false, message)).ready(),
{
    let after = report.with_check(check_entry(check, false, message));
    assert(!after.checks[after.checks.len() - 1].passed);
}

/// Recording a passed check leaves the readiness of a report as it was.
pub proof fn lemma_passed_check_keeps_readiness(report: ReportView, check: Seq<char>, message: Option<Seq<char>>)
    ensures
        report.with_check(check_entry(check, true, message)).ready() == report.ready(),
{
    let after = report.with_check(check_entry(check, true, message));
    if report.ready() {
        assert forall|i: int| 0 <= i < after.checks.len() implies #[trigger] after.checks[i].passed by {
            if i < report.checks.len() {
                assert(after.checks[i] == report.checks[i]);
            }
        }
    }
    if after.ready() {
        assert forall|i: int| 0 <= i < report.checks.len() implies #[trigger] report.checks[i].passed by {
            assert(after.checks[i] == report.checks[i]);
        }
    }
}

/// Failed checks appended one after another are reported in that order: the
/// failures of a longer record extend those of its prefix by the new entry
/// exactly when the new entry failed.
pub proof fn lemma_failures_of_appended(report: ReportView, entry: CheckView)
    ensures
        failures(report.with_check(entry).checks) == if entry.passed {
            failures(report.checks)
        } else {
            failures(report.checks).push(entry)
        },
{
    reveal(Seq::filter);
    assert(report.with_check(entry).checks.drop_last() =~= report.checks);
}

} // verus!
