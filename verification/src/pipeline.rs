use vstd::prelude::*;

use crate::manifest::{
    TomlValue,
    toml_document,
    package_name_or,
    package_has,
    path_only_dependencies,
    join,
    names_view,
    parse_manifest,
    package_name,
    has_package_field,
    path_only_dependency_names,
    join_names,
    package_text,
    package_field,
};
use crate::models::{CrateReport, ReportView, CheckView, check_entry, opt_view};
use crate::paths::{std_path_join, parent_or_current, directory_name, path_join, directory_of, name_of_directory};
use crate::text::{contains, has_code, first_line_with, text_contains, has_code_line, first_line_containing, concat_text, license_matches, license_text_matches};

verus! {

// ---------------------------------------------------------------------------
// What the caller is asked to do, and what it reports back
// ---------------------------------------------------------------------------

/// The outside work that the check of one crate waits for.
#[derive(Debug)]
pub enum Action {
    /// Read the manifest file as text.
    ReadManifest { path: String },
    /// Ask the registry about the package: `GET url`.
    QueryRegistry { url: String },
    /// Tell whether these two source files exist.
    ProbeSources { lib: String, main: String },
    /// Read this source file as text.
    ReadSource { path: String },
    /// Tell whether this directory of tests exists.
    ProbeTestsDir { path: String },
    /// List the entries of this directory below the sources, if it exists,
    /// telling which are directories.
    ListSourceDir { dir: String },
    /// Read this entry of the source directory as text.
    ReadTestCandidate { path: String },
    /// Run `cargo check` in this directory.
    RunCargoCheck { dir: String },
    /// Tell the size in bytes of this file, if it is a file.
    ProbeReadme { path: String },
    /// Read this license file as text.
    ReadLicense { path: String },
    /// Nothing more: the report is complete.
    Finished,
}

/// What the caller observed while doing an [`Action`].
#[derive(Debug)]
pub enum Event {
    ManifestRead(String),
    /// The manifest could not be read; the text of the error.
    ManifestUnreadable(String),
    /// The registry answered with this HTTP status.
    RegistryStatus(u16),
    /// The HTTP client could not be built; the text of the error.
    RegistryClientError(String),
    /// The request failed; the text of the error.
    RegistryRequestError(String),
    SourcesProbed { lib_exists: bool, main_exists: bool },
    SourceRead(String),
    SourceUnreadable,
    TestsDirProbed(bool),
    /// The entries of the directory listed, in the order read.
    SourceDirListed(Vec<SourceEntry>),
    /// The directory listed does not exist or cannot be read.
    SourceDirMissing,
    CandidateRead(String),
    CandidateUnreadable,
    /// `cargo check` ran; whether it succeeded, and its standard error.
    CargoCheckRan { success: bool, stderr: String },
    /// `cargo check` could not be started; the text of the error.
    CargoCheckFailedToRun(String),
    /// The size in bytes of the README file, or nothing when there is no
    /// such file.
    ReadmeProbed(Option<u64>),
    LicenseRead(String),
    /// There is no license file, or it cannot be read.
    LicenseMissing,
}

pub enum ActionView {
    ReadManifest { path: Seq<char> },
    QueryRegistry { url: Seq<char> },
    ProbeSources { lib: Seq<char>, main: Seq<char> },
    ReadSource { path: Seq<char> },
    ProbeTestsDir { path: Seq<char> },
    ListSourceDir { dir: Seq<char> },
    ReadTestCandidate { path: Seq<char> },
    RunCargoCheck { dir: Seq<char> },
    ProbeReadme { path: Seq<char> },
    ReadLicense { path: Seq<char> },
    Finished,
}

pub enum EventView {
    ManifestRead(Seq<char>),
    ManifestUnreadable(Seq<char>),
    RegistryStatus(u16),
    RegistryClientError(Seq<char>),
    RegistryRequestError(Seq<char>),
    SourcesProbed { lib_exists: bool, main_exists: bool },
    SourceRead(Seq<char>),
    SourceUnreadable,
    TestsDirProbed(bool),
    SourceDirListed(Seq<(Seq<char>, bool)>),
    SourceDirMissing,
    CandidateRead(Seq<char>),
    CandidateUnreadable,
    CargoCheckRan { success: bool, stderr: Seq<char> },
    CargoCheckFailedToRun(Seq<char>),
    ReadmeProbed(Option<u64>),
    LicenseRead(Seq<char>),
    LicenseMissing,
}

impl View for Action {
    type V = ActionView;

    open spec fn view(&self) -> ActionView {
        match self {
            Action::ReadManifest { path } => ActionView::ReadManifest { path: path@ },
            Action::QueryRegistry { url } => ActionView::QueryRegistry { url: url@ },
            Action::ProbeSources { lib, main } => ActionView::ProbeSources { lib: lib@, main: main@ },
            Action::ReadSource { path } => ActionView::ReadSource { path: path@ },
            Action::ProbeTestsDir { path } => ActionView::ProbeTestsDir { path: path@ },
            Action::ListSourceDir { dir } => ActionView::ListSourceDir { dir: dir@ },
            Action::ReadTestCandidate { path } => ActionView::ReadTestCandidate { path: path@ },
            Action::RunCargoCheck { dir } => ActionView::RunCargoCheck { dir: dir@ },
            Action::ProbeReadme { path } => ActionView::ProbeReadme { path: path@ },
            Action::ReadLicense { path } => ActionView::ReadLicense { path: path@ },
            Action::Finished => ActionView::Finished,
        }
    }
}

impl View for Event {
    type V = EventView;

    open spec fn view(&self) -> EventView {
        match self {
            Event::ManifestRead(t) => EventView::ManifestRead(t@),
            Event::ManifestUnreadable(e) => EventView::ManifestUnreadable(e@),
            Event::RegistryStatus(c) => EventView::RegistryStatus(*c),
            Event::RegistryClientError(e) => EventView::RegistryClientError(e@),
            Event::RegistryRequestError(e) => EventView::RegistryRequestError(e@),
            Event::SourcesProbed { lib_exists, main_exists } => EventView::SourcesProbed {
                lib_exists: *lib_exists,
                main_exists: *main_exists,
            },
            Event::SourceRead(t) => EventView::SourceRead(t@),
            Event::SourceUnreadable => EventView::SourceUnreadable,
            Event::TestsDirProbed(b) => EventView::TestsDirProbed(*b),
            Event::SourceDirListed(v) => EventView::SourceDirListed(entries_view(v@)),
            Event::SourceDirMissing => EventView::SourceDirMissing,
            Event::CandidateRead(t) => EventView::CandidateRead(t@),
            Event::CandidateUnreadable => EventView::CandidateUnreadable,
            Event::CargoCheckRan { success, stderr } => EventView::CargoCheckRan {
                success: *success,
                stderr: stderr@,
            },
            Event::CargoCheckFailedToRun(e) => EventView::CargoCheckFailedToRun(e@),
            Event::ReadmeProbed(size) => EventView::ReadmeProbed(*size),
            Event::LicenseRead(t) => EventView::LicenseRead(t@),
            Event::LicenseMissing => EventView::LicenseMissing,
        }
    }
}

// ---------------------------------------------------------------------------
// The state of the check of one crate
// ---------------------------------------------------------------------------

/// An entry of a directory below the sources: its path, and whether it is
/// a directory.
#[derive(Debug)]
pub struct SourceEntry {
    pub path: String,
    pub is_dir: bool,
}

pub open spec fn entries_view(v: Seq<SourceEntry>) -> Seq<(Seq<char>, bool)> {
    v.map_values(|e: SourceEntry| (e.path@, e.is_dir))
}

/// A path that names a Rust source file: it ends in `.rs`.
pub open spec fn is_rust_file(path: Seq<char>) -> bool {
    path.len() >= 3 && path.subrange(path.len() - 3, path.len() as int) == seq!['.', 'r', 's']
}

/// The directories among the entries, in order.
pub open spec fn subdirs(entries: Seq<(Seq<char>, bool)>) -> Seq<Seq<char>>
    decreases entries.len(),
{
    if entries.len() == 0 {
        Seq::empty()
    } else {
        let rest = subdirs(entries.drop_last());
        if entries.last().1 {
            rest.push(entries.last().0)
        } else {
            rest
        }
    }
}

/// The Rust source files among the entries, in order.
pub open spec fn rust_files(entries: Seq<(Seq<char>, bool)>) -> Seq<Seq<char>>
    decreases entries.len(),
{
    if entries.len() == 0 {
        Seq::empty()
    } else {
        let rest = rust_files(entries.drop_last());
        if !entries.last().1 && is_rust_file(entries.last().0) {
            rest.push(entries.last().0)
        } else {
            rest
        }
    }
}

/// Where the check of a crate stands.
#[derive(Debug)]
pub enum Stage {
    AwaitManifest,
    AwaitRegistry,
    AwaitSources,
    AwaitSource { path: String },
    AwaitTestsDir,
    AwaitSourceListing { tests_dir: bool, dirs: Vec<String>, files: Vec<String> },
    AwaitCandidate { tests_dir: bool, candidates: Vec<String>, next: usize },
    AwaitCargoCheck,
    AwaitReadme,
    AwaitLicense,
    Done,
}

pub enum StageView {
    AwaitManifest,
    AwaitRegistry,
    AwaitSources,
    AwaitSource { path: Seq<char> },
    AwaitTestsDir,
    AwaitSourceListing { tests_dir: bool, dirs: Seq<Seq<char>>, files: Seq<Seq<char>> },
    AwaitCandidate { tests_dir: bool, candidates: Seq<Seq<char>>, next: int },
    AwaitCargoCheck,
    AwaitReadme,
    AwaitLicense,
    Done,
}

impl View for Stage {
    type V = StageView;

    open spec fn view(&self) -> StageView {
        match self {
            Stage::AwaitManifest => StageView::AwaitManifest,
            Stage::AwaitRegistry => StageView::AwaitRegistry,
            Stage::AwaitSources => StageView::AwaitSources,
            Stage::AwaitSource { path } => StageView::AwaitSource { path: path@ },
            Stage::AwaitTestsDir => StageView::AwaitTestsDir,
            Stage::AwaitSourceListing { tests_dir, dirs, files } => StageView::AwaitSourceListing {
                tests_dir: *tests_dir,
                dirs: names_view(dirs@),
                files: names_view(files@),
            },
            Stage::AwaitCandidate { tests_dir, candidates, next } => StageView::AwaitCandidate {
                tests_dir: *tests_dir,
                candidates: names_view(candidates@),
                next: *next as int,
            },
            Stage::AwaitCargoCheck => StageView::AwaitCargoCheck,
            Stage::AwaitReadme => StageView::AwaitReadme,
            Stage::AwaitLicense => StageView::AwaitLicense,
            Stage::Done => StageView::Done,
        }
    }
}

/// The check of one crate: the report so far, the crate's directory, the
/// text and parsed value of its manifest once read, and the stage reached.
pub struct CrateCheck {
    pub report: CrateReport,
    pub dir: String,
    pub content: String,
    pub manifest: Option<TomlValue>,
    pub stage: Stage,
}

pub struct CheckState {
    pub report: ReportView,
    pub dir: Seq<char>,
    pub content: Seq<char>,
    pub manifest: Option<TomlValue>,
    pub stage: StageView,
}

impl View for CrateCheck {
    type V = CheckState;

    open spec fn view(&self) -> CheckState {
        CheckState {
            report: self.report@,
            dir: self.dir@,
            content: self.content@,
            manifest: self.manifest,
            stage: self.stage@,
        }
    }
}

// ---------------------------------------------------------------------------
// The specification of the check
// ---------------------------------------------------------------------------

/// The report with one more check recorded.
pub open spec fn record(r: ReportView, check: Seq<char>, passed: bool, message: Option<Seq<char>>) -> ReportView {
    r.with_check(check_entry(check, passed, message))
}

/// A message that is given only when the check failed.
pub open spec fn unless(passed: bool, message: Seq<char>) -> Option<Seq<char>> {
    if passed {
        None
    } else {
        Some(message)
    }
}

/// The registry address of a package.
pub open spec fn registry_url(name: Seq<char>) -> Seq<char> {
    "https://crates.io/api/v1/crates/"@ + name
}

/// The state once the manifest has been read and parsed: the package's name
/// and version must be given and not empty, and the report takes the
/// package's name when it has one.
pub open spec fn manifest_parsed(s: CheckState, text: Seq<char>, doc: TomlValue) -> CheckState {
    let named = package_has(doc, "name"@);
    let versioned = package_has(doc, "version"@);
    let r0 = record(s.report, "has-name"@, named, unless(named, "Missing [package] name"@));
    let r = record(r0, "has-version"@, versioned, unless(versioned, "Missing [package] version"@));
    CheckState {
        report: ReportView { name: package_name_or(doc, s.report.name), ..r },
        content: text,
        manifest: Some(doc),
        stage: StageView::AwaitRegistry,
        ..s
    }
}

/// The package field of the parsed manifest is a string that is not empty.
pub open spec fn manifest_has(manifest: Option<TomlValue>, field: Seq<char>) -> bool {
    match manifest {
        Some(m) => package_has(m, field),
        None => false,
    }
}

/// The state once the name check is known: the metadata checks follow.
pub open spec fn registry_answered(s: CheckState, unique: bool, message: Option<Seq<char>>) -> CheckState {
    let d = manifest_has(s.manifest, "description"@);
    let l = manifest_has(s.manifest, "license"@);
    let p = manifest_has(s.manifest, "repository"@);
    let r0 = record(s.report, "unique-name"@, unique, message);
    let r1 = record(r0, "has-description"@, d, unless(d, "Missing [package] description"@));
    let r2 = record(r1, "has-license"@, l, unless(l, "Missing [package] license"@));
    let r3 = record(r2, "has-repository"@, p, unless(p, "Missing [package] repository"@));
    CheckState { report: r3, stage: StageView::AwaitSources, ..s }
}

/// The state once the source check is known.
pub open spec fn source_checked(s: CheckState, has: bool) -> CheckState {
    CheckState {
        report: record(s.report, "has-source"@, has, unless(has, "Source file is empty or only comments"@)),
        stage: StageView::AwaitTestsDir,
        ..s
    }
}

/// The manifest asks for tests or benchmarks by itself.
pub open spec fn test_section(content: Seq<char>) -> bool {
    contains(content, "#[test]"@) || contains(content, "[[test]]"@) || contains(content, "[[bench]]"@)
}

/// The path-only dependencies of the parsed manifest, if any.
pub open spec fn manifest_path_deps(manifest: Option<TomlValue>) -> Seq<Seq<char>> {
    match manifest {
        Some(m) => path_only_dependencies(m),
        None => Seq::empty(),
    }
}

/// The state once the test check is known: the dependency check follows.
pub open spec fn tests_checked(s: CheckState, attr: bool, tests_dir: bool) -> CheckState {
    let found = attr || tests_dir || test_section(s.content);
    let r1 = record(s.report, "has-tests"@, found, unless(found, "No tests found (no #[test], tests/ dir, or [[test]])"@));
    let deps = manifest_path_deps(s.manifest);
    let ok = deps.len() == 0;
    let r2 = record(r1, "no-path-only-deps"@, ok, unless(ok, "Path-only dependencies: "@ + join(deps, ", "@)));
    CheckState { report: r2, stage: StageView::AwaitCargoCheck, ..s }
}

/// The directories still to list once the last one has been listed.
pub open spec fn unlisted(dirs: Seq<Seq<char>>) -> Seq<Seq<char>> {
    if dirs.len() > 0 {
        dirs.drop_last()
    } else {
        dirs
    }
}

/// The state once a directory below the sources has been listed: the next
/// directory is listed, or, when none is left, the Rust files found are
/// read one by one; with none, no test attribute was found.
pub open spec fn listing_continues(s: CheckState, tests_dir: bool, dirs: Seq<Seq<char>>, files: Seq<Seq<char>>) -> CheckState {
    if dirs.len() > 0 {
        CheckState { stage: StageView::AwaitSourceListing { tests_dir, dirs, files }, ..s }
    } else if files.len() == 0 {
        tests_checked(s, false, tests_dir)
    } else {
        CheckState { stage: StageView::AwaitCandidate { tests_dir, candidates: files, next: 0 }, ..s }
    }
}

/// The state after a candidate did not show a test attribute.
pub open spec fn candidate_passed(s: CheckState, tests_dir: bool, candidates: Seq<Seq<char>>, next: int) -> CheckState {
    if next + 1 < candidates.len() {
        CheckState { stage: StageView::AwaitCandidate { tests_dir, candidates, next: next + 1 }, ..s }
    } else {
        tests_checked(s, false, tests_dir)
    }
}

/// The message of a failed `cargo check`: the first line of its error output
/// that mentions an error.
pub open spec fn cargo_error(stderr: Seq<char>) -> Seq<char> {
    match first_line_with(stderr, "error"@) {
        Some(l) => l,
        None => "Unknown error"@,
    }
}

/// The state once a check is recorded and the given stage is reached.
pub open spec fn recorded(s: CheckState, check: Seq<char>, passed: bool, message: Option<Seq<char>>, stage: StageView) -> CheckState {
    CheckState { report: record(s.report, check, passed, message), stage, ..s }
}

/// A README is there and holds more than 1 KB (1024 bytes).
pub open spec fn readme_ok(size: Option<u64>) -> bool {
    match size {
        Some(n) => n > 1024,
        None => false,
    }
}

/// Why the README check failed.
pub open spec fn readme_problem(size: Option<u64>) -> Seq<char> {
    match size {
        Some(_) => "README.md is not larger than 1KB"@,
        None => "No README.md found"@,
    }
}

/// The license text names, as a whole word, one of the license identifiers
/// of the expression that the manifest declares.
pub open spec fn license_ok(manifest: Option<TomlValue>, text: Seq<char>) -> bool {
    match manifest {
        Some(m) => match package_text(m, "license"@) {
            Some(expr) => license_matches(text, expr),
            None => false,
        },
        None => false,
    }
}

/// The state once the last check is recorded.
pub open spec fn finished(s: CheckState, check: Seq<char>, passed: bool, message: Option<Seq<char>>) -> CheckState {
    CheckState { report: record(s.report, check, passed, message), stage: StageView::Done, ..s }
}

/// How the check of a crate moves on with one observation. An observation
/// that does not answer the work asked for leaves the state as it is.
pub open spec fn step(s: CheckState, e: EventView) -> CheckState {
    match (s.stage, e) {
        (StageView::AwaitManifest, EventView::ManifestUnreadable(err)) => finished(
            s,
            "cargo-toml-readable"@,
            false,
            Some(err),
        ),
        (StageView::AwaitManifest, EventView::ManifestRead(text)) => match toml_document(text) {
            Err(m) => finished(s, "cargo-toml-valid"@, false, Some(m)),
            Ok(doc) => manifest_parsed(s, text, doc),
        },
        (StageView::AwaitRegistry, EventView::RegistryStatus(code)) => registry_answered(
            s,
            code != 200,
            unless(code != 200, s.report.name + " already exists on crates.io"@),
        ),
        (StageView::AwaitRegistry, EventView::RegistryClientError(m)) => registry_answered(
            s,
            false,
            Some("Check failed: "@ + m),
        ),
        (StageView::AwaitRegistry, EventView::RegistryRequestError(m)) => registry_answered(
            s,
            false,
            Some("Check failed: HTTP error: "@ + m),
        ),
        (StageView::AwaitSources, EventView::SourcesProbed { lib_exists, main_exists }) => {
            if !lib_exists && !main_exists {
                CheckState {
                    report: record(s.report, "has-source"@, false, Some("No src/lib.rs or src/main.rs found"@)),
                    stage: StageView::AwaitTestsDir,
                    ..s
                }
            } else {
                let path = if lib_exists {
                    std_path_join(s.dir, "src/lib.rs"@)
                } else {
                    std_path_join(s.dir, "src/main.rs"@)
                };
                CheckState { stage: StageView::AwaitSource { path }, ..s }
            }
        },
        (StageView::AwaitSource { .. }, EventView::SourceRead(text)) => source_checked(s, has_code(text)),
        (StageView::AwaitSource { .. }, EventView::SourceUnreadable) => source_checked(s, false),
        (StageView::AwaitTestsDir, EventView::TestsDirProbed(b)) => CheckState {
            stage: StageView::AwaitSourceListing {
                tests_dir: b,
                dirs: seq![std_path_join(s.dir, "src"@)],
                files: Seq::empty(),
            },
            ..s
        },
        (StageView::AwaitSourceListing { tests_dir, dirs, files }, EventView::SourceDirListed(entries)) => {
            listing_continues(s, tests_dir, unlisted(dirs) + subdirs(entries), files + rust_files(entries))
        },
        (StageView::AwaitSourceListing { tests_dir, dirs, files }, EventView::SourceDirMissing) => {
            listing_continues(s, tests_dir, unlisted(dirs), files)
        },
        (
            StageView::AwaitCandidate { tests_dir, candidates, next },
            EventView::CandidateRead(text),
        ) => {
            if contains(text, "#[test]"@) {
                tests_checked(s, true, tests_dir)
            } else {
                candidate_passed(s, tests_dir, candidates, next)
            }
        },
        (
            StageView::AwaitCandidate { tests_dir, candidates, next },
            EventView::CandidateUnreadable,
        ) => candidate_passed(s, tests_dir, candidates, next),
        (StageView::AwaitCargoCheck, EventView::CargoCheckRan { success, stderr }) => recorded(
            s,
            "cargo-check"@,
            success,
            unless(success, cargo_error(stderr)),
            StageView::AwaitReadme,
        ),
        (StageView::AwaitCargoCheck, EventView::CargoCheckFailedToRun(m)) => recorded(
            s,
            "cargo-check"@,
            false,
            Some("Failed to run cargo check: "@ + m),
            StageView::AwaitReadme,
        ),
        (StageView::AwaitReadme, EventView::ReadmeProbed(size)) => recorded(
            s,
            "has-readme"@,
            readme_ok(size),
            unless(readme_ok(size), readme_problem(size)),
            StageView::AwaitLicense,
        ),
        (StageView::AwaitLicense, EventView::LicenseRead(text)) => finished(
            s,
            "has-license-file"@,
            license_ok(s.manifest, text),
            unless(license_ok(s.manifest, text), "LICENSE does not match the declared license"@),
        ),
        (StageView::AwaitLicense, EventView::LicenseMissing) => finished(
            s,
            "has-license-file"@,
            false,
            Some("No LICENSE file found"@),
        ),
        _ => s,
    }
}

/// The work that a state waits for.
pub open spec fn pending(s: CheckState) -> ActionView {
    match s.stage {
        StageView::AwaitManifest => ActionView::ReadManifest { path: s.report.path },
        StageView::AwaitRegistry => ActionView::QueryRegistry { url: registry_url(s.report.name) },
        StageView::AwaitSources => ActionView::ProbeSources {
            lib: std_path_join(s.dir, "src/lib.rs"@),
            main: std_path_join(s.dir, "src/main.rs"@),
        },
        StageView::AwaitSource { path } => ActionView::ReadSource { path },
        StageView::AwaitTestsDir => ActionView::ProbeTestsDir { path: std_path_join(s.dir, "tests"@) },
        StageView::AwaitSourceListing { dirs, .. } => {
            if dirs.len() > 0 {
                ActionView::ListSourceDir { dir: dirs.last() }
            } else {
                ActionView::Finished
            }
        },
        StageView::AwaitCandidate { candidates, next, .. } => {
            if 0 <= next < candidates.len() {
                ActionView::ReadTestCandidate { path: candidates[next] }
            } else {
                ActionView::Finished
            }
        },
        StageView::AwaitCargoCheck => ActionView::RunCargoCheck { dir: s.dir },
        StageView::AwaitReadme => ActionView::ProbeReadme { path: std_path_join(s.dir, "README.md"@) },
        StageView::AwaitLicense => ActionView::ReadLicense { path: std_path_join(s.dir, "LICENSE"@) },
        StageView::Done => ActionView::Finished,
    }
}

/// The state in which the check of the crate with this manifest begins: the
/// report is named after the manifest's directory and holds no check yet.
pub open spec fn begin(path: Seq<char>) -> CheckState {
    let dir = parent_or_current(path);
    CheckState {
        report: ReportView { name: directory_name(dir), path, checks: Seq::empty() },
        dir,
        content: Seq::empty(),
        manifest: None,
        stage: StageView::AwaitManifest,
    }
}


// ---------------------------------------------------------------------------
// Laws of the check
// ---------------------------------------------------------------------------

/// The names of the checks recorded in a report, in order.
pub open spec fn check_names(r: ReportView) -> Seq<Seq<char>> {
    r.checks.map_values(|c: CheckView| c.check)
}

/// The checks recorded once the manifest and the registry have been heard.
pub open spec fn metadata_checks() -> Seq<Seq<char>> {
    seq!["has-name"@, "has-version"@, "unique-name"@, "has-description"@, "has-license"@, "has-repository"@]
}

/// The checks of a crate whose manifest could be read and parsed.
pub open spec fn all_checks() -> Seq<Seq<char>> {
    metadata_checks() + seq![
        "has-source"@,
        "has-tests"@,
        "no-path-only-deps"@,
        "cargo-check"@,
        "has-readme"@,
        "has-license-file"@,
    ]
}

/// The checks recorded so far agree with the stage reached.
pub open spec fn consistent(s: CheckState) -> bool {
    let n = check_names(s.report);
    match s.stage {
        StageView::AwaitManifest => n == Seq::<Seq<char>>::empty() && s.manifest is None,
        StageView::AwaitRegistry => n == seq!["has-name"@, "has-version"@] && s.manifest is Some,
        StageView::AwaitSources => n == metadata_checks() && s.manifest is Some,
        StageView::AwaitSource { .. } => n == metadata_checks() && s.manifest is Some,
        StageView::AwaitTestsDir => n == metadata_checks().push("has-source"@) && s.manifest is Some,
        StageView::AwaitSourceListing { dirs, .. } => n == metadata_checks().push("has-source"@)
            && s.manifest is Some && dirs.len() > 0,
        StageView::AwaitCandidate { candidates, next, .. } => n == metadata_checks().push(
            "has-source"@,
        ) && s.manifest is Some && 0 <= next < candidates.len(),
        StageView::AwaitCargoCheck => n == metadata_checks() + seq![
            "has-source"@,
            "has-tests"@,
            "no-path-only-deps"@,
        ] && s.manifest is Some,
        StageView::AwaitReadme => n == metadata_checks() + seq![
            "has-source"@,
            "has-tests"@,
            "no-path-only-deps"@,
            "cargo-check"@,
        ] && s.manifest is Some,
        StageView::AwaitLicense => n == metadata_checks() + seq![
            "has-source"@,
            "has-tests"@,
            "no-path-only-deps"@,
            "cargo-check"@,
            "has-readme"@,
        ] && s.manifest is Some,
        StageView::Done => {
            ||| n == seq!["cargo-toml-readable"@] && !s.report.checks[0].passed
            ||| n == seq!["cargo-toml-valid"@] && !s.report.checks[0].passed
            ||| n == all_checks()
        },
    }
}

/// The state reached from the manifest at `path` after the observations
/// `events`, one after another.
pub open spec fn run(path: Seq<char>, events: Seq<EventView>) -> CheckState
    decreases events.len(),
{
    if events.len() == 0 {
        begin(path)
    } else {
        step(run(path, events.drop_last()), events.last())
    }
}

proof fn lemma_record_names(r: ReportView, check: Seq<char>, passed: bool, message: Option<Seq<char>>)
    ensures
        check_names(record(r, check, passed, message)) == check_names(r).push(check),
{
    assert(check_names(record(r, check, passed, message)) =~= check_names(r).push(check));
}

/// Every observation keeps the recorded checks in agreement with the stage.
pub proof fn lemma_step_consistent(s: CheckState, e: EventView)
    requires
        consistent(s),
    ensures
        consistent(step(s, e)),
{
    broadcast use lemma_record_names_broadcast;
    let n = check_names(s.report);
    assert(metadata_checks().push("has-source"@) =~= metadata_checks() + seq!["has-source"@]);
    assert(metadata_checks() + seq!["has-source"@, "has-tests"@, "no-path-only-deps"@] =~= metadata_checks().push("has-source"@).push("has-tests"@).push("no-path-only-deps"@));
    assert(metadata_checks() + seq!["has-source"@, "has-tests"@, "no-path-only-deps"@, "cargo-check"@] =~= metadata_checks().push("has-source"@).push("has-tests"@).push("no-path-only-deps"@).push("cargo-check"@));
    assert(metadata_checks() + seq!["has-source"@, "has-tests"@, "no-path-only-deps"@, "cargo-check"@, "has-readme"@] =~= metadata_checks().push("has-source"@).push("has-tests"@).push("no-path-only-deps"@).push("cargo-check"@).push("has-readme"@));
    assert(all_checks() =~= metadata_checks().push("has-source"@).push("has-tests"@).push("no-path-only-deps"@).push("cargo-check"@).push("has-readme"@).push("has-license-file"@));
    assert(metadata_checks() =~= seq!["has-name"@, "has-version"@].push("unique-name"@).push("has-description"@).push("has-license"@).push("has-repository"@));
    assert(seq!["has-name"@, "has-version"@] =~= Seq::<Seq<char>>::empty().push("has-name"@).push("has-version"@));
    assert(seq!["cargo-toml-readable"@] =~= Seq::<Seq<char>>::empty().push("cargo-toml-readable"@));
    assert(seq!["cargo-toml-valid"@] =~= Seq::<Seq<char>>::empty().push("cargo-toml-valid"@));
    match (s.stage, e) {
        (StageView::AwaitManifest, EventView::ManifestUnreadable(err)) => {
            let t = step(s, e);
            assert(s.report.checks.len() == 0);
            assert(t.report.checks[0] == check_entry("cargo-toml-readable"@, false, Some(err)));
        },
        (StageView::AwaitManifest, EventView::ManifestRead(text)) => {
            let t = step(s, e);
            match toml_document(text) {
                Err(m) => {
                    assert(s.report.checks.len() == 0);
                    assert(t.report.checks[0] == check_entry("cargo-toml-valid"@, false, Some(m)));
                },
                Ok(doc) => {
                    let named = package_has(doc, "name"@);
                    let versioned = package_has(doc, "version"@);
                    let r0 = record(s.report, "has-name"@, named, unless(named, "Missing [package] name"@));
                    let r1 = record(r0, "has-version"@, versioned, unless(versioned, "Missing [package] version"@));
                    assert(check_names(r1) =~= seq!["has-name"@, "has-version"@]);
                    assert(check_names(t.report) == check_names(r1));
                },
            }
        },
        (StageView::AwaitSourceListing { tests_dir, dirs, files }, EventView::SourceDirListed(entries)) => {},
        (StageView::AwaitCandidate { tests_dir, candidates, next }, EventView::CandidateRead(text)) => {},
        (StageView::AwaitCandidate { tests_dir, candidates, next }, EventView::CandidateUnreadable) => {},
        _ => {},
    }
}

pub broadcast proof fn lemma_record_names_broadcast(r: ReportView, check: Seq<char>, passed: bool, message: Option<Seq<char>>)
    ensures
        #[trigger] check_names(record(r, check, passed, message)) == check_names(r).push(check),
{
    lemma_record_names(r, check, passed, message);
}

/// Whatever is observed, the check of a crate records its checks in one of
/// three orders: a manifest that cannot be read gives only
/// `cargo-toml-readable`; one that cannot be parsed gives only
/// `cargo-toml-valid`; otherwise the finished report holds, in this order,
/// `has-name`, `has-version`, `unique-name`, `has-description`, `has-license`,
/// `has-repository`, `has-source`, `has-tests`, `no-path-only-deps`,
/// `cargo-check`, `has-readme` and `has-license-file`.
pub proof fn lemma_run_check_order(path: Seq<char>, events: Seq<EventView>)
    ensures
        consistent(run(path, events)),
        run(path, events).stage == StageView::Done ==> {
            let n = check_names(run(path, events).report);
            n == seq!["cargo-toml-readable"@] || n == seq!["cargo-toml-valid"@] || n == all_checks()
        },
    decreases events.len(),
{
    if events.len() == 0 {
        assert(check_names(begin(path).report) =~= Seq::<Seq<char>>::empty());
    } else {
        lemma_run_check_order(path, events.drop_last());
        lemma_step_consistent(run(path, events.drop_last()), events.last());
    }
}

/// A check that finished with a single recorded check (its manifest could
/// not be read or parsed) gives a report that is not ready.
pub proof fn lemma_finished_early_not_ready(path: Seq<char>, events: Seq<EventView>)
    ensures
        ({
            let s = run(path, events);
            s.stage == StageView::Done && check_names(s.report).len() == 1 ==> !s.report.ready()
        }),
{
    lemma_run_check_order(path, events);
    let s = run(path, events);
    if s.stage == StageView::Done && check_names(s.report).len() == 1 {
        assert(all_checks().len() == 12);
        assert(!s.report.checks[0].passed);
    }
}

/// How far a stage is from the end of the check.
pub open spec fn stage_rank(stage: StageView) -> int {
    match stage {
        StageView::AwaitManifest => 10,
        StageView::AwaitRegistry => 9,
        StageView::AwaitSources => 8,
        StageView::AwaitSource { .. } => 7,
        StageView::AwaitTestsDir => 6,
        StageView::AwaitSourceListing { .. } => 5,
        StageView::AwaitCandidate { .. } => 4,
        StageView::AwaitCargoCheck => 3,
        StageView::AwaitReadme => 2,
        StageView::AwaitLicense => 1,
        StageView::Done => 0,
    }
}

/// The candidates still to be read, while they are read.
pub open spec fn candidates_left(stage: StageView) -> int {
    match stage {
        StageView::AwaitCandidate { candidates, next, .. } => candidates.len() - next,
        _ => 0,
    }
}

/// An observation either answers the pending work and moves the check
/// forward (to a later stage, or to the next candidate file), or goes on
/// listing the directories below the sources, or changes nothing; so a
/// check whose source tree is finite, and that is answered, reaches its end.
pub proof fn lemma_step_moves_forward(s: CheckState, e: EventView)
    requires
        consistent(s),
    ensures
        step(s, e) == s || stage_rank(step(s, e).stage) < stage_rank(s.stage) || (stage_rank(
            step(s, e).stage,
        ) == stage_rank(s.stage) && 0 <= candidates_left(step(s, e).stage) < candidates_left(s.stage))
            || (s.stage is AwaitSourceListing && step(s, e).stage is AwaitSourceListing),
{
}

/// The stage lists or reads the source files of a crate whose `tests/`
/// directory was found.
pub open spec fn tests_dir_found(stage: StageView) -> bool {
    match stage {
        StageView::AwaitSourceListing { tests_dir, .. } => tests_dir,
        StageView::AwaitCandidate { tests_dir, .. } => tests_dir,
        _ => false,
    }
}

/// The test check is recorded, eighth, as passed with no message, and the
/// check has gone past it.
pub open spec fn tests_recorded_passed(s: CheckState) -> bool {
    &&& stage_rank(s.stage) <= stage_rank(StageView::AwaitCargoCheck)
    &&& s.report.checks.len() > 7
    &&& s.report.checks[7] == check_entry("has-tests"@, true, None)
}

proof fn lemma_tests_dir_step(s: CheckState, e: EventView)
    requires
        consistent(s),
        tests_dir_found(s.stage) || tests_recorded_passed(s),
    ensures
        consistent(step(s, e)),
        tests_dir_found(step(s, e).stage) || tests_recorded_passed(step(s, e)),
{
    lemma_step_consistent(s, e);
    lemma_step_moves_forward(s, e);
    let t = step(s, e);
    if tests_dir_found(s.stage) {
        assert(check_names(s.report).len() == s.report.checks.len());
        assert((metadata_checks() + seq!["has-source"@]).len() == 7);
        assert(s.report.checks.len() == 7);
        if !tests_dir_found(t.stage) && t != s {
            assert(t.stage is AwaitCargoCheck);
            assert(t.report.checks.len() == 9);
            assert(t.report.checks[7] == check_entry("has-tests"@, true, None));
        }
    } else {
        if t != s {
            assert(t.report.checks.len() == s.report.checks.len() + 1);
            assert(t.report.checks[7] == s.report.checks[7]);
        }
    }
}

/// Once the probe of the `tests/` directory answers that it exists, the
/// crate counts as tested, whatever the source files listed and read
/// afterwards hold: until the test check is recorded the check keeps that
/// answer, and from then on the report holds `has-tests`, eighth, as passed
/// with no message (so a finished report of a readable manifest does too).
pub proof fn lemma_tests_dir_counts_as_tests(path: Seq<char>, events: Seq<EventView>, k: int)
    requires
        0 <= k < events.len(),
        run(path, events.take(k)).stage is AwaitTestsDir,
        events[k] == EventView::TestsDirProbed(true),
    ensures
        tests_dir_found(run(path, events).stage) || tests_recorded_passed(run(path, events)),
        run(path, events).stage is Done && check_names(run(path, events).report).len() > 1
            ==> run(path, events).report.checks[7] == check_entry("has-tests"@, true, None),
    decreases events.len(),
{
    let prev = events.drop_last();
    if events.len() == k + 1 {
        assert(prev =~= events.take(k));
    } else {
        assert(prev.take(k) =~= events.take(k));
        assert(prev[k] == events[k]);
        lemma_tests_dir_counts_as_tests(path, prev, k);
        lemma_run_check_order(path, prev);
        lemma_tests_dir_step(run(path, prev), events.last());
    }
}

/// While the source files are listed and read, an observation either keeps
/// listing or reading, with the same answer about `tests/` and nothing
/// recorded, or records `has-tests` and then `no-path-only-deps`. The test
/// check passes, with no message, exactly when `tests/` was found, the
/// manifest text holds `#[test]`, `[[test]]` or `[[bench]]`, or the file
/// just read holds `#[test]` (earlier files held none, or the check would
/// have ended there); otherwise it fails with the message that no tests
/// were found.
pub proof fn lemma_tests_step(s: CheckState, e: EventView)
    requires
        consistent(s),
        s.stage is AwaitSourceListing || s.stage is AwaitCandidate,
    ensures
        ({
            let t = step(s, e);
            let found = tests_dir_found(s.stage) || contains(s.content, "#[test]"@) || contains(
                s.content,
                "[[test]]"@,
            ) || contains(s.content, "[[bench]]"@) || (s.stage is AwaitCandidate && match e {
                EventView::CandidateRead(text) => contains(text, "#[test]"@),
                _ => false,
            });
            ||| t.report == s.report && (t.stage is AwaitSourceListing || t.stage is AwaitCandidate)
                && tests_dir_found(t.stage) == tests_dir_found(s.stage)
            ||| t.stage is AwaitCargoCheck && t.report.checks.len() == s.report.checks.len() + 2
                && t.report.checks.take(s.report.checks.len() as int) == s.report.checks
                && t.report.checks[s.report.checks.len() as int] == check_entry(
                "has-tests"@,
                found,
                if found {
                    None
                } else {
                    Some("No tests found (no #[test], tests/ dir, or [[test]])"@)
                },
            ) && t.report.checks[s.report.checks.len() + 1int].check == "no-path-only-deps"@
        }),
{
    let t = step(s, e);
    if t.report != s.report || !(t.stage is AwaitSourceListing || t.stage is AwaitCandidate) {
        assert(t.report.checks.take(s.report.checks.len() as int) =~= s.report.checks);
    }
}

/// When `cargo check` could not be run, its record fails with the reason.
pub proof fn lemma_cargo_check_not_run(s: CheckState, reason: Seq<char>)
    requires
        s.stage is AwaitCargoCheck,
    ensures
        ({
            let t = step(s, EventView::CargoCheckFailedToRun(reason));
            &&& t.report.checks == s.report.checks.push(
                check_entry("cargo-check"@, false, Some("Failed to run cargo check: "@ + reason)),
            )
            &&& t.stage is AwaitReadme
        }),
{
}

/// When `cargo check` ran, one record is appended: `cargo-check`, passed
/// exactly when the command exited with success, whatever its error output
/// holds; a success carries no message, a failure the first line of the
/// error output that mentions an error, or `Unknown error` when none does.
pub proof fn lemma_cargo_check_outcome(s: CheckState, success: bool, stderr: Seq<char>)
    requires
        s.stage is AwaitCargoCheck,
    ensures
        ({
            let t = step(s, EventView::CargoCheckRan { success, stderr });
            let c = t.report.checks.last();
            &&& t.report.checks.len() == s.report.checks.len() + 1
            &&& t.report.checks.drop_last() == s.report.checks
            &&& c.check == "cargo-check"@
            &&& c.passed == success
            &&& (success ==> c.message is None)
            &&& (!success ==> c.message == Some(
                match first_line_with(stderr, "error"@) {
                    Some(l) => l,
                    None => "Unknown error"@,
                },
            ))
            &&& t.stage is AwaitReadme
        }),
{
    let t = step(s, EventView::CargoCheckRan { success, stderr });
    assert(t.report.checks.drop_last() =~= s.report.checks);
}

// ---------------------------------------------------------------------------
// The executable check
// ---------------------------------------------------------------------------

/// Whether a path ends in `.rs`.
fn rust_file(path: &str) -> (rs: bool)
    ensures
        rs == is_rust_file(path@),
{
    let c = crate::text::chars_of(path);
    let n = c.len();
    if n < 3 {
        return false;
    }
    let ghost tail = c@.subrange(n - 3, n as int);
    if c[n - 3] == '.' && c[n - 2] == 'r' && c[n - 1] == 's' {
        assert(tail =~= seq!['.', 'r', 's']);
        return true;
    }
    proof {
        if tail == seq!['.', 'r', 's'] {
            assert(seq!['.', 'r', 's'][0] == '.' && seq!['.', 'r', 's'][1] == 'r' && seq!['.', 'r', 's'][2] == 's');
            assert(tail[0] == c@[n - 3] && tail[1] == c@[n - 2] && tail[2] == c@[n - 1]);
        }
    }
    false
}

/// Adds the directories among the entries to `dirs` and the Rust files
/// among them to `files`.
fn collect_entries(entries: &Vec<SourceEntry>, dirs: &mut Vec<String>, files: &mut Vec<String>)
    ensures
        names_view(final(dirs)@) == names_view(old(dirs)@) + subdirs(entries_view(entries@)),
        names_view(final(files)@) == names_view(old(files)@) + rust_files(entries_view(entries@)),
{
    let ghost d0 = names_view(dirs@);
    let ghost f0 = names_view(files@);
    let ghost ev = entries_view(entries@);
    let n = entries.len();
    let mut i: usize = 0;
    assert(d0 + subdirs(ev.take(0)) =~= d0);
    assert(f0 + rust_files(ev.take(0)) =~= f0);
    while i < n
        invariant
            n == entries.len(),
            ev == entries_view(entries@),
            i <= n,
            names_view(dirs@) == d0 + subdirs(ev.take(i as int)),
            names_view(files@) == f0 + rust_files(ev.take(i as int)),
        decreases n - i,
    {
        assert(ev.take(i + 1).drop_last() =~= ev.take(i as int));
        assert(ev.take(i + 1).last() == (entries@[i as int].path@, entries@[i as int].is_dir));
        let ghost db = names_view(dirs@);
        let ghost fb = names_view(files@);
        let e = &entries[i];
        if e.is_dir {
            dirs.push(e.path.clone());
            assert(names_view(dirs@) =~= db.push(e.path@));
        } else if rust_file(e.path.as_str()) {
            files.push(e.path.clone());
            assert(names_view(files@) =~= fb.push(e.path@));
        }
        i = i + 1;
    }
    assert(ev.take(n as int) =~= ev);
}

impl CrateCheck {
    /// Begins the check of the crate whose manifest is at `cargo_toml_path`.
    pub fn start(cargo_toml_path: &str) -> (started: (CrateCheck, Action))
        ensures
            started.0@ == begin(cargo_toml_path@),
            started.1@ == pending(started.0@),
    {
        let dir = directory_of(cargo_toml_path);
        let name = name_of_directory(dir.as_str());
        let report = CrateReport::new(name, cargo_toml_path.to_owned());
        let check = CrateCheck {
            report,
            dir,
            content: String::new(),
            manifest: None,
            stage: Stage::AwaitManifest,
        };
        assert(check@.report =~= begin(cargo_toml_path@).report);
        let action = check.pending_action();
        (check, action)
    }

    /// The work that the check waits for.
    pub fn pending_action(&self) -> (action: Action)
        ensures
            action@ == pending(self@),
    {
        match &self.stage {
            Stage::AwaitManifest => Action::ReadManifest { path: self.report.path.clone() },
            Stage::AwaitRegistry => Action::QueryRegistry {
                url: concat_text("https://crates.io/api/v1/crates/", self.report.name.as_str()),
            },
            Stage::AwaitSources => Action::ProbeSources {
                lib: path_join(self.dir.as_str(), "src/lib.rs"),
                main: path_join(self.dir.as_str(), "src/main.rs"),
            },
            Stage::AwaitSource { path } => Action::ReadSource { path: path.clone() },
            Stage::AwaitTestsDir => Action::ProbeTestsDir { path: path_join(self.dir.as_str(), "tests") },
            Stage::AwaitSourceListing { dirs, .. } => {
                if dirs.len() > 0 {
                    Action::ListSourceDir { dir: dirs[dirs.len() - 1].clone() }
                } else {
                    Action::Finished
                }
            },
            Stage::AwaitCandidate { candidates, next, .. } => {
                if *next < candidates.len() {
                    Action::ReadTestCandidate { path: candidates[*next].clone() }
                } else {
                    Action::Finished
                }
            },
            Stage::AwaitCargoCheck => Action::RunCargoCheck { dir: self.dir.clone() },
            Stage::AwaitReadme => Action::ProbeReadme { path: path_join(self.dir.as_str(), "README.md") },
            Stage::AwaitLicense => Action::ReadLicense { path: path_join(self.dir.as_str(), "LICENSE") },
            Stage::Done => Action::Finished,
        }
    }

    /// Records the last check and finishes.
    fn finish_with(&mut self, check: &str, passed: bool, message: Option<String>)
        ensures
            final(self)@ == finished(old(self)@, check@, passed, opt_view(message)),
    {
        self.report.add(check, passed, message);
        self.stage = Stage::Done;
    }

    /// Records the name check and the metadata checks that follow it.
    fn answer_registry(&mut self, unique: bool, message: Option<String>)
        ensures
            final(self)@ == registry_answered(old(self)@, unique, opt_view(message)),
    {
        self.report.add("unique-name", unique, message);
        let (d, l, p) = match &self.manifest {
            Some(m) => (
                has_package_field(m, "description"),
                has_package_field(m, "license"),
                has_package_field(m, "repository"),
            ),
            None => (false, false, false),
        };
        self.report.add(
            "has-description",
            d,
            if d {
                None
            } else {
                Some("Missing [package] description".to_owned())
            },
        );
        self.report.add(
            "has-license",
            l,
            if l {
                None
            } else {
                Some("Missing [package] license".to_owned())
            },
        );
        self.report.add(
            "has-repository",
            p,
            if p {
                None
            } else {
                Some("Missing [package] repository".to_owned())
            },
        );
        self.stage = Stage::AwaitSources;
    }

    /// Records the source check.
    fn check_source(&mut self, has: bool)
        ensures
            final(self)@ == source_checked(old(self)@, has),
    {
        self.report.add(
            "has-source",
            has,
            if has {
                None
            } else {
                Some("Source file is empty or only comments".to_owned())
            },
        );
        self.stage = Stage::AwaitTestsDir;
    }

    /// Records the test check and the dependency check that follows it.
    fn check_tests(&mut self, attr: bool, tests_dir: bool)
        ensures
            final(self)@ == tests_checked(old(self)@, attr, tests_dir),
    {
        let section = text_contains(self.content.as_str(), "#[test]") || text_contains(
            self.content.as_str(),
            "[[test]]",
        ) || text_contains(self.content.as_str(), "[[bench]]");
        let found = attr || tests_dir || section;
        self.report.add(
            "has-tests",
            found,
            if found {
                None
            } else {
                Some("No tests found (no #[test], tests/ dir, or [[test]])".to_owned())
            },
        );
        let deps = match &self.manifest {
            Some(m) => path_only_dependency_names(m),
            None => {
                let d: Vec<String> = Vec::new();
                assert(names_view(d@) =~= Seq::<Seq<char>>::empty());
                d
            },
        };
        let ok = deps.len() == 0;
        let message = if ok {
            None
        } else {
            let joined = join_names(&deps, ", ");
            Some(concat_text("Path-only dependencies: ", joined.as_str()))
        };
        self.report.add("no-path-only-deps", ok, message);
        self.stage = Stage::AwaitCargoCheck;
    }

    /// Lists the next directory, or reads the files found, or records that
    /// no test attribute was found.
    fn continue_listing(&mut self, tests_dir: bool, dirs: Vec<String>, files: Vec<String>)
        ensures
            final(self)@ == listing_continues(old(self)@, tests_dir, names_view(dirs@), names_view(files@)),
    {
        if dirs.len() > 0 {
            self.stage = Stage::AwaitSourceListing { tests_dir, dirs, files };
        } else if files.len() == 0 {
            self.check_tests(false, tests_dir);
        } else {
            self.stage = Stage::AwaitCandidate { tests_dir, candidates: files, next: 0 };
        }
    }

    /// Moves on after a candidate that showed no test attribute.
    fn pass_candidate(&mut self, tests_dir: bool, candidates: Vec<String>, next: usize)
        ensures
            final(self)@ == candidate_passed(old(self)@, tests_dir, names_view(candidates@), next as int),
    {
        if candidates.len() > 0 && next < candidates.len() - 1 {
            self.stage = Stage::AwaitCandidate { tests_dir, candidates, next: next + 1 };
        } else {
            self.check_tests(false, tests_dir);
        }
    }

    /// Moves the check on with one observation, and says what work it waits
    /// for next. An observation that does not answer the pending work
    /// changes nothing.
    #[verifier::rlimit(50)]
    pub fn advance(&mut self, event: Event) -> (action: Action)
        ensures
            final(self)@ == step(old(self)@, event@),
            action@ == pending(final(self)@),
    {
        let ghost start = self@;
        let mut stage = Stage::Done;
        std::mem::swap(&mut stage, &mut self.stage);
        match (stage, event) {
            (Stage::AwaitManifest, Event::ManifestUnreadable(err)) => {
                self.finish_with("cargo-toml-readable", false, Some(err));
            },
            (Stage::AwaitManifest, Event::ManifestRead(text)) => {
                match parse_manifest(text.as_str()) {
                    Err(m) => {
                        self.finish_with("cargo-toml-valid", false, Some(m));
                    },
                    Ok(doc) => {
                        let fallback = self.report.name.clone();
                        let name = package_name(&doc, &fallback);
                        let named = has_package_field(&doc, "name");
                        let versioned = has_package_field(&doc, "version");
                        self.report.add(
                            "has-name",
                            named,
                            if named {
                                None
                            } else {
                                Some("Missing [package] name".to_owned())
                            },
                        );
                        self.report.add(
                            "has-version",
                            versioned,
                            if versioned {
                                None
                            } else {
                                Some("Missing [package] version".to_owned())
                            },
                        );
                        self.report.name = name;
                        self.content = text;
                        self.manifest = Some(doc);
                        self.stage = Stage::AwaitRegistry;
                    },
                }
            },
            (Stage::AwaitRegistry, Event::RegistryStatus(code)) => {
                let unique = code != 200;
                let message = if unique {
                    None
                } else {
                    Some(concat_text(self.report.name.as_str(), " already exists on crates.io"))
                };
                self.answer_registry(unique, message);
            },
            (Stage::AwaitRegistry, Event::RegistryClientError(m)) => {
                self.answer_registry(false, Some(concat_text("Check failed: ", m.as_str())));
            },
            (Stage::AwaitRegistry, Event::RegistryRequestError(m)) => {
                self.answer_registry(false, Some(concat_text("Check failed: HTTP error: ", m.as_str())));
            },
            (Stage::AwaitSources, Event::SourcesProbed { lib_exists, main_exists }) => {
                if !lib_exists && !main_exists {
                    self.report.add("has-source", false, Some("No src/lib.rs or src/main.rs found".to_owned()));
                    self.stage = Stage::AwaitTestsDir;
                } else {
                    let path = if lib_exists {
                        path_join(self.dir.as_str(), "src/lib.rs")
                    } else {
                        path_join(self.dir.as_str(), "src/main.rs")
                    };
                    self.stage = Stage::AwaitSource { path };
                }
            },
            (Stage::AwaitSource { .. }, Event::SourceRead(text)) => {
                let has = has_code_line(text.as_str());
                self.check_source(has);
            },
            (Stage::AwaitSource { .. }, Event::SourceUnreadable) => {
                self.check_source(false);
            },
            (Stage::AwaitTestsDir, Event::TestsDirProbed(b)) => {
                let mut dirs: Vec<String> = Vec::new();
                dirs.push(path_join(self.dir.as_str(), "src"));
                let files: Vec<String> = Vec::new();
                assert(names_view(dirs@) =~= seq![std_path_join(self@.dir, "src"@)]);
                assert(names_view(files@) =~= Seq::<Seq<char>>::empty());
                self.stage = Stage::AwaitSourceListing { tests_dir: b, dirs, files };
            },
            (Stage::AwaitSourceListing { tests_dir, dirs, files }, Event::SourceDirListed(entries)) => {
                let mut dirs = dirs;
                let mut files = files;
                let ghost d0 = names_view(dirs@);
                dirs.pop();
                assert(names_view(dirs@) =~= unlisted(d0));
                collect_entries(&entries, &mut dirs, &mut files);
                self.continue_listing(tests_dir, dirs, files);
            },
            (Stage::AwaitSourceListing { tests_dir, dirs, files }, Event::SourceDirMissing) => {
                let mut dirs = dirs;
                let ghost d0 = names_view(dirs@);
                dirs.pop();
                assert(names_view(dirs@) =~= unlisted(d0));
                self.continue_listing(tests_dir, dirs, files);
            },
            (Stage::AwaitCandidate { tests_dir, candidates, next }, Event::CandidateRead(text)) => {
                if text_contains(text.as_str(), "#[test]") {
                    self.check_tests(true, tests_dir);
                } else {
                    self.pass_candidate(tests_dir, candidates, next);
                }
            },
            (Stage::AwaitCandidate { tests_dir, candidates, next }, Event::CandidateUnreadable) => {
                self.pass_candidate(tests_dir, candidates, next);
            },
            (Stage::AwaitCargoCheck, Event::CargoCheckRan { success, stderr }) => {
                let message = if success {
                    None
                } else {
                    match first_line_containing(stderr.as_str(), "error") {
                        Some(l) => Some(l),
                        None => Some("Unknown error".to_owned()),
                    }
                };
                self.report.add("cargo-check", success, message);
                self.stage = Stage::AwaitReadme;
            },
            (Stage::AwaitCargoCheck, Event::CargoCheckFailedToRun(m)) => {
                self.report.add("cargo-check", false, Some(concat_text("Failed to run cargo check: ", m.as_str())));
                self.stage = Stage::AwaitReadme;
            },
            (Stage::AwaitReadme, Event::ReadmeProbed(size)) => {
                let (ok, problem) = match size {
                    Some(n) => (n > 1024, "README.md is not larger than 1KB"),
                    None => (false, "No README.md found"),
                };
                self.report.add("has-readme", ok, if ok { None } else { Some(problem.to_owned()) });
                self.stage = Stage::AwaitLicense;
            },
            (Stage::AwaitLicense, Event::LicenseRead(text)) => {
                let ok = match &self.manifest {
                    Some(m) => match package_field(m, "license") {
                        Some(expr) => license_text_matches(text.as_str(), expr.as_str()),
                        None => false,
                    },
                    None => false,
                };
                self.finish_with(
                    "has-license-file",
                    ok,
                    if ok {
                        None
                    } else {
                        Some("LICENSE does not match the declared license".to_owned())
                    },
                );
            },
            (Stage::AwaitLicense, Event::LicenseMissing) => {
                self.finish_with("has-license-file", false, Some("No LICENSE file found".to_owned()));
            },
            (st, _) => {
                self.stage = st;
            },
        }
        self.pending_action()
    }

    /// The report, once the check is over or whenever the caller stops it.
    pub fn into_report(self) -> (report: CrateReport)
        ensures
            report@ == self@.report,
    {
        self.report
    }
}

} // verus!
