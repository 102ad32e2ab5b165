use std::path::Path;

use crates_publish_check::models::CrateReport;
use crates_publish_check::pipeline::{Action, CrateCheck, Event, SourceEntry};

const GOOD: &str = "[package]\nname = \"alpha-pkg\"\nversion = \"0.1.0\"\ndescription = \"A crate\"\nlicense = \"MIT\"\nrepository = \"https://example.org/alpha\"\n";

fn names(r: &CrateReport) -> Vec<&str> {
    r.checks.iter().map(|c| c.check.as_str()).collect()
}

fn join(a: &str, b: &str) -> String {
    Path::new(a).join(b).to_string_lossy().into_owned()
}

fn file(path: &str) -> SourceEntry {
    SourceEntry { path: path.to_string(), is_dir: false }
}

fn dir(path: &str) -> SourceEntry {
    SourceEntry { path: path.to_string(), is_dir: true }
}

#[test]
fn start_names_report_after_directory() {
    let (check, action) = CrateCheck::start("/fleet/alpha/Cargo.toml");
    assert_eq!(check.report.name, "alpha");
    assert_eq!(check.dir, "/fleet/alpha");
    assert!(check.report.checks.is_empty());
    assert!(matches!(action, Action::ReadManifest { path } if path == "/fleet/alpha/Cargo.toml"));
}

#[test]
fn start_without_directory_uses_defaults() {
    let (check, _) = CrateCheck::start("Cargo.toml");
    assert_eq!(check.dir, "");
    assert_eq!(check.report.name, "unknown");
    let (check, _) = CrateCheck::start("/");
    assert_eq!(check.dir, ".");
}

#[test]
fn unreadable_manifest_ends_the_check() {
    let (mut check, _) = CrateCheck::start("/fleet/alpha/Cargo.toml");
    let action = check.advance(Event::ManifestUnreadable("No such file".to_string()));
    assert!(matches!(action, Action::Finished));
    let report = check.into_report();
    assert_eq!(names(&report), vec!["cargo-toml-readable"]);
    assert_eq!(report.checks[0].message.as_deref(), Some("No such file"));
    assert!(!report.is_ready());
    assert_eq!(report.name, "alpha");
}

#[test]
fn invalid_manifest_ends_the_check() {
    let (mut check, _) = CrateCheck::start("/fleet/alpha/Cargo.toml");
    let action = check.advance(Event::ManifestRead("[package".to_string()));
    assert!(matches!(action, Action::Finished));
    assert_eq!(names(&check.report), vec!["cargo-toml-valid"]);
    assert!(!check.report.checks[0].passed);
    assert!(check.report.checks[0].message.as_ref().unwrap().len() > 0);
}

#[test]
fn full_check_of_a_ready_crate() {
    let (mut check, _) = CrateCheck::start("/fleet/alpha/Cargo.toml");
    let a = check.advance(Event::ManifestRead(GOOD.to_string()));
    assert!(matches!(&a, Action::QueryRegistry { url } if url == "https://crates.io/api/v1/crates/alpha-pkg"));
    assert_eq!(check.report.name, "alpha-pkg");
    let a = check.advance(Event::RegistryStatus(404));
    match a {
        Action::ProbeSources { lib, main } => {
            assert_eq!(lib, join("/fleet/alpha", "src/lib.rs"));
            assert_eq!(main, join("/fleet/alpha", "src/main.rs"));
        }
        _ => panic!("expected a probe of the sources"),
    }
    let a = check.advance(Event::SourcesProbed { lib_exists: false, main_exists: true });
    assert!(matches!(&a, Action::ReadSource { path } if *path == join("/fleet/alpha", "src/main.rs")));
    let a = check.advance(Event::SourceRead("fn main() {}\n".to_string()));
    assert!(matches!(&a, Action::ProbeTestsDir { path } if *path == join("/fleet/alpha", "tests")));
    let a = check.advance(Event::TestsDirProbed(false));
    assert!(matches!(&a, Action::ListSourceDir { dir } if *dir == join("/fleet/alpha", "src")));
    let a = check.advance(Event::SourceDirListed(vec![file("/fleet/alpha/src/main.rs"), file("/fleet/alpha/src/util.rs"), file("/fleet/alpha/src/notes.txt")]));
    assert!(matches!(&a, Action::ReadTestCandidate { path } if path == "/fleet/alpha/src/main.rs"));
    let a = check.advance(Event::CandidateRead("fn main() {}".to_string()));
    assert!(matches!(&a, Action::ReadTestCandidate { path } if path == "/fleet/alpha/src/util.rs"));
    let a = check.advance(Event::CandidateRead("#[test]\nfn t() {}".to_string()));
    assert!(matches!(&a, Action::RunCargoCheck { dir } if dir == "/fleet/alpha"));
    let a = check.advance(Event::CargoCheckRan { success: true, stderr: "Finished".to_string() });
    assert!(matches!(&a, Action::ProbeReadme { path } if *path == join("/fleet/alpha", "README.md")));
    let a = check.advance(Event::ReadmeProbed(Some(2048)));
    assert!(matches!(&a, Action::ReadLicense { path } if *path == join("/fleet/alpha", "LICENSE")));
    let a = check.advance(Event::LicenseRead("MIT License\n\nCopyright (c) 2024".to_string()));
    assert!(matches!(a, Action::Finished));
    let report = check.into_report();
    assert_eq!(
        names(&report),
        vec!["has-name", "has-version", "unique-name", "has-description", "has-license", "has-repository", "has-source",
            "has-tests", "no-path-only-deps", "cargo-check", "has-readme", "has-license-file"]
    );
    assert!(report.is_ready());
    assert!(report.checks.iter().all(|c| c.message.is_none()));
}

#[test]
fn failing_crate_collects_messages() {
    let manifest = "[package]\nname = \"beta\"\n[dependencies]\nlocal = { path = \"../local\" }\n";
    let (mut check, _) = CrateCheck::start("/fleet/beta/Cargo.toml");
    check.advance(Event::ManifestRead(manifest.to_string()));
    check.advance(Event::RegistryStatus(200));
    check.advance(Event::SourcesProbed { lib_exists: false, main_exists: false });
    check.advance(Event::TestsDirProbed(false));
    check.advance(Event::SourceDirMissing);
    check.advance(Event::CargoCheckRan { success: false, stderr: "  Compiling beta\nerror[E0308]: mismatched types\n".to_string() });
    check.advance(Event::ReadmeProbed(None));
    let a = check.advance(Event::LicenseMissing);
    assert!(matches!(a, Action::Finished));
    let r = check.into_report();
    let msgs: Vec<Option<&str>> = r.checks.iter().map(|c| c.message.as_deref()).collect();
    assert_eq!(
        msgs,
        vec![
            None,
            Some("Missing [package] version"),
            Some("beta already exists on crates.io"),
            Some("Missing [package] description"),
            Some("Missing [package] license"),
            Some("Missing [package] repository"),
            Some("No src/lib.rs or src/main.rs found"),
            Some("No tests found (no #[test], tests/ dir, or [[test]])"),
            Some("Path-only dependencies: local"),
            Some("error[E0308]: mismatched types"),
            Some("No README.md found"),
            Some("No LICENSE file found"),
        ]
    );
    assert_eq!(r.failed_checks().len(), 11);
}

#[test]
fn registry_and_tool_errors_become_messages() {
    let (mut check, _) = CrateCheck::start("/fleet/gamma/Cargo.toml");
    check.advance(Event::ManifestRead("[package]\nname = \"gamma\"\nversion = \"1.0.0\"\n[[test]]\nname = \"t\"\n".to_string()));
    check.advance(Event::RegistryRequestError("connection refused".to_string()));
    check.advance(Event::SourcesProbed { lib_exists: true, main_exists: true });
    check.advance(Event::SourceUnreadable);
    check.advance(Event::TestsDirProbed(false));
    check.advance(Event::SourceDirListed(Vec::new()));
    check.advance(Event::CargoCheckFailedToRun("cargo not found".to_string()));
    check.advance(Event::ReadmeProbed(Some(1024)));
    check.advance(Event::LicenseRead("Apache License\nVersion 2.0".to_string()));
    let r = check.into_report();
    assert!(r.checks[1].passed);
    assert_eq!(r.checks[2].message.as_deref(), Some("Check failed: HTTP error: connection refused"));
    assert_eq!(r.checks[6].message.as_deref(), Some("Source file is empty or only comments"));
    assert!(r.checks[7].passed, "[[test]] in the manifest counts as tests");
    assert_eq!(r.checks[9].message.as_deref(), Some("Failed to run cargo check: cargo not found"));
    assert_eq!(r.checks[10].message.as_deref(), Some("README.md is not larger than 1KB"));
    assert_eq!(r.checks[11].message.as_deref(), Some("LICENSE does not match the declared license"));
    assert_eq!(r.checks.len(), 12);

    let (mut check, _) = CrateCheck::start("/fleet/gamma/Cargo.toml");
    check.advance(Event::ManifestRead("[package]\nname = \"gamma\"\n".to_string()));
    check.advance(Event::RegistryClientError("builder error".to_string()));
    assert_eq!(check.report.checks[2].message.as_deref(), Some("Check failed: builder error"));
}

#[test]
fn cargo_failure_without_error_line() {
    let (mut check, _) = CrateCheck::start("/f/d/Cargo.toml");
    check.advance(Event::ManifestRead("[package]\nname = \"d\"\n".to_string()));
    check.advance(Event::RegistryStatus(404));
    check.advance(Event::SourcesProbed { lib_exists: true, main_exists: false });
    check.advance(Event::SourceRead("// nothing\n".to_string()));
    check.advance(Event::TestsDirProbed(true));
    check.advance(Event::SourceDirListed(vec![file("/f/d/src/lib.rs")]));
    let a = check.advance(Event::CandidateUnreadable);
    assert!(matches!(a, Action::RunCargoCheck { .. }));
    check.advance(Event::CargoCheckRan { success: false, stderr: "killed".to_string() });
    let r = check.into_report();
    assert!(!r.checks[6].passed);
    assert!(r.checks[7].passed, "a tests directory counts as tests");
    assert_eq!(r.checks[9].message.as_deref(), Some("Unknown error"));
}

#[test]
fn missing_name_falls_back_to_directory() {
    let (mut check, _) = CrateCheck::start("/fleet/delta/Cargo.toml");
    let a = check.advance(Event::ManifestRead("[package]\nname = \"\"\nversion = \"0.1.0\"\n".to_string()));
    assert!(matches!(&a, Action::QueryRegistry { url } if url == "https://crates.io/api/v1/crates/"));
    assert_eq!(check.report.name, "");
    assert!(!check.report.checks[0].passed);
    assert_eq!(check.report.checks[0].message.as_deref(), Some("Missing [package] name"));
    assert!(check.report.checks[1].passed);

    let (mut check, _) = CrateCheck::start("/fleet/delta/Cargo.toml");
    let a = check.advance(Event::ManifestRead("[workspace]\n".to_string()));
    assert!(matches!(&a, Action::QueryRegistry { url } if url == "https://crates.io/api/v1/crates/delta"));
    assert_eq!(check.report.name, "delta");
    assert_eq!(check.report.checks[1].message.as_deref(), Some("Missing [package] version"));
}

#[test]
fn unexpected_event_changes_nothing() {
    let (mut check, _) = CrateCheck::start("/fleet/alpha/Cargo.toml");
    let a = check.advance(Event::TestsDirProbed(true));
    assert!(matches!(&a, Action::ReadManifest { path } if path == "/fleet/alpha/Cargo.toml"));
    assert!(check.report.checks.is_empty());
    check.advance(Event::ManifestUnreadable("gone".to_string()));
    let a = check.advance(Event::RegistryStatus(404));
    assert!(matches!(a, Action::Finished));
    assert_eq!(check.report.checks.len(), 1);
}

#[test]
fn license_file_must_name_declared_license() {
    let manifest = "[package]\nname = \"eps\"\nversion = \"1.0.0\"\nlicense = \"MIT OR Apache-2.0\"\ndescription = \"d\"\nrepository = \"https://example.org/eps\"\n";
    for (text, ok) in [
        ("SPDX-License-Identifier: Apache-2.0\nApache License\nVersion 2.0, January 2004", true),
        ("MIT License", true),
        ("Apache License\nVersion 2.0, January 2004", false),
        ("SUBMIT your changes", false),
        ("BSD 3-Clause", false),
    ] {
        let (mut check, _) = CrateCheck::start("/f/eps/Cargo.toml");
        check.advance(Event::ManifestRead(manifest.to_string()));
        check.advance(Event::RegistryStatus(404));
        check.advance(Event::SourcesProbed { lib_exists: true, main_exists: false });
        check.advance(Event::SourceRead("pub fn f() {}".to_string()));
        check.advance(Event::TestsDirProbed(true));
        check.advance(Event::SourceDirMissing);
        check.advance(Event::CargoCheckRan { success: true, stderr: String::new() });
        check.advance(Event::ReadmeProbed(Some(1025)));
        check.advance(Event::LicenseRead(text.to_string()));
        let r = check.into_report();
        assert!(r.checks[10].passed);
        assert_eq!(r.checks[11].passed, ok, "{:?}", text);
        assert_eq!(r.is_ready(), ok);
    }
}

#[test]
fn tests_below_a_subdirectory_of_src_are_found() {
    let (mut check, _) = CrateCheck::start("/fleet/zeta/Cargo.toml");
    check.advance(Event::ManifestRead(GOOD.to_string()));
    check.advance(Event::RegistryStatus(404));
    check.advance(Event::SourcesProbed { lib_exists: true, main_exists: false });
    check.advance(Event::SourceRead("pub mod util;\n".to_string()));
    let a = check.advance(Event::TestsDirProbed(false));
    assert!(matches!(&a, Action::ListSourceDir { dir } if *dir == join("/fleet/zeta", "src")));
    let a = check.advance(Event::SourceDirListed(vec![file("/fleet/zeta/src/lib.rs"), dir("/fleet/zeta/src/util")]));
    assert!(matches!(&a, Action::ListSourceDir { dir } if dir == "/fleet/zeta/src/util"));
    let a = check.advance(Event::SourceDirListed(vec![file("/fleet/zeta/src/util/mod.rs"), dir("/fleet/zeta/src/util/deep")]));
    assert!(matches!(&a, Action::ListSourceDir { dir } if dir == "/fleet/zeta/src/util/deep"));
    let a = check.advance(Event::SourceDirMissing);
    assert!(matches!(&a, Action::ReadTestCandidate { path } if path == "/fleet/zeta/src/lib.rs"));
    let a = check.advance(Event::CandidateRead("pub mod util;\n".to_string()));
    assert!(matches!(&a, Action::ReadTestCandidate { path } if path == "/fleet/zeta/src/util/mod.rs"));
    let a = check.advance(Event::CandidateRead("#[test]\nfn t() {}\n".to_string()));
    assert!(matches!(&a, Action::RunCargoCheck { dir } if dir == "/fleet/zeta"));
    assert!(check.report.checks[7].passed);
    assert_eq!(check.report.checks[7].check, "has-tests");
    assert!(check.report.checks[7].message.is_none());
}

#[test]
fn directories_are_listed_most_recent_first() {
    let (mut check, _) = CrateCheck::start("/w/k/Cargo.toml");
    check.advance(Event::ManifestRead(GOOD.to_string()));
    check.advance(Event::RegistryStatus(404));
    check.advance(Event::SourcesProbed { lib_exists: false, main_exists: false });
    check.advance(Event::TestsDirProbed(false));
    let a = check.advance(Event::SourceDirListed(vec![dir("/w/k/src/a"), dir("/w/k/src/b"), file("/w/k/src/x.rs")]));
    assert!(matches!(&a, Action::ListSourceDir { dir } if dir == "/w/k/src/b"));
    let a = check.advance(Event::SourceDirListed(vec![file("/w/k/src/b/y.rs")]));
    assert!(matches!(&a, Action::ListSourceDir { dir } if dir == "/w/k/src/a"));
    let a = check.advance(Event::SourceDirListed(Vec::new()));
    assert!(matches!(&a, Action::ReadTestCandidate { path } if path == "/w/k/src/x.rs"));
    let a = check.advance(Event::CandidateUnreadable);
    assert!(matches!(&a, Action::ReadTestCandidate { path } if path == "/w/k/src/b/y.rs"));
    let a = check.advance(Event::CandidateRead("fn f() {}".to_string()));
    assert!(matches!(a, Action::RunCargoCheck { .. }));
    assert!(!check.report.checks[7].passed);
}
