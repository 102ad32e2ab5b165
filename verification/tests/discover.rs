use crates_publish_check::discover::{is_package_manifest, select_manifests, FoundManifest};
use std::path::PathBuf;

fn found(path: &str, content: &str) -> FoundManifest {
    FoundManifest { path: path.to_string(), content: content.to_string() }
}

#[test]
fn package_manifest_detection() {
    assert!(is_package_manifest("[package]\nname = \"a\"\n"));
    assert!(!is_package_manifest("[workspace]\nmembers = []\n"));
}

#[test]
fn selects_and_sorts_package_manifests() {
    let list = vec![
        found("/fleet/zeta/Cargo.toml", "[package]\nname = \"zeta\""),
        found("/fleet/ws/Cargo.toml", "[workspace]\n"),
        found("/fleet/alpha/Cargo.toml", "[package]\nname = \"alpha\""),
        found("/fleet/Mid/Cargo.toml", "[package]\n"),
    ];
    let root = Some(found("/fleet/Cargo.toml", "[package]\nname = \"root\""));
    let crates = select_manifests(list, root);
    let mut expected: Vec<PathBuf> = ["/fleet/zeta/Cargo.toml", "/fleet/alpha/Cargo.toml", "/fleet/Mid/Cargo.toml", "/fleet/Cargo.toml"]
        .iter()
        .map(PathBuf::from)
        .collect();
    expected.sort();
    let expected: Vec<String> = expected.iter().map(|p| p.to_string_lossy().into_owned()).collect();
    assert_eq!(crates, expected);
    assert_eq!(crates[0], "/fleet/Cargo.toml");
}

#[test]
fn root_without_package_or_duplicate_is_skipped() {
    let crates = select_manifests(vec![found("/f/a/Cargo.toml", "[package]")], Some(found("/f/Cargo.toml", "[workspace]")));
    assert_eq!(crates, vec!["/f/a/Cargo.toml".to_string()]);
    let crates = select_manifests(vec![found("/f/Cargo.toml", "[package]")], Some(found("/f/./Cargo.toml", "[package]")));
    assert_eq!(crates, vec!["/f/Cargo.toml".to_string()]);
    let crates = select_manifests(Vec::new(), None);
    assert!(crates.is_empty());
}
