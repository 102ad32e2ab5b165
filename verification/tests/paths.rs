use crates_publish_check::paths::{directory_of, label_of_manifest, name_of_directory};

#[test]
fn directory_and_name() {
    assert_eq!(directory_of("/fleet/alpha/Cargo.toml"), "/fleet/alpha");
    assert_eq!(directory_of("Cargo.toml"), "");
    assert_eq!(directory_of("/"), ".");
    assert_eq!(directory_of(""), ".");
    assert_eq!(name_of_directory("/fleet/alpha"), "alpha");
    assert_eq!(name_of_directory(""), "unknown");
    assert_eq!(name_of_directory("/fleet/.."), "unknown");
}

#[test]
fn progress_labels() {
    assert_eq!(label_of_manifest("/fleet/alpha/Cargo.toml"), "alpha");
    assert_eq!(label_of_manifest("Cargo.toml"), "");
    assert_eq!(label_of_manifest("/"), "");
}
