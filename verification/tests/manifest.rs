use crates_publish_check::manifest::{
    has_package_field, join_names, package_field, package_name, parse_manifest,
    path_only_dependency_names, TomlValue,
};

const MANIFEST: &str = r#"
[package]
name = "alpha-pkg"
version = "0.1.0"
description = ""
license = "MIT"

[dependencies]
serde = "1"
local = { path = "../local" }
pinned = { path = "../pinned", version = "0.2" }
remote = { version = "1", features = ["x"] }

[dev-dependencies]
helper = { path = "../helper" }

[build-dependencies]
gen = { path = "../gen" }
"#;

#[test]
fn parses_a_manifest_into_tables() {
    let doc = parse_manifest(MANIFEST).unwrap();
    match &doc {
        TomlValue::Table(entries) => {
            let keys: Vec<&str> = entries.iter().map(|(k, _)| k.as_str()).collect();
            assert_eq!(keys, vec!["build-dependencies", "dependencies", "dev-dependencies", "package"]);
        }
        _ => panic!("a document is a table"),
    }
    assert!(matches!(doc.get("package"), Some(TomlValue::Table(_))));
    assert!(doc.get("missing").is_none());
}

#[test]
fn parse_error_gives_message() {
    let err = parse_manifest("[package\nname = 1").unwrap_err();
    assert!(!err.is_empty());
    let expected = toml::from_str::<toml::Value>("[package\nname = 1").unwrap_err().to_string();
    assert_eq!(err, expected);
}

#[test]
fn scalar_values_are_kept() {
    let doc = parse_manifest("a = 5\nb = true\nc = 1.5\nd = [1, \"x\"]\ne = 1979-05-27").unwrap();
    assert!(matches!(doc.get("a"), Some(TomlValue::Integer(5))));
    assert!(matches!(doc.get("b"), Some(TomlValue::Boolean(true))));
    assert!(matches!(doc.get("c"), Some(TomlValue::Float)));
    assert!(matches!(doc.get("e"), Some(TomlValue::Datetime)));
    match doc.get("d") {
        Some(TomlValue::Array(items)) => {
            assert_eq!(items.len(), 2);
            assert!(matches!(&items[1], TomlValue::String(s) if s == "x"));
        }
        _ => panic!("an array"),
    }
}

#[test]
fn package_fields_are_read() {
    let doc = parse_manifest(MANIFEST).unwrap();
    assert_eq!(package_field(&doc, "name").map(|s| s.as_str()), Some("alpha-pkg"));
    assert!(has_package_field(&doc, "license"));
    assert!(!has_package_field(&doc, "description"));
    assert!(!has_package_field(&doc, "repository"));
    assert_eq!(package_name(&doc, &"dir".to_string()), "alpha-pkg");
}

#[test]
fn package_name_falls_back() {
    let doc = parse_manifest("[package]\nversion = \"1\"\n").unwrap();
    assert_eq!(package_name(&doc, &"dirname".to_string()), "dirname");
    let doc = parse_manifest("[package]\nname = 7\n").unwrap();
    assert_eq!(package_name(&doc, &"dirname".to_string()), "dirname");
    let doc = parse_manifest("name = \"top\"\n").unwrap();
    assert_eq!(package_name(&doc, &"dirname".to_string()), "dirname");
}

#[test]
fn path_only_dependencies_in_section_order() {
    let doc = parse_manifest(MANIFEST).unwrap();
    let names = path_only_dependency_names(&doc);
    assert_eq!(names, vec!["local".to_string(), "helper".to_string(), "gen".to_string()]);
    assert_eq!(join_names(&names, ", "), "local, helper, gen");
}

#[test]
fn no_path_only_dependencies() {
    let doc = parse_manifest("[dependencies]\na = \"1\"\nb = { version = \"2\", path = \"../b\" }\n").unwrap();
    assert!(path_only_dependency_names(&doc).is_empty());
    let doc = parse_manifest("dependencies = 3\n").unwrap();
    assert!(path_only_dependency_names(&doc).is_empty());
    assert_eq!(join_names(&Vec::new(), ", "), "");
}

#[test]
fn tables_hold_each_key_once() {
    assert!(parse_manifest("[package]\nname = \"a\"\nname = \"b\"\n").is_err());
    assert!(parse_manifest("[package]\nname = \"a\"\n[package]\nversion = \"1\"\n").is_err());
    match parse_manifest("[package]\nname = \"a\"\nversion = \"1\"\n") {
        Ok(TomlValue::Table(top)) => {
            assert_eq!(top.len(), 1);
            match &top[0].1 {
                TomlValue::Table(entries) => {
                    let keys: Vec<&str> = entries.iter().map(|(k, _)| k.as_str()).collect();
                    assert_eq!(keys.len(), 2);
                    assert_ne!(keys[0], keys[1]);
                }
                other => panic!("expected a table, got {:?}", other),
            }
        }
        other => panic!("expected a table, got {:?}", other),
    }
}
