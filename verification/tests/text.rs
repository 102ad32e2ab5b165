use crates_publish_check::text::{
    license_text_matches,
    chars_of, first_line_containing, first_line_of, has_code_line, is_whitespace_char, text_contains,
    trimmed_chars,
};

#[test]
fn contains_finds_patterns() {
    assert!(text_contains("fn main() {}\n#[test]\nfn t() {}", "#[test]"));
    assert!(!text_contains("fn main() {}", "#[test]"));
    assert!(text_contains("abc", ""));
    assert!(!text_contains("ab", "abc"));
    assert!(text_contains("[package]\nname = \"x\"", "[package]"));
}

#[test]
fn whitespace_matches_std() {
    for c in ['\t', '\n', '\u{b}', '\u{c}', '\r', ' ', '\u{85}', '\u{a0}', '\u{1680}', '\u{2000}',
        '\u{200a}', '\u{2028}', '\u{2029}', '\u{202f}', '\u{205f}', '\u{3000}', 'a', '/', '\u{200b}',
        '\u{feff}', '\u{180e}', 'é']
    {
        assert_eq!(is_whitespace_char(c), c.is_whitespace(), "{:?}", c);
    }
}

#[test]
fn trim_matches_std() {
    for s in ["", "   ", "  a b  ", "\u{3000}x\u{a0}", "\n\n// c\n\n", "abc"] {
        let t: String = trimmed_chars(s).into_iter().collect();
        assert_eq!(t, s.trim());
        assert_eq!(chars_of(s), s.chars().collect::<Vec<char>>());
    }
}

#[test]
fn code_lines_are_detected() {
    assert!(!has_code_line(""));
    assert!(!has_code_line("   \n\t\n"));
    assert!(!has_code_line("// only a comment\n// another\n"));
    assert!(has_code_line("// comment\npub fn f() {}\n"));
    assert!(!has_code_line("\n\n   // indented comment, trimmed first\n"));
    assert!(!has_code_line("// a\n    // indented later\n"));
    assert!(!has_code_line("//! crate docs\n    // indented note\n"));
    assert!(!has_code_line("// a\n \t \n\t// b\n"));
    assert!(has_code_line("// a\n    let x = 1;\n"));
    assert!(!has_code_line("// a\r\n\r\n// b"));
    assert!(has_code_line("x"));
}

fn std_has_code(s: &str) -> bool {
    s.lines().any(|line| {
        let line = line.trim_start();
        !line.is_empty() && !line.starts_with("//")
    })
}

#[test]
fn code_lines_agree_with_std() {
    for s in ["// a\n\nb", "/\n", "//", " / / ", "a\r\n// b", "\r\n\r\n", "// x\r\ny\r\n", "\u{2028}//c",
        "  // a\n\t// b", "\u{3000}// c\n  d"]
    {
        assert_eq!(has_code_line(s), std_has_code(s), "{:?}", s);
    }
}

#[test]
fn first_error_line_is_found() {
    let stderr = "    Checking foo v0.1.0\nerror[E0425]: cannot find value `x`\nerror: aborting\n";
    assert_eq!(
        first_line_containing(stderr, "error").as_deref(),
        Some("error[E0425]: cannot find value `x`")
    );
    assert_eq!(first_line_containing("warning: unused\n", "error"), None);
    assert_eq!(first_line_containing("", "error"), None);
    assert_eq!(first_line_containing("a\r\nmy error\r\nb", "error").as_deref(), Some("my error"));
}

#[test]
fn first_error_line_agrees_with_std() {
    for s in ["x\nerror\n", "error\r\n", "\n\nerror here", "no", "a\rerror\r"] {
        let expected = s.lines().find(|l| l.contains("error")).map(|l| l.to_string());
        assert_eq!(first_line_containing(s, "error"), expected, "{:?}", s);
    }
}

#[test]
fn first_line_of_output() {
    assert_eq!(first_line_of("Packaging x\nVerifying x\n"), "Packaging x");
    assert_eq!(first_line_of(""), "");
    assert_eq!(first_line_of("\nsecond"), "");
    assert_eq!(first_line_of("one\r\ntwo"), "one");
    for s in ["a\nb", "", "\n", "x\r\n"] {
        assert_eq!(first_line_of(s), s.lines().next().unwrap_or(""));
    }
}

#[test]
fn license_text_matching() {
    let mit = "MIT License\n\nPermission is hereby granted";
    let apache = "Apache License\nVersion 2.0, January 2004";
    let tagged = "SPDX-License-Identifier: Apache-2.0\n\nApache License";
    assert!(license_text_matches(mit, "MIT"));
    assert!(license_text_matches(mit, "MIT OR Apache-2.0"));
    assert!(license_text_matches(tagged, "MIT OR Apache-2.0"));
    assert!(license_text_matches(tagged, "MIT/Apache-2.0"));
    assert!(license_text_matches(mit, "(Apache-2.0 OR MIT)"));
    assert!(!license_text_matches(apache, "Apache-2.0"));
    assert!(!license_text_matches(apache, "MIT"));
    assert!(!license_text_matches("Please SUBMIT changes", "MIT"));
    assert!(!license_text_matches("GNU LGPL-2.1 text", "GPL-3.0"));
    assert!(!license_text_matches("licensed as LGPL-3.0", "GPL-3.0"));
    assert!(!license_text_matches("GPL-3.0+ only", "GPL-3.0"));
    assert!(license_text_matches("under GPL-3.0.", "GPL-3.0"));
    assert!(license_text_matches("(MIT)", "MIT"));
    assert!(!license_text_matches("OR AND WITH", "GPL-3.0 OR ISC"));
    assert!(!license_text_matches("anything", ""));
    assert!(!license_text_matches("OR", "MIT OR ISC"));
    assert!(!license_text_matches("x", "-x"));
}
