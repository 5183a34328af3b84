//! Target patterns.

use razel_host::error::Error;
use razel_host::parse_target_pattern;
use razel_host::target::ConfiguredTargetKey;

fn key(package: &str, name: &str) -> ConfiguredTargetKey {
    ConfiguredTargetKey { package: package.to_string(), name: name.to_string(), configuration: None }
}

fn unsupported(detail: &str) -> Error {
    Error::Unsupported { what: "target pattern".to_string(), detail: detail.to_string() }
}

#[test]
fn absolute_labels_are_patterns() {
    assert_eq!(parse_target_pattern("//hello:out.txt").unwrap(), key("hello", "out.txt"));
    assert_eq!(parse_target_pattern("//:x").unwrap(), key("", "x"));
    assert_eq!(parse_target_pattern("//a/b:c").unwrap(), key("a/b", "c"));
    assert_eq!(parse_target_pattern("//a:b:c").unwrap(), key("a", "b:c"));
    assert_eq!(parse_target_pattern("//größe:ß").unwrap(), key("größe", "ß"));
    assert_eq!(parse_target_pattern("//a..b:c.. d").unwrap(), key("a..b", "c.. d"));
}

#[test]
fn relative_and_bare_patterns_are_unsupported() {
    for bad in ["hello", ":x", "/a:b", "", "a//b:c"] {
        assert_eq!(
            parse_target_pattern(bad).unwrap_err(),
            unsupported(&format!(
                "expected an absolute label '//pkg:name', got '{bad}' (v1 has no relative or bare-name patterns)"
            ))
        );
    }
}

#[test]
fn patterns_need_a_name() {
    for bad in ["//a", "//a:", "//", "//:"] {
        assert_eq!(
            parse_target_pattern(bad).unwrap_err(),
            unsupported(&format!("expected '//pkg:name', got '{bad}'"))
        );
    }
}

#[test]
fn recursive_patterns_are_unsupported() {
    for bad in ["//...:all", "//a/...:x", "//a:...", "//a:b....c"] {
        assert_eq!(
            parse_target_pattern(bad).unwrap_err(),
            unsupported(&format!("recursive patterns ('...') are not supported in v1: '{bad}'"))
        );
    }
}

#[test]
fn a_recursive_pattern_without_a_name_lacks_the_name_first() {
    assert_eq!(parse_target_pattern("//a/...").unwrap_err(), unsupported("expected '//pkg:name', got '//a/...'"));
}
