//! Finding the rust compiler on an in-memory host, and the row that carries it.

use std::collections::HashMap;

use razel_host::error::Error;
use razel_host::path::HostPath;
use razel_host::rust_toolchain::{
    discover_rustc, no_rustc, rust_toolchain, BzlValue, HostAnswer, HostQuery, ProviderId,
    ToolchainType, HOST_CONFIG, RUSTC_FIELD, RUST_TOOLCHAIN_INFO, RUST_TOOLCHAIN_TYPE,
};

#[derive(Default)]
struct ToolHost {
    env: HashMap<String, String>,
    files: Vec<String>,
    asked: Vec<String>,
}

impl ToolHost {
    fn with_env(mut self, name: &str, value: &str) -> Self {
        self.env.insert(name.to_string(), value.to_string());
        self
    }

    fn with_file(mut self, path: &str) -> Self {
        self.files.push(path.to_string());
        self
    }

    fn discover(&mut self) -> Result<HostPath, Error> {
        let mut search = discover_rustc();
        while let Some(query) = search.request() {
            let answer = match query {
                HostQuery::Env(name) => {
                    self.asked.push(format!("${name}"));
                    HostAnswer::Value(self.env.get(name).cloned())
                }
                HostQuery::Stat(path) => {
                    self.asked.push(path.as_str().to_string());
                    if self.files.iter().any(|f| f == path.as_str()) {
                        HostAnswer::Present
                    } else {
                        HostAnswer::Absent("NotFound".to_string())
                    }
                }
            };
            search = search.resume(answer);
        }
        search.outcome().expect("nothing is left to ask")
    }
}

#[test]
fn discovery_probes_then_fails_closed() {
    match ToolHost::default().discover() {
        Err(Error::NotFound { what, .. }) => assert_eq!(what, "rustc"),
        other => panic!("no discoverable rustc must be a typed NotFound, got {other:?}"),
    }
    let mut sys = ToolHost::default().with_file("/usr/local/bin/rustc");
    assert_eq!(sys.discover().unwrap().as_str(), "/usr/local/bin/rustc");
    let mut sys = ToolHost::default()
        .with_env("HOME", "/Users/u")
        .with_file("/Users/u/.cargo/bin/rustc")
        .with_file("/usr/local/bin/rustc");
    assert_eq!(sys.discover().unwrap().as_str(), "/Users/u/.cargo/bin/rustc");
}

#[test]
fn explicit_rustc_override_wins_or_fails_closed() {
    let mut sys = ToolHost::default()
        .with_env("RUSTC", "/opt/rust/bin/rustc")
        .with_file("/opt/rust/bin/rustc")
        .with_file("/usr/local/bin/rustc");
    assert_eq!(sys.discover().unwrap().as_str(), "/opt/rust/bin/rustc");
    let mut sys = ToolHost::default().with_env("RUSTC", "/nope/rustc").with_file("/usr/local/bin/rustc");
    assert!(
        matches!(sys.discover(), Err(Error::Invalid { .. })),
        "a set-but-missing $RUSTC must fail closed, not silently probe"
    );
}

#[test]
fn rust_toolchain_row_carries_the_rustc_path() {
    let row = rust_toolchain(&HostPath::new("/x/rustc".to_string()));
    assert_eq!(row.toolchain_type, ToolchainType(RUST_TOOLCHAIN_TYPE.into()));
    assert!(row.target_compatible_with.is_empty() && row.exec_compatible_with.is_empty());
    assert_eq!(row.info.provider, ProviderId(RUST_TOOLCHAIN_INFO.into()));
    assert_eq!(row.info.fields, vec![(RUSTC_FIELD.to_string(), BzlValue::Str("/x/rustc".into()))]);
}

#[test]
fn an_override_is_the_only_thing_looked_at() {
    let mut sys = ToolHost::default().with_env("RUSTC", "/r").with_env("HOME", "/h").with_file("/r");
    assert_eq!(sys.discover().unwrap().as_str(), "/r");
    assert_eq!(sys.asked, vec!["$RUSTC", "/r"]);
}

#[test]
fn places_are_tried_in_order() {
    let mut sys = ToolHost::default().with_env("HOME", "/h").with_file("/usr/bin/rustc");
    assert_eq!(sys.discover().unwrap().as_str(), "/usr/bin/rustc");
    assert_eq!(
        sys.asked,
        vec!["$RUSTC", "$HOME", "/h/.cargo/bin/rustc", "/usr/local/bin/rustc", "/usr/bin/rustc"]
    );
    let mut sys = ToolHost::default().with_file("/usr/bin/rustc").with_file("/usr/local/bin/rustc");
    assert_eq!(sys.discover().unwrap().as_str(), "/usr/local/bin/rustc");
}

#[test]
fn a_missing_override_says_why() {
    let e = ToolHost::default().with_env("RUSTC", "/nope/rustc").discover().unwrap_err();
    assert_eq!(
        e,
        Error::Invalid {
            what: "RUSTC override".to_string(),
            detail: "$RUSTC='/nope/rustc' does not stat: NotFound \
                     (an explicit override never falls through to probing)"
                .to_string(),
        }
    );
}

#[test]
fn a_host_without_a_compiler_is_told_where_was_looked() {
    let e = ToolHost::default().with_env("HOME", "/h").discover().unwrap_err();
    assert_eq!(
        e,
        Error::NotFound {
            what: "rustc".to_string(),
            detail: "no rustc found: $RUSTC unset and none of \
                     [\"/h/.cargo/bin/rustc\", \"/usr/local/bin/rustc\", \"/usr/bin/rustc\"] \
                     stat (install rust or set $RUSTC)"
                .to_string(),
        }
    );
}

#[test]
fn places_are_listed_with_their_quotes_escaped() {
    let e = ToolHost::default().with_env("HOME", "/a\"b").discover().unwrap_err();
    match e {
        Error::NotFound { detail, .. } => assert!(detail.contains("\"/a\\\"b/.cargo/bin/rustc\""), "{detail}"),
        other => panic!("expected NotFound, got {other:?}"),
    }
}

#[test]
fn the_list_stands_in_the_error_as_given() {
    assert_eq!(
        no_rustc("[here]"),
        Error::NotFound {
            what: "rustc".to_string(),
            detail: "no rustc found: $RUSTC unset and none of [here] stat (install rust or set $RUSTC)".to_string(),
        }
    );
}

#[test]
fn the_names_of_the_rust_toolchain() {
    assert_eq!(RUST_TOOLCHAIN_TYPE, "//rules/rust:toolchain_type");
    assert_eq!(RUST_TOOLCHAIN_INFO, "ToolchainInfo");
    assert_eq!(RUSTC_FIELD, "rustc");
    assert_eq!(HOST_CONFIG, "host");
}
