//! Following registered toolchains through a fake build graph.

use razel_host::error::{Error, Fault};
use razel_host::module_config::{resolve_module_toolchains, ModuleFileValue};
use razel_host::module_toolchains::{GraphAnswer, GraphQuery};
use razel_host::path::HostPath;
use razel_host::rust_toolchain::{
    rust_toolchain, BzlValue, ProviderId, ProviderInstance, RegisteredToolchain, ToolchainType,
    HOST_CONFIG, RUST_TOOLCHAIN_INFO, RUST_TOOLCHAIN_TYPE,
};
use razel_host::target::ConfiguredTargetKey;

type Answer = GraphAnswer<ProviderInstance, String>;
type Rows = Result<Vec<RegisteredToolchain<ProviderInstance>>, Fault<String>>;

fn registering(labels: &[&str]) -> ModuleFileValue {
    ModuleFileValue {
        repos: Vec::new(),
        registered_toolchains: labels.iter().map(|l| l.to_string()).collect(),
    }
}

fn text(s: &str) -> BzlValue {
    BzlValue::Str(s.to_string())
}

fn attrs(pairs: Vec<(&str, BzlValue)>) -> Answer {
    GraphAnswer::Declared(Some(pairs.into_iter().map(|(n, v)| (n.to_string(), v)).collect()))
}

fn provides(rustc: &str) -> ProviderInstance {
    ProviderInstance {
        provider: ProviderId(RUST_TOOLCHAIN_INFO.to_string()),
        fields: vec![("rustc".to_string(), text(rustc))],
    }
}

/// Resolves `labels` with the given answers, in order.
fn resolve(labels: &[&str], answers: Vec<Answer>) -> (Rows, Vec<GraphQuery>) {
    let mut answers = answers.into_iter();
    let mut asked = Vec::new();
    let mut run = resolve_module_toolchains(&registering(labels), HOST_CONFIG);
    while let Some(query) = run.request() {
        asked.push(query);
        run = run.resume(answers.next().expect("an answer for every question"));
    }
    assert!(answers.next().is_none(), "every answer was asked for");
    (run.outcome().expect("nothing is left to ask"), asked)
}

fn failure(labels: &[&str], answers: Vec<Answer>) -> Fault<String> {
    resolve(labels, answers).0.unwrap_err()
}

fn invalid(what: &str, detail: &str) -> Fault<String> {
    Fault::Host(Error::Invalid { what: what.to_string(), detail: detail.to_string() })
}

fn host_rust_attrs() -> Answer {
    attrs(vec![("toolchain", text(":host_rust_impl")), ("toolchain_type", text(":toolchain_type"))])
}

#[test]
fn a_registered_toolchain_gives_the_injected_row() {
    let (rows, asked) = resolve(
        &["//rules/rust:host_rust"],
        vec![host_rust_attrs(), GraphAnswer::Returned(Some(provides("/x/rustc")))],
    );
    assert_eq!(
        asked,
        vec![
            GraphQuery::Declaration { package: "rules/rust".to_string(), name: "host_rust".to_string() },
            GraphQuery::Provider {
                target: ConfiguredTargetKey {
                    package: "rules/rust".to_string(),
                    name: "host_rust_impl".to_string(),
                    configuration: Some("host".to_string()),
                },
                provider: "ToolchainInfo",
            },
        ]
    );
    assert_eq!(rows.unwrap(), vec![rust_toolchain(&HostPath::new("/x/rustc".to_string()))]);
}

#[test]
fn rows_keep_the_order_of_registration() {
    let (rows, asked) = resolve(
        &["//b:t", "//a:t"],
        vec![
            attrs(vec![("toolchain_type", text("//t:b")), ("toolchain", text("//impl:b"))]),
            GraphAnswer::Returned(Some(provides("/b"))),
            attrs(vec![("toolchain_type", text(RUST_TOOLCHAIN_TYPE)), ("toolchain", text(":a"))]),
            GraphAnswer::Returned(Some(provides("/a"))),
        ],
    );
    let rows = rows.unwrap();
    assert_eq!(rows.len(), 2);
    assert_eq!(asked.len(), 4);
    assert_eq!(rows[0].toolchain_type, ToolchainType("//t:b".to_string()));
    assert_eq!(rows[0].info, provides("/b"));
    assert_eq!(rows[1].toolchain_type, ToolchainType(RUST_TOOLCHAIN_TYPE.to_string()));
    assert_eq!(rows[1].info, provides("/a"));
    assert!(rows.iter().all(|r| r.target_compatible_with.is_empty() && r.exec_compatible_with.is_empty()));
}

#[test]
fn no_registration_asks_nothing() {
    let (rows, asked) = resolve(&[], Vec::new());
    assert!(rows.unwrap().is_empty());
    assert!(asked.is_empty());
}

#[test]
fn a_bad_registered_label_fails() {
    assert_eq!(
        failure(&["rules:x"], Vec::new()),
        invalid("toolchain label", "expected '//pkg:name', got 'rules:x'")
    );
    assert_eq!(
        failure(&["//p:t", "//q"], vec![
            attrs(vec![("toolchain_type", text(":y")), ("toolchain", text(":i"))]),
            GraphAnswer::Returned(Some(provides("/a"))),
        ]),
        invalid("toolchain label", "expected '//pkg:name', got '//q'"),
        "a later bad label leaves no rows"
    );
}

#[test]
fn a_node_that_is_no_package_fails() {
    assert_eq!(
        failure(&["//p:t"], vec![GraphAnswer::WrongKind]),
        invalid("PACKAGE value", "package 'p' did not analyze to a Package")
    );
}

#[test]
fn a_target_that_is_not_declared_fails() {
    assert_eq!(
        failure(&["//p:t"], vec![GraphAnswer::Declared(None)]),
        Fault::Host(Error::NotFound {
            what: "toolchain target".to_string(),
            detail: "//p:t (from register_toolchains)".to_string(),
        })
    );
}

#[test]
fn a_missing_attribute_fails_and_the_type_comes_first() {
    assert_eq!(
        failure(&["//p:t"], vec![attrs(vec![])]),
        invalid("toolchain target", "//p:t missing 'toolchain_type'")
    );
    assert_eq!(
        failure(&["//p:t"], vec![attrs(vec![("toolchain_type", text(":y"))])]),
        invalid("toolchain target", "//p:t missing 'toolchain'")
    );
    assert_eq!(
        failure(&["//p:t"], vec![attrs(vec![("toolchain_type", BzlValue::Other), ("toolchain", text(":i"))])]),
        invalid("toolchain target", "//p:t missing 'toolchain_type'"),
        "an attribute that is no string is as good as missing"
    );
}

#[test]
fn the_first_attribute_of_a_name_counts() {
    assert_eq!(
        failure(&["//p:t"], vec![attrs(vec![
            ("toolchain_type", BzlValue::Other),
            ("toolchain_type", text(":y")),
            ("toolchain", text(":i")),
        ])]),
        invalid("toolchain target", "//p:t missing 'toolchain_type'")
    );
    let (rows, _) = resolve(&["//p:t"], vec![
        attrs(vec![
            ("toolchain_type", text(":first")),
            ("toolchain_type", text(":second")),
            ("toolchain", text(":i")),
        ]),
        GraphAnswer::Returned(Some(provides("/a"))),
    ]);
    assert_eq!(rows.unwrap()[0].toolchain_type, ToolchainType("//p:first".to_string()));
}

#[test]
fn a_bad_implementation_label_fails() {
    assert_eq!(
        failure(&["//p:t"], vec![attrs(vec![("toolchain_type", text(":y")), ("toolchain", text("impl"))])]),
        invalid("toolchain label", "expected '//pkg:name', got 'impl'")
    );
}

#[test]
fn an_implementation_of_another_kind_fails() {
    assert_eq!(
        failure(&["//rules/rust:host_rust"], vec![host_rust_attrs(), GraphAnswer::WrongKind]),
        invalid(
            "CONFIGURED_TARGET value",
            "//rules/rust:host_rust_impl did not analyze to a ConfiguredTarget"
        )
    );
}

#[test]
fn an_implementation_without_the_provider_fails() {
    assert_eq!(
        failure(&["//rules/rust:host_rust"], vec![host_rust_attrs(), GraphAnswer::Returned(None)]),
        invalid(
            "toolchain impl",
            "//rules/rust:host_rust_impl did not return platform_common.ToolchainInfo"
        )
    );
}

#[test]
fn failures_of_the_graph_are_passed_on() {
    assert_eq!(failure(&["//p:t"], vec![GraphAnswer::Failed("cycle".to_string())]), Fault::Graph("cycle".to_string()));
    assert_eq!(
        failure(&["//rules/rust:host_rust"], vec![host_rust_attrs(), GraphAnswer::Failed("boom".to_string())]),
        Fault::Graph("boom".to_string())
    );
}
