//! What engines and sessions are made of.

use razel_host::assembly::{
    Blobs, EnginePlan, Layer, Platform, RegisteredExecPlatform, Resolver, Strategy,
};
use razel_host::build_run::{BuildRequest, BuildRun};
use razel_host::error::Error;
use razel_host::path::HostPath;
use razel_host::rust_toolchain::{HostAnswer, HostQuery};
use razel_host::target::ConfiguredTargetKey;
use razel_host::{
    build_analysis_engine, build_analysis_engine_with_toolchains, build_execution_engine,
    build_execution_engine_with, build_execution_engine_with_toolchains, build_loading_engine,
    build_source_engine, rust_toolchain, BuildSession,
};

fn names(plan: &EnginePlan) -> Vec<&'static str> {
    plan.layers()
        .iter()
        .map(|l| match l {
            Layer::Source => "source",
            Layer::Load => "load",
            Layer::Package => "package",
            Layer::Analysis => "analysis",
            Layer::Toolchain { .. } => "toolchain",
            Layer::Action { .. } => "action",
        })
        .collect()
}

fn dir(path: &str) -> HostPath {
    HostPath::new(path.to_string())
}

fn host_platform() -> RegisteredExecPlatform {
    RegisteredExecPlatform { name: "host".to_string(), constraints: Vec::new() }
}

/// Starts a rust session on a host whose only compiler is the one `$RUSTC` names, if any.
fn start_rust(rustc: Option<&str>) -> Result<BuildSession, Error> {
    let mut start = BuildSession::new_local_rust(dir("/w"));
    while let Some(query) = start.request() {
        let answer = match query {
            HostQuery::Env("RUSTC") => HostAnswer::Value(rustc.map(|r| r.to_string())),
            HostQuery::Env(_) => HostAnswer::Value(None),
            HostQuery::Stat(path) if Some(path.as_str()) == rustc => HostAnswer::Present,
            HostQuery::Stat(_) => HostAnswer::Absent("NotFound".to_string()),
        };
        start = start.resume(answer);
    }
    start.outcome().expect("nothing is left to ask")
}

#[test]
fn engines_stack_their_layers() {
    assert_eq!(names(&build_source_engine()), vec!["source"]);
    assert_eq!(names(&build_loading_engine()), vec!["source", "load", "package"]);
    assert_eq!(names(&build_analysis_engine()), vec!["source", "load", "package", "analysis", "toolchain"]);
    assert_eq!(
        names(&build_execution_engine(Strategy::Injected)),
        vec!["source", "load", "package", "analysis", "toolchain", "action"]
    );
}

#[test]
fn engines_without_toolchains_know_only_the_host_platform() {
    let expected = Layer::Toolchain { platforms: Vec::new(), host_platform: host_platform() };
    assert_eq!(build_analysis_engine().layers()[4], expected);
    assert_eq!(build_execution_engine(Strategy::Write).layers()[4], expected);
}

#[test]
fn engines_carry_what_they_are_given() {
    let linux = || vec![("p_linux".to_string(), Platform { constraints: vec!["os:linux".to_string()] })];
    let ep = || RegisteredExecPlatform { name: "ep".to_string(), constraints: vec!["cpu".to_string()] };
    let toolchain = Layer::Toolchain { platforms: linux(), host_platform: ep() };
    assert_eq!(build_analysis_engine_with_toolchains(linux(), ep()).layers()[4], toolchain);
    let plan = build_execution_engine_with_toolchains(
        Strategy::Injected,
        Resolver::Injected,
        Blobs::Injected,
        linux(),
        ep(),
    );
    assert_eq!(plan.layers()[4], toolchain);
    assert_eq!(
        plan.layers()[5],
        Layer::Action { strategy: Strategy::Injected, resolver: Resolver::Injected, blobs: Blobs::Injected }
    );
}

#[test]
fn the_default_execution_engine_keeps_bytes_in_memory() {
    assert_eq!(
        build_execution_engine(Strategy::Dispatch),
        build_execution_engine_with(Strategy::Dispatch, Resolver::SameTargetOrSource, Blobs::InMemory)
    );
    assert_ne!(
        build_execution_engine(Strategy::Dispatch),
        build_execution_engine_with(Strategy::Dispatch, Resolver::SameTargetOrSource, Blobs::Injected)
    );
}

#[test]
fn sessions_differ_in_how_they_run_actions() {
    let write = BuildSession::new_write(dir("/w"));
    let local = BuildSession::new_local(dir("/w"));
    assert_eq!(*write.engine(), build_execution_engine(Strategy::Write));
    assert_eq!(*local.engine(), build_execution_engine(Strategy::Dispatch));
    for session in [write, local] {
        assert_eq!(session.configuration(), None);
        assert!(session.toolchains().is_empty());
    }
}

#[test]
fn a_rust_session_registers_the_compiler_found() {
    let session = start_rust(Some("/x/rustc")).unwrap();
    assert_eq!(session.configuration(), Some("host"));
    assert_eq!(*session.toolchains(), vec![rust_toolchain(&dir("/x/rustc"))]);
    assert_eq!(
        session.engine().layers()[4],
        Layer::Toolchain {
            platforms: vec![("host".to_string(), Platform { constraints: Vec::new() })],
            host_platform: host_platform(),
        }
    );
    assert_eq!(
        session.engine().layers()[5],
        Layer::Action {
            strategy: Strategy::Dispatch,
            resolver: Resolver::SameTargetOrSource,
            blobs: Blobs::InMemory,
        }
    );
}

#[test]
fn there_is_no_rust_session_without_a_compiler() {
    match start_rust(None) {
        Err(Error::NotFound { what, .. }) => assert_eq!(what, "rustc"),
        other => panic!("expected NotFound, got {other:?}"),
    }
}

#[test]
fn sessions_build_in_their_configuration() {
    let plain = BuildSession::new_local(dir("/w"));
    let rust = start_rust(Some("/x/rustc")).unwrap();
    for (session, configuration) in [(plain, None), (rust, Some("host".to_string()))] {
        let run: BuildRun<u64, String> = session.build("//hi:hi").unwrap();
        let target = ConfiguredTargetKey { package: "hi".to_string(), name: "hi".to_string(), configuration };
        assert_eq!(run.request(), Some(BuildRequest::Complete { target: &target }));
        let bad: Result<BuildRun<u64, String>, Error> = session.build("hi");
        assert!(matches!(bad, Err(Error::Unsupported { .. })));
    }
}
