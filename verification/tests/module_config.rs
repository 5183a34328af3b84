//! Reading the module file, and mounting the repositories it declares.

use razel_host::error::Error;
use razel_host::module_config::{
    abs_label, label_to_root_rel, module_external_repos, read_module_file, resolve_repo_root,
    split_label, workspace_repos, ExternalRepo, ModuleFileValue, ModuleReply, ModuleRequest, RepoDecl,
    MODULE_FILE,
};
use razel_host::path::{HostPath, RootRelativePath};

fn at(path: &str) -> HostPath {
    HostPath::new(path.to_string())
}

fn decl(name: &str, path: &str, build_file: Option<&str>) -> RepoDecl {
    RepoDecl {
        name: name.to_string(),
        path: path.to_string(),
        build_file: build_file.map(|l| l.to_string()),
    }
}

fn module_of(repos: Vec<RepoDecl>) -> ModuleFileValue {
    ModuleFileValue { repos, registered_toolchains: Vec::new() }
}

#[test]
fn repo_root_resolves_uplevel_path() {
    let root = at("/Users/u/limbo/razel-dev");
    assert_eq!(
        resolve_repo_root(&root, "../taut-dev/taut-shape-rs/crates/taut-shape").as_str(),
        "/Users/u/limbo/taut-dev/taut-shape-rs/crates/taut-shape"
    );
}

#[test]
fn build_file_label_to_root_rel() {
    assert_eq!(
        label_to_root_rel("//overlays/taut-shape:BUILD.bazel").unwrap(),
        RootRelativePath("overlays/taut-shape/BUILD.bazel".into())
    );
    assert_eq!(label_to_root_rel("//:BUILD.bazel").unwrap(), RootRelativePath("BUILD.bazel".into()));
    assert!(label_to_root_rel("overlays:BUILD.bazel").is_err(), "a non-absolute build_file label fails closed");
}

#[test]
fn module_bazel_mounts_rules_rust_own_builds() {
    let root = "/tmp/razel-t20".to_string();
    let module = module_of(vec![
        decl("rules_rust", "rules-rust", None),
        decl("taut-shape", "ext/taut-shape", Some("//overlays/taut-shape:BUILD.bazel")),
    ]);
    let repos = module_external_repos(&module, &HostPath::new(root)).expect("repos map");

    let (_, rr) = repos.iter().find(|(n, _)| n == "rules_rust").expect("rules_rust is mounted");
    assert!(rr.build_file.is_none(), "an own-BUILD repo (no build_file) mounts with build_file = None (read AS-IS)");
    assert!(rr.root.as_str().ends_with("/rules-rust"), "its root resolves under the workspace: {}", rr.root.as_str());

    let (_, ts) = repos.iter().find(|(n, _)| n == "taut-shape").expect("taut-shape is mounted");
    assert_eq!(
        ts.build_file,
        Some(RootRelativePath("overlays/taut-shape/BUILD.bazel".into())),
        "a BUILD-less repo keeps its main-root overlay (build_file = Some) — both modes on one surface"
    );
}

#[test]
fn mounts_keep_their_order_and_their_places() {
    let module = module_of(vec![decl("b", "../b", None), decl("a", "x/y", None), decl("b", ".", None)]);
    let repos = module_external_repos(&module, &at("/w/s")).unwrap();
    let shown: Vec<(&str, &str)> = repos.iter().map(|(n, r)| (n.as_str(), r.root.as_str())).collect();
    assert_eq!(shown, vec![("b", "/w/b"), ("a", "/w/s/x/y"), ("b", "/w/s")]);
}

#[test]
fn the_first_bad_build_file_decides() {
    let module = module_of(vec![
        decl("ok", "ok", Some("//p:f")),
        decl("no_colon", "n", Some("//p")),
        decl("relative", "r", Some("p:f")),
    ]);
    assert_eq!(
        module_external_repos(&module, &at("/w")).unwrap_err(),
        Error::Invalid {
            what: "build_file label".to_string(),
            detail: "expected '//pkg:file', got '//p'".to_string(),
        }
    );
    let module = module_of(vec![decl("relative", "r", Some("p:f"))]);
    assert_eq!(
        module_external_repos(&module, &at("/w")).unwrap_err(),
        Error::Invalid {
            what: "build_file label".to_string(),
            detail: "expected '//pkg:BUILD.bazel', got 'p:f'".to_string(),
        }
    );
}

#[test]
fn a_walk_ignores_idle_steps_and_stops_at_the_top() {
    assert_eq!(resolve_repo_root(&at("/w"), "").as_str(), "/w");
    assert_eq!(resolve_repo_root(&at("/w///"), ".").as_str(), "/w");
    assert_eq!(resolve_repo_root(&at("/w"), "a//./b/").as_str(), "/w/a/b");
    assert_eq!(resolve_repo_root(&at("/w"), "a/../b").as_str(), "/w/b");
    assert_eq!(resolve_repo_root(&at("/w"), "../../../x").as_str(), "/x");
    assert_eq!(resolve_repo_root(&at("/"), "x").as_str(), "/x");
    assert_eq!(resolve_repo_root(&at("rel"), "../x").as_str(), "rel/x");
    assert_eq!(resolve_repo_root(&at("/w"), "...").as_str(), "/w/...");
}

#[test]
fn a_walk_to_the_top_of_the_filesystem_ends_at_the_slash() {
    assert_eq!(resolve_repo_root(&at("/a"), "..").as_str(), "/");
    assert_eq!(resolve_repo_root(&at("/"), "").as_str(), "/");
    assert_eq!(resolve_repo_root(&at("/"), ".").as_str(), "/");
    assert_eq!(resolve_repo_root(&at("///"), "x/../..").as_str(), "/");
    assert_eq!(resolve_repo_root(&at("/a/b"), "../../../..").as_str(), "/");
    let module = module_of(vec![decl("up", "..", None)]);
    assert_eq!(module_external_repos(&module, &at("/a")).unwrap()[0].1.root.as_str(), "/");
    assert_eq!(mount_with("/a", Ok(b"m".to_vec()), module).unwrap()[0].1.root.as_str(), "/");
}

#[test]
fn build_file_labels_cut_at_the_first_colon() {
    assert_eq!(label_to_root_rel("//p:a:b").unwrap(), RootRelativePath("p/a:b".into()));
    assert_eq!(label_to_root_rel("//p:").unwrap(), RootRelativePath("p/".into()));
}

#[test]
fn toolchain_labels_split_or_fail() {
    assert_eq!(split_label("//rules/rust:host_rust").unwrap(), ("rules/rust".to_string(), "host_rust".to_string()));
    assert_eq!(split_label("//:x").unwrap(), (String::new(), "x".to_string()));
    for bad in ["rules:x", "//rules", ":x", ""] {
        assert_eq!(
            split_label(bad).unwrap_err(),
            Error::Invalid {
                what: "toolchain label".to_string(),
                detail: format!("expected '//pkg:name', got '{bad}'"),
            }
        );
    }
}

#[test]
fn labels_are_made_absolute_once() {
    assert_eq!(abs_label("rules/rust", ":impl"), "//rules/rust:impl");
    assert_eq!(abs_label("rules/rust", "//other:impl"), "//other:impl");
    assert_eq!(abs_label("p", "bare"), "bare");
    assert_eq!(abs_label("elsewhere", &abs_label("p", ":x")), "//p:x");
}

fn read_with(
    root: &str,
    bytes: Result<Vec<u8>, &str>,
    value: Result<ModuleFileValue, &str>,
    asked: &mut Vec<ModuleRequest>,
) -> Result<ModuleFileValue, Error> {
    let mut value = Some(value);
    let mut read = read_module_file(&at(root));
    while let Some(request) = read.request() {
        let reply = match &request {
            ModuleRequest::Read(_) => match &bytes {
                Ok(b) => ModuleReply::Bytes(b.clone()),
                Err(why) => ModuleReply::Failed(why.to_string()),
            },
            ModuleRequest::Evaluate(_) => match value.take().expect("evaluated once") {
                Ok(m) => ModuleReply::Module(m),
                Err(why) => ModuleReply::Failed(why.to_string()),
            },
        };
        asked.push(request);
        read = read.resume(reply);
    }
    read.outcome().expect("nothing is left to ask")
}

#[test]
fn the_module_file_is_read_and_evaluated() {
    let mut asked = Vec::new();
    let source = "module(name = \"größe\")\n";
    let module = read_with(
        "/w",
        Ok(source.as_bytes().to_vec()),
        Ok(module_of(vec![decl("a", "b", None)])),
        &mut asked,
    );
    assert_eq!(module.unwrap(), module_of(vec![decl("a", "b", None)]));
    assert_eq!(asked, vec![ModuleRequest::Read(at("/w/MODULE.bazel")), ModuleRequest::Evaluate(source.to_string())]);
    assert_eq!(MODULE_FILE, "MODULE.bazel");
}

#[test]
fn a_module_file_that_cannot_be_read_is_an_error() {
    let mut asked = Vec::new();
    let e = read_with("/w", Err("Denied"), Err("unused"), &mut asked).unwrap_err();
    assert_eq!(
        e,
        Error::Invalid { what: "read MODULE.bazel".to_string(), detail: "/w/MODULE.bazel: Denied".to_string() }
    );
    assert_eq!(asked.len(), 1, "nothing is evaluated");
}

#[test]
fn a_module_file_that_is_not_utf8_is_an_error() {
    for bytes in [vec![0xffu8], vec![b'a', 0xc3], vec![0xed, 0xa0, 0x80], vec![0xc0, 0x80]] {
        let mut asked = Vec::new();
        let e = read_with("/w", Ok(bytes), Err("unused"), &mut asked).unwrap_err();
        assert_eq!(e, Error::Invalid { what: "MODULE.bazel".to_string(), detail: "non-utf8".to_string() });
        assert_eq!(asked.len(), 1, "nothing is evaluated");
    }
}

#[test]
fn a_module_file_that_does_not_evaluate_is_an_error() {
    let e = read_with("/w", Ok(b"oops".to_vec()), Err("Syntax"), &mut Vec::new()).unwrap_err();
    assert_eq!(e, Error::Invalid { what: "evaluate MODULE.bazel".to_string(), detail: "Syntax".to_string() });
}

fn mount_with(
    root: &str,
    bytes: Result<Vec<u8>, &str>,
    module: ModuleFileValue,
) -> Result<Vec<(String, ExternalRepo)>, Error> {
    let mut module = Some(module);
    let mut mounting = workspace_repos(&at(root));
    while let Some(request) = mounting.request() {
        let reply = match request {
            ModuleRequest::Read(path) => {
                assert_eq!(path.as_str(), format!("{root}/MODULE.bazel"));
                match &bytes {
                    Ok(b) => ModuleReply::Bytes(b.clone()),
                    Err(why) => ModuleReply::Failed(why.to_string()),
                }
            }
            ModuleRequest::Evaluate(_) => ModuleReply::Module(module.take().expect("evaluated once")),
        };
        mounting = mounting.resume(reply);
    }
    mounting.outcome().expect("nothing is left to ask")
}

#[test]
fn workspace_repos_are_mounted_below_the_root_read() {
    let repos = mount_with("/w", Ok(b"m".to_vec()), module_of(vec![decl("r", "../r", Some("//o:B"))])).unwrap();
    assert_eq!(
        repos,
        vec![(
            "r".to_string(),
            ExternalRepo { root: at("/r"), build_file: Some(RootRelativePath("o/B".into())) }
        )]
    );
}

#[test]
fn workspace_repos_pass_errors_on() {
    let e = mount_with("/w", Err("Denied"), module_of(Vec::new())).unwrap_err();
    assert_eq!(
        e,
        Error::Invalid { what: "read MODULE.bazel".to_string(), detail: "/w/MODULE.bazel: Denied".to_string() }
    );
    let e = mount_with("/w", Ok(b"m".to_vec()), module_of(vec![decl("r", "r", Some("B"))])).unwrap_err();
    assert_eq!(
        e,
        Error::Invalid {
            what: "build_file label".to_string(),
            detail: "expected '//pkg:BUILD.bazel', got 'B'".to_string(),
        }
    );
}
