//! Finding the workspace root in an in-memory tree.

use razel_host::error::Error;
use razel_host::path::HostPath;
use razel_host::workspace::{
    discover_workspace_root, parent_dir, WORKSPACE_MARKER, WORKSPACE_MARKERS,
};

/// The path of `name` in `dir`.
fn entry(dir: &str, name: &str) -> String {
    if dir.ends_with('/') {
        format!("{dir}{name}")
    } else {
        format!("{dir}/{name}")
    }
}

/// Runs a search from `start` over a tree that holds `files`, noting every path looked at.
fn search_noting(files: &[&str], start: &str, seen: &mut Vec<String>) -> Result<HostPath, Error> {
    let mut search = discover_workspace_root(&HostPath::new(start.to_string()));
    while let Some(probe) = search.request() {
        let path = entry(probe.dir.as_str(), probe.marker);
        let present = files.contains(&path.as_str());
        seen.push(path);
        search = search.resume(present);
    }
    search.outcome().expect("nothing is left to ask")
}

fn search(files: &[&str], start: &str) -> Result<HostPath, Error> {
    search_noting(files, start, &mut Vec::new())
}

#[test]
fn discovers_nearest_marker_from_subdir() {
    let root = search(&["/ws/MODULE.bazel"], "/ws/sub/dir").expect("marker is up the chain");
    assert_eq!(root.as_str(), "/ws", "the walk must climb to the nearest MODULE.bazel, not stay at cwd");
}

#[test]
fn start_dir_that_holds_the_marker_is_the_root() {
    let root = search(&["/ws/MODULE.bazel"], "/ws").expect("start dir holds the marker");
    assert_eq!(root.as_str(), "/ws");
}

#[test]
fn no_marker_anywhere_is_typed_error_not_bare_cwd() {
    match search(&[], "/no/marker/here") {
        Err(Error::NotFound { what, .. }) => assert_eq!(what, "workspace root"),
        other => panic!("a marker-less chain must be a typed NotFound (fail-closed), got {other:?}"),
    }
}

#[test]
fn nearest_marker_wins_when_nested() {
    let files = ["/ws/MODULE.bazel", "/ws/sub/MODULE.bazel"];
    let root = search(&files, "/ws/sub/x").expect("nested marker present");
    assert_eq!(root.as_str(), "/ws/sub", "the NEAREST MODULE.bazel must win over an outer one");
}

#[test]
fn walk_terminates_at_filesystem_root() {
    assert!(search(&[], "/a/b/c/d/e").is_err());
    assert!(search(&[], "/").is_err(), "even a root start terminates");
}

#[test]
fn discovers_workspace_only_marker() {
    let root = search(&["/ws/WORKSPACE"], "/ws/sub/dir").expect("WORKSPACE marks a root");
    assert_eq!(root.as_str(), "/ws", "a WORKSPACE-only dir is a workspace root (any marker, nearest wins)");
}

#[test]
fn discovers_workspace_dot_bazel_marker() {
    let root = search(&["/ws/WORKSPACE.bazel"], "/ws/sub").expect("WORKSPACE.bazel marks a root");
    assert_eq!(root.as_str(), "/ws");
}

#[test]
fn nearest_marker_wins_across_marker_types() {
    let files = ["/ws/MODULE.bazel", "/ws/sub/WORKSPACE"];
    let root = search(&files, "/ws/sub/x").expect("nested marker present");
    assert_eq!(root.as_str(), "/ws/sub", "the NEAREST marker of ANY kind wins over an outer one");
}

#[test]
fn search_looks_for_every_marker_in_every_directory() {
    let mut seen = Vec::new();
    let found = search_noting(&[], "/a/b", &mut seen);
    assert!(found.is_err());
    assert_eq!(
        seen,
        vec![
            "/a/b/MODULE.bazel",
            "/a/b/WORKSPACE.bazel",
            "/a/b/WORKSPACE",
            "/a/MODULE.bazel",
            "/a/WORKSPACE.bazel",
            "/a/WORKSPACE",
            "/MODULE.bazel",
            "/WORKSPACE.bazel",
            "/WORKSPACE",
        ],
    );
}

#[test]
fn search_stops_at_the_first_marker() {
    let mut seen = Vec::new();
    let found = search_noting(&["/a/WORKSPACE.bazel"], "/a/b", &mut seen);
    assert_eq!(found.unwrap().as_str(), "/a");
    assert_eq!(seen.last().map(|s| s.as_str()), Some("/a/WORKSPACE.bazel"));
    assert_eq!(seen.len(), 5);
}

#[test]
fn a_root_at_the_top_of_the_filesystem_is_found() {
    assert_eq!(search(&["/WORKSPACE"], "/a/b").unwrap().as_str(), "/");
    assert_eq!(search(&["/MODULE.bazel"], "/").unwrap().as_str(), "/");
}

#[test]
fn one_trailing_slash_does_not_change_the_parent() {
    assert_eq!(search(&["/a/MODULE.bazel"], "/a/b/").unwrap().as_str(), "/a");
    let mut seen = Vec::new();
    assert!(search_noting(&[], "/a/", &mut seen).is_err());
    assert_eq!(seen.len(), 6, "/a/ and / are looked at, three markers each");
}

#[test]
fn a_relative_start_has_no_parent() {
    let mut seen = Vec::new();
    assert!(search_noting(&[], "here", &mut seen).is_err());
    assert_eq!(seen, vec!["here/MODULE.bazel", "here/WORKSPACE.bazel", "here/WORKSPACE"]);
}

#[test]
fn the_error_names_the_start_directory() {
    let e = search(&[], "/x/y").unwrap_err();
    assert_eq!(
        e,
        Error::NotFound {
            what: "workspace root".to_string(),
            detail: "no MODULE.bazel marker found walking up from '/x/y' to the filesystem root \
                     (a razel build is only supported from within a workspace)"
                .to_string(),
        }
    );
}

#[test]
fn the_primary_marker_comes_first() {
    assert_eq!(WORKSPACE_MARKER, "MODULE.bazel");
    assert_eq!(WORKSPACE_MARKERS, ["MODULE.bazel", "WORKSPACE.bazel", "WORKSPACE"]);
}

#[test]
fn parents_are_shorter_until_there_is_none() {
    let up = |dir: &str| parent_dir(&HostPath::new(dir.to_string())).map(|p| p.as_str().to_string());
    assert_eq!(up("/a/b/c").as_deref(), Some("/a/b"));
    assert_eq!(up("/a").as_deref(), Some("/"));
    assert_eq!(up("/a/b/").as_deref(), Some("/a"));
    assert_eq!(up("a/b").as_deref(), Some("a"));
    for top in ["/", "//", "a", ""] {
        assert_eq!(up(top), None);
    }
    for start in ["/a/b/c", "/", "x", "a//b", "/größe/ß"] {
        let mut dir = start.to_string();
        let mut steps = 1;
        while let Some(above) = up(&dir) {
            assert!(above.len() < dir.len());
            dir = above;
            steps += 1;
        }
        assert!(steps <= start.len(), "{start}");
    }
}
