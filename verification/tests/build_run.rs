//! Building targets over a fake graph, store and disk.

use std::collections::HashMap;

use razel_host::build_run::{BuildReply, BuildRequest, BuildRun};
use razel_host::error::{Error, Fault};
use razel_host::path::HostPath;
use razel_host::target::ConfiguredTargetKey;
use razel_host::{run_build, run_build_configured, BuildSession, BuiltOutput};

type Run = BuildRun<u64, String>;
type Reply = BuildReply<u64, String>;

fn place(path: &str) -> HostPath {
    HostPath::new(path.to_string())
}

/// A graph whose targets have outputs with bytes known by digest, and a disk.
#[derive(Default)]
struct Workshop {
    completed: Vec<ConfiguredTargetKey>,
    outputs: Vec<(String, u64)>,
    store: HashMap<u64, Vec<u8>>,
    disk: HashMap<String, Vec<u8>>,
    writes: Vec<String>,
    completion_fails: bool,
    not_a_target: bool,
    derivation_fails: bool,
    no_artifact_at: Option<usize>,
    read_only: bool,
}

impl Workshop {
    fn with_output(mut self, path: &str, digest: u64, bytes: &[u8]) -> Self {
        self.outputs.push((path.to_string(), digest));
        self.store.insert(digest, bytes.to_vec());
        self
    }

    fn answer(&mut self, request: BuildRequest<'_, u64>) -> Reply {
        match request {
            BuildRequest::Complete { target } => {
                self.completed.push(target.clone());
                if self.completion_fails {
                    BuildReply::Failed("build failed".to_string())
                } else {
                    BuildReply::Done
                }
            }
            BuildRequest::Analyze { target } => {
                assert_eq!(Some(target), self.completed.last());
                if self.not_a_target {
                    BuildReply::WrongKind
                } else {
                    BuildReply::Done
                }
            }
            BuildRequest::DeriveOutputs { target } => {
                assert_eq!(Some(target), self.completed.last());
                if self.derivation_fails {
                    BuildReply::Failed("conflict".to_string())
                } else {
                    BuildReply::Outputs(self.outputs.iter().map(|(p, _)| p.clone()).collect())
                }
            }
            BuildRequest::Project { index } => {
                if self.no_artifact_at == Some(index) {
                    BuildReply::WrongKind
                } else {
                    let (exec_path, digest) = self.outputs[index].clone();
                    BuildReply::Artifact { exec_path, digest }
                }
            }
            BuildRequest::Fetch { digest } => match self.store.get(digest) {
                Some(bytes) => BuildReply::Bytes(bytes.clone()),
                None => BuildReply::Failed(format!("no blob {digest}")),
            },
            BuildRequest::Locate { root, rel } => BuildReply::Path(place(&format!("{}/{rel}", root.as_str()))),
            BuildRequest::WriteAtomic { path, bytes } => {
                if self.read_only {
                    BuildReply::Refused("ReadOnly".to_string())
                } else {
                    self.writes.push(path.as_str().to_string());
                    self.disk.insert(path.as_str().to_string(), bytes.clone());
                    BuildReply::Done
                }
            }
        }
    }

    fn finish(&mut self, mut run: Run) -> Result<Vec<BuiltOutput>, Fault<String>> {
        loop {
            let reply = match run.request() {
                Some(request) => self.answer(request),
                None => break,
            };
            run = run.resume(reply);
        }
        run.outcome().expect("nothing is left to ask")
    }

    fn build(&mut self, pattern: &str) -> Result<Vec<BuiltOutput>, Fault<String>> {
        let run = run_build(&place("/w"), pattern).map_err(Fault::Host)?;
        self.finish(run)
    }
}

fn wrong(what: &str, detail: &str) -> Fault<String> {
    Fault::Host(Error::Invalid { what: what.to_string(), detail: detail.to_string() })
}

#[test]
fn build_slice_produces_hello_content() {
    let mut fs = Workshop::default().with_output("hello/out.txt", 1, b"hello\n");
    let session = BuildSession::new_write(place("/w"));
    let run: Run = session.build("//hello:out.txt").expect("a pattern");
    let built = fs.finish(run).expect("build succeeds");
    assert_eq!(built.len(), 1);
    assert_eq!(built[0].exec_path, "hello/out.txt");
    assert_eq!(
        fs.disk.get("/w/hello/out.txt"),
        Some(&b"hello\n".to_vec()),
        "the declared content is written to disk via System::write_atomic"
    );
}

#[test]
fn every_output_is_written_and_listed_by_path() {
    let mut shop = Workshop::default()
        .with_output("p/z.o", 7, b"z")
        .with_output("p/a.o", 8, b"")
        .with_output("p/B.o", 9, b"\x00\xff");
    let built = shop.build("//p:t").unwrap();
    let shown: Vec<(&str, &str)> = built.iter().map(|b| (b.exec_path.as_str(), b.host_path_str())).collect();
    assert_eq!(shown, vec![("p/B.o", "/w/p/B.o"), ("p/a.o", "/w/p/a.o"), ("p/z.o", "/w/p/z.o")]);
    assert_eq!(shop.writes, vec!["/w/p/z.o", "/w/p/a.o", "/w/p/B.o"], "written in the order listed");
    assert_eq!(shop.disk["/w/p/z.o"], b"z".to_vec());
    assert_eq!(shop.disk["/w/p/a.o"], Vec::<u8>::new());
    assert_eq!(shop.disk["/w/p/B.o"], vec![0u8, 255]);
}

#[test]
fn outputs_sort_by_bytes_and_stay_in_order_when_equal() {
    let mut shop = Workshop::default()
        .with_output("é", 1, b"1")
        .with_output("same", 2, b"2")
        .with_output("z", 3, b"3")
        .with_output("same", 4, b"4")
        .with_output("sam", 5, b"5");
    let built = shop.build("//p:t").unwrap();
    let shown: Vec<&str> = built.iter().map(|b| b.exec_path.as_str()).collect();
    assert_eq!(shown, vec!["sam", "same", "same", "z", "é"]);
    assert_eq!(shop.disk["/w/same"], b"4".to_vec(), "the later one was written last");
}

#[test]
fn a_target_without_outputs_writes_nothing() {
    let mut shop = Workshop::default();
    assert!(shop.build("//p:t").unwrap().is_empty());
    assert!(shop.writes.is_empty());
}

#[test]
fn the_target_is_built_in_the_configuration_given() {
    let mut shop = Workshop::default();
    let run: Run = run_build_configured(&place("/w"), "//p:t", Some("host")).unwrap();
    shop.finish(run).unwrap();
    let run: Run = run_build(&place("/w"), "//p:t").unwrap();
    shop.finish(run).unwrap();
    let key = |configuration: Option<&str>| ConfiguredTargetKey {
        package: "p".to_string(),
        name: "t".to_string(),
        configuration: configuration.map(|c| c.to_string()),
    };
    assert_eq!(shop.completed, vec![key(Some("host")), key(None)]);
}

#[test]
fn a_bad_pattern_builds_nothing() {
    let r: Result<Run, Error> = run_build_configured(&place("/w"), "p:t", Some("host"));
    match r {
        Err(Error::Unsupported { what, .. }) => assert_eq!(what, "target pattern"),
        other => panic!("expected Unsupported, got {other:?}"),
    }
}

#[test]
fn a_failed_completion_ends_the_build() {
    let mut shop = Workshop { completion_fails: true, ..Workshop::default().with_output("o", 1, b"x") };
    assert_eq!(shop.build("//p:t").unwrap_err(), Fault::Graph("build failed".to_string()));
    assert!(shop.writes.is_empty());
}

#[test]
fn a_node_that_is_no_target_ends_the_build() {
    let mut shop = Workshop { not_a_target: true, ..Workshop::default() };
    assert_eq!(
        shop.build("//p:t").unwrap_err(),
        wrong("CONFIGURED_TARGET value", "//p:t did not analyze to a ConfiguredTarget")
    );
}

#[test]
fn outputs_that_cannot_be_derived_end_the_build() {
    let mut shop = Workshop { derivation_fails: true, ..Workshop::default() };
    assert_eq!(shop.build("//p:t").unwrap_err(), Fault::Graph("conflict".to_string()));
}

#[test]
fn an_output_without_an_artifact_ends_the_build() {
    let mut shop = Workshop { no_artifact_at: Some(1), ..Workshop::default() }
        .with_output("a", 1, b"a")
        .with_output("b", 2, b"b")
        .with_output("c", 3, b"c");
    assert_eq!(
        shop.build("//p:t").unwrap_err(),
        wrong("ARTIFACT value", "output 'b' did not project to an ArtifactValue")
    );
    assert_eq!(shop.writes, vec!["/w/a"], "what came before was written, nothing after");
}

#[test]
fn missing_bytes_end_the_build() {
    let mut shop = Workshop::default().with_output("a", 1, b"a");
    shop.store.clear();
    assert_eq!(shop.build("//p:t").unwrap_err(), Fault::Graph("no blob 1".to_string()));
    assert!(shop.writes.is_empty());
}

#[test]
fn a_refused_write_ends_the_build() {
    let mut shop = Workshop { read_only: true, ..Workshop::default() }.with_output("d/a", 1, b"a");
    assert_eq!(shop.build("//p:t").unwrap_err(), wrong("emit build output", "d/a: ReadOnly"));
}

#[test]
fn an_output_goes_where_the_graph_says_it_is() {
    // The artifact's own path decides, not the one it was listed under.
    let mut run: Run = run_build(&place("/w"), "//p:t").unwrap();
    let answers = vec![
        BuildReply::Done,
        BuildReply::Done,
        BuildReply::Outputs(vec!["listed".to_string()]),
        BuildReply::Artifact { exec_path: "actual".to_string(), digest: 5 },
        BuildReply::Bytes(b"x".to_vec()),
    ];
    for a in answers {
        run = run.resume(a);
    }
    assert_eq!(run.request(), Some(BuildRequest::Locate { root: &place("/w"), rel: "actual" }));
    run = run.resume(BuildReply::Path(place("/else/where")));
    assert_eq!(
        run.request(),
        Some(BuildRequest::WriteAtomic { path: &place("/else/where"), bytes: &b"x".to_vec() })
    );
    run = run.resume(BuildReply::Done);
    let built = run.outcome().unwrap().unwrap();
    assert_eq!(built, vec![BuiltOutput { exec_path: "actual".to_string(), host_path: place("/else/where") }]);
    assert_eq!(built[0].clone(), built[0]);
}

#[test]
fn an_answer_to_another_question_changes_nothing() {
    let mut run: Run = run_build(&place("/w"), "//p:t").unwrap();
    let key = ConfiguredTargetKey { package: "p".to_string(), name: "t".to_string(), configuration: None };
    run = run.resume(BuildReply::Bytes(b"x".to_vec()));
    assert_eq!(run.request(), Some(BuildRequest::Complete { target: &key }));
    run = run.resume(BuildReply::Done);
    run = run.resume(BuildReply::Done);
    run = run.resume(BuildReply::Done);
    assert_eq!(run.request(), Some(BuildRequest::DeriveOutputs { target: &key }));
    run = run.resume(BuildReply::Outputs(Vec::new()));
    run = run.resume(BuildReply::Failed("late".to_string()));
    assert_eq!(run.outcome(), Some(Ok(Vec::new())));
}
