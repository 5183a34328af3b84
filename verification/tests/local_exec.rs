//! Running actions on a fake host.

use std::collections::HashMap;

use razel_host::local_exec::{
    Dispatched, ExecError, InputArtifact, LocalSpawn, OutputArtifact, ProcessSpec, SpawnRequest,
    SpawnResult, SpawnStatus, SysReply, SysRequest, WRITE_FILE_MNEMONIC,
};
use razel_host::path::HostPath;
use razel_host::{DispatchStrategy, ExecRootPolicy, LocalSpawnStrategy};

fn spot(path: &str) -> HostPath {
    HostPath::new(path.to_string())
}

/// A host with a disk. Its programs write the bytes in `produces` and then copy, in the exec root,
/// the file `copies` names first to the one it names second.
struct Machine {
    disk: HashMap<String, Vec<u8>>,
    log: Vec<String>,
    ran: Vec<ProcessSpec>,
    exit: i32,
    produces: Vec<(String, Vec<u8>)>,
    copies: Option<(&'static str, &'static str)>,
    fail_on: Option<&'static str>,
    bare_paths: bool,
}

impl Machine {
    fn new() -> Machine {
        Machine {
            disk: HashMap::new(),
            log: Vec::new(),
            ran: Vec::new(),
            exit: 0,
            produces: Vec::new(),
            copies: None,
            fail_on: None,
            bare_paths: false,
        }
    }

    fn producing(mut self, rel: &str, bytes: &[u8]) -> Machine {
        self.produces.push((rel.to_string(), bytes.to_vec()));
        self
    }

    fn failing_on(mut self, what: &'static str) -> Machine {
        self.fail_on = Some(what);
        self
    }

    fn done_or_failed(&self, what: &str) -> SysReply {
        if self.fail_on == Some(what) {
            SysReply::Failed("Denied".to_string())
        } else {
            SysReply::Done
        }
    }

    fn answer(&mut self, request: SysRequest) -> SysReply {
        match request {
            SysRequest::TempDir => {
                self.log.push("temp".to_string());
                if self.fail_on == Some("temp") {
                    SysReply::Failed("Full".to_string())
                } else {
                    SysReply::Path(spot("/tmp/x"))
                }
            }
            SysRequest::Locate { root, rel } => {
                if self.bare_paths {
                    SysReply::Path(spot(&rel))
                } else {
                    SysReply::Path(spot(&format!("{}/{rel}", root.as_str())))
                }
            }
            SysRequest::CreateDirAll(dir) => {
                self.log.push(format!("mkdir {}", dir.as_str()));
                self.done_or_failed("mkdir")
            }
            SysRequest::WriteAtomic { path, bytes } => {
                self.log.push(format!("write {}", path.as_str()));
                self.disk.insert(path.as_str().to_string(), bytes);
                self.done_or_failed("write")
            }
            SysRequest::Spawn(spec) => {
                self.log.push(format!("spawn {}", spec.program.as_str()));
                for (rel, bytes) in &self.produces {
                    self.disk.insert(format!("{}/{rel}", spec.cwd.as_str()), bytes.clone());
                }
                if let Some((from, to)) = self.copies {
                    let cwd = spec.cwd.as_str();
                    match self.disk.get(&format!("{cwd}/{from}")).cloned() {
                        Some(bytes) => {
                            self.disk.insert(format!("{cwd}/{to}"), bytes);
                        }
                        None => self.exit = 1,
                    }
                }
                self.ran.push(spec);
                if self.fail_on == Some("spawn") {
                    SysReply::Failed("NoExec".to_string())
                } else {
                    SysReply::Exit(self.exit)
                }
            }
            SysRequest::Read(path) => {
                self.log.push(format!("read {}", path.as_str()));
                match self.disk.get(path.as_str()) {
                    Some(bytes) => SysReply::Bytes(bytes.clone()),
                    None => SysReply::Failed("NotFound".to_string()),
                }
            }
            SysRequest::RemoveDirAll(dir) => {
                self.log.push(format!("remove {}", dir.as_str()));
                self.done_or_failed("remove")
            }
        }
    }

    fn finish(&mut self, mut run: LocalSpawn) -> Result<SpawnResult, ExecError> {
        while let Some(request) = run.request() {
            let reply = self.answer(request);
            run = run.resume(reply);
        }
        run.outcome().expect("nothing is left to ask")
    }

    fn removed(&self) -> bool {
        self.log.iter().any(|l| l.starts_with("remove"))
    }
}

fn words(items: &[&str]) -> Vec<String> {
    items.iter().map(|s| s.to_string()).collect()
}

fn genrule() -> SpawnRequest {
    SpawnRequest {
        mnemonic: "Genrule".to_string(),
        argv: words(&["/bin/sh", "-c", "/bin/cat genrule/in.txt > genrule/out.txt"]),
        env: vec![("LANG".to_string(), "C".to_string())],
        inputs: vec![InputArtifact { path: "genrule/in.txt".to_string(), content: b"in".to_vec() }],
        outputs: words(&["genrule/out.txt"]),
    }
}

fn failed(detail: &str) -> ExecError {
    ExecError::SpawnFailed { mnemonic: "Genrule".to_string(), detail: detail.to_string() }
}

#[test]
fn genrule_runs_a_real_subprocess() {
    let in_v1: &[u8] = b"hello from a real source file\n";
    let mut req = genrule();
    req.inputs[0].content = in_v1.to_vec();
    let mut m = Machine::new();
    m.copies = Some(("genrule/in.txt", "genrule/out.txt"));
    let result = m.finish(LocalSpawnStrategy::new().spawn(req)).expect("the genrule builds");
    assert_eq!(m.ran.len(), 1, "the genrule action spawned exactly once (cold)");
    assert_eq!(result.outputs.len(), 1);
    assert_eq!(result.outputs[0].path, "genrule/out.txt");
    assert_eq!(result.outputs[0].content, in_v1.to_vec(), "cat in > out, so out == in");
    assert_eq!(result.status.code, 0, "the subprocess exited zero");
}

#[test]
fn a_spawn_stages_runs_collects_and_cleans_up() {
    let mut m = Machine::new().producing("genrule/out.txt", b"made");
    let result = m.finish(LocalSpawnStrategy::new().spawn(genrule())).unwrap();
    assert_eq!(
        result,
        SpawnResult {
            status: SpawnStatus { code: 0 },
            outputs: vec![OutputArtifact { path: "genrule/out.txt".to_string(), content: b"made".to_vec() }],
        }
    );
    assert_eq!(
        m.log,
        vec![
            "temp",
            "mkdir /tmp/x/genrule",
            "write /tmp/x/genrule/in.txt",
            "mkdir /tmp/x/genrule",
            "spawn /bin/sh",
            "read /tmp/x/genrule/out.txt",
            "remove /tmp/x",
        ]
    );
    assert_eq!(m.disk["/tmp/x/genrule/in.txt"], b"in".to_vec());
}

#[test]
fn the_program_runs_in_the_exec_root_with_exactly_its_environment() {
    let mut m = Machine::new().producing("genrule/out.txt", b"");
    m.finish(LocalSpawnStrategy::new().spawn(genrule())).unwrap();
    assert_eq!(
        m.ran,
        vec![ProcessSpec {
            program: spot("/bin/sh"),
            args: words(&["-c", "/bin/cat genrule/in.txt > genrule/out.txt"]),
            env: vec![("LANG".to_string(), "C".to_string())],
            cwd: spot("/tmp/x"),
        }]
    );
}

#[test]
fn outputs_come_sorted_by_path() {
    let mut req = genrule();
    req.inputs.clear();
    req.outputs = words(&["z", "a/b", "a-b", "ä"]);
    let mut m = Machine::new().producing("z", b"1").producing("a/b", b"2").producing("a-b", b"3").producing("ä", b"4");
    let result = m.finish(LocalSpawnStrategy::new().spawn(req)).unwrap();
    let shown: Vec<(&str, &[u8])> = result.outputs.iter().map(|o| (o.path.as_str(), o.content.as_slice())).collect();
    assert_eq!(shown, vec![("a-b", &b"3"[..]), ("a/b", &b"2"[..]), ("z", &b"1"[..]), ("ä", &b"4"[..])]);
}

#[test]
fn an_empty_command_line_asks_nothing() {
    let mut req = genrule();
    req.argv.clear();
    let mut m = Machine::new();
    let e = m.finish(LocalSpawnStrategy::new().spawn(req)).unwrap_err();
    assert_eq!(e, failed("empty argv: no program to run"));
    assert!(m.log.is_empty());
}

#[test]
fn a_missing_exec_root_fails() {
    let mut m = Machine::new().failing_on("temp");
    let e = m.finish(LocalSpawnStrategy::new().spawn(genrule())).unwrap_err();
    assert_eq!(e, failed("allocate exec root: Full"));
    assert_eq!(m.log, vec!["temp"]);
    let policy = ExecRootPolicy { keep_on_failure: false };
    let mut m = Machine::new().failing_on("temp");
    m.finish(LocalSpawnStrategy::with_policy(policy).spawn(genrule())).unwrap_err();
    assert_eq!(m.log, vec!["temp"], "there is no root to remove");
}

#[test]
fn a_failed_staging_step_names_what_it_was_about() {
    let mut m = Machine::new().failing_on("mkdir");
    let e = m.finish(LocalSpawnStrategy::new().spawn(genrule())).unwrap_err();
    assert_eq!(e, failed("stage input '/tmp/x/genrule/in.txt': Denied"), "the host path, for a directory");
    let mut m = Machine::new().failing_on("write");
    let e = m.finish(LocalSpawnStrategy::new().spawn(genrule())).unwrap_err();
    assert_eq!(e, failed("stage input 'genrule/in.txt': Denied"), "the exec-relative path, for a file");
    assert!(m.ran.is_empty());
    let mut req = genrule();
    req.inputs.clear();
    let mut m = Machine::new().failing_on("mkdir");
    let e = m.finish(LocalSpawnStrategy::new().spawn(req)).unwrap_err();
    assert_eq!(e, failed("create output dir '/tmp/x/genrule/out.txt': Denied"));
}

#[test]
fn a_program_that_cannot_run_fails() {
    let mut m = Machine::new().failing_on("spawn");
    let e = m.finish(LocalSpawnStrategy::new().spawn(genrule())).unwrap_err();
    assert_eq!(e, failed("NoExec"));
}

#[test]
fn a_nonzero_exit_fails_even_with_the_output_there() {
    for (code, shown) in [(1, "1"), (127, "127"), (-1, "-1"), (i32::MIN, "-2147483648"), (i32::MAX, "2147483647")] {
        let mut m = Machine::new().producing("genrule/out.txt", b"partial");
        m.exit = code;
        let e = m.finish(LocalSpawnStrategy::new().spawn(genrule())).unwrap_err();
        assert_eq!(e, failed(&format!("subprocess exited with code {shown}")));
        assert!(!m.log.iter().any(|l| l.starts_with("read")), "nothing is collected");
    }
}

#[test]
fn an_output_that_was_not_produced_fails() {
    let mut m = Machine::new();
    let e = m.finish(LocalSpawnStrategy::new().spawn(genrule())).unwrap_err();
    assert_eq!(
        e,
        ExecError::OutputNotProduced { mnemonic: "Genrule".to_string(), path: "genrule/out.txt".to_string() }
    );
}

#[test]
fn failed_roots_are_kept_unless_the_policy_says_otherwise() {
    let mut kept = Machine::new();
    kept.finish(LocalSpawnStrategy::new().spawn(genrule())).unwrap_err();
    assert!(!kept.removed());
    let policy = ExecRootPolicy { keep_on_failure: false };
    let mut removed = Machine::new();
    removed.finish(LocalSpawnStrategy::with_policy(policy).spawn(genrule())).unwrap_err();
    assert_eq!(removed.log.last().map(|s| s.as_str()), Some("remove /tmp/x"));
    assert!(ExecRootPolicy::default().keep_on_failure);
}

#[test]
fn a_failed_cleanup_does_not_spoil_a_success() {
    let mut m = Machine::new().producing("genrule/out.txt", b"made").failing_on("remove");
    assert!(m.finish(LocalSpawnStrategy::new().spawn(genrule())).is_ok());
    assert!(m.removed());
}

#[test]
fn a_place_without_a_directory_needs_none_made() {
    let mut req = genrule();
    req.inputs[0].path = "in".to_string();
    req.outputs = words(&["out"]);
    let mut m = Machine::new();
    m.bare_paths = true;
    m.disk.insert("out".to_string(), b"o".to_vec());
    m.finish(LocalSpawnStrategy::new().spawn(req)).unwrap();
    assert_eq!(m.log, vec!["temp", "write in", "spawn /bin/sh", "read out", "remove /tmp/x"]);
}

#[test]
fn actions_are_dispatched_by_mnemonic() {
    assert_eq!(WRITE_FILE_MNEMONIC, "WriteFile");
    let mut req = genrule();
    req.mnemonic = "WriteFile".to_string();
    match DispatchStrategy::new().spawn(req) {
        Dispatched::Write(w) => assert_eq!(w.outputs, words(&["genrule/out.txt"])),
        Dispatched::Local(_) => panic!("a file-writing action needs no process"),
    }
    for other in ["Genrule", "writefile", "WriteFile ", ""] {
        let mut req = genrule();
        req.mnemonic = other.to_string();
        match DispatchStrategy::new().spawn(req) {
            Dispatched::Local(run) => {
                let mut m = Machine::new().producing("genrule/out.txt", b"x");
                assert!(m.finish(run).is_ok());
                assert_eq!(m.ran.len(), 1);
            }
            Dispatched::Write(_) => panic!("'{other}' runs in a process"),
        }
    }
}
