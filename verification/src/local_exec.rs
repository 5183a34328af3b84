//! Running an action as a local subprocess.
//!
//! A [`LocalSpawnStrategy`] allocates a fresh exec root for each spawn, stages every input
//! under it, makes the directories of the declared outputs, runs the program with the exec
//! root as its working directory and reads each declared output back. It is fail-closed: a
//! failed allocation, a failed staging step, a nonzero exit and an output that was not
//! produced are all typed errors, and no output is ever made up. The exec root is removed
//! after a success, and left in place after a failure if the [`ExecRootPolicy`] says so.
//!
//! The strategy touches nothing itself. [`LocalSpawn`] is one spawn in progress: it asks for
//! one operation of the host at a time and moves on with the answer.
//!
//! [`DispatchStrategy`] serves builds that mix file-writing actions with subprocesses.

use vstd::prelude::*;

use crate::order::{by_name, sort_by_name, views, Named, NamedText};
use crate::path::HostPath;
use crate::protocol::Protocol;
use crate::text::{copy_texts, decimal, decimal_i32, find_last, same_text, texts};

verus! {

/// The mnemonic of the actions that only write a file.
pub const WRITE_FILE_MNEMONIC: &'static str = "WriteFile";

/// What becomes of an exec root once its spawn is over. It is always removed on success.
#[derive(Clone, Copy, Debug)]
pub struct ExecRootPolicy {
    /// Leave the exec root on disk when the spawn fails.
    pub keep_on_failure: bool,
}

impl Default for ExecRootPolicy {
    fn default() -> (r: Self)
        ensures
            r.keep_on_failure,
    {
        ExecRootPolicy { keep_on_failure: true }
    }
}

/// A file by its exec-relative path, with its bytes.
#[verifier::ext_equal]
pub struct ArtifactView {
    pub path: Seq<char>,
    pub content: Seq<u8>,
}

impl Named for ArtifactView {
    open spec fn name(self) -> Seq<char> {
        self.path
    }
}

/// An input of a spawn.
#[derive(Debug, PartialEq, Eq)]
pub struct InputArtifact {
    pub path: String,
    pub content: Vec<u8>,
}

impl View for InputArtifact {
    type V = ArtifactView;

    open spec fn view(&self) -> ArtifactView {
        ArtifactView { path: self.path@, content: self.content@ }
    }
}

/// An output of a spawn.
#[derive(Debug, PartialEq, Eq)]
pub struct OutputArtifact {
    pub path: String,
    pub content: Vec<u8>,
}

impl View for OutputArtifact {
    type V = ArtifactView;

    open spec fn view(&self) -> ArtifactView {
        ArtifactView { path: self.path@, content: self.content@ }
    }
}

impl NamedText for OutputArtifact {
    fn name_text(&self) -> (r: &str) {
        self.path.as_str()
    }
}

/// Name and value pairs, each by its characters.
pub open spec fn pair_texts(v: Seq<(String, String)>) -> Seq<(Seq<char>, Seq<char>)> {
    v.map_values(|p: (String, String)| (p.0@, p.1@))
}

/// An action ready to run: its kind, its command line, its whole environment, its inputs and
/// the outputs it declares, the latter two by exec-relative path.
#[derive(Debug, PartialEq, Eq)]
pub struct SpawnRequest {
    pub mnemonic: String,
    pub argv: Vec<String>,
    pub env: Vec<(String, String)>,
    pub inputs: Vec<InputArtifact>,
    pub outputs: Vec<String>,
}

/// [`SpawnRequest`] over characters and bytes.
#[verifier::ext_equal]
pub struct SpawnRequestView {
    pub mnemonic: Seq<char>,
    pub argv: Seq<Seq<char>>,
    pub env: Seq<(Seq<char>, Seq<char>)>,
    pub inputs: Seq<ArtifactView>,
    pub outputs: Seq<Seq<char>>,
}

impl View for SpawnRequest {
    type V = SpawnRequestView;

    open spec fn view(&self) -> SpawnRequestView {
        SpawnRequestView {
            mnemonic: self.mnemonic@,
            argv: texts(self.argv@),
            env: pair_texts(self.env@),
            inputs: views(self.inputs@),
            outputs: texts(self.outputs@),
        }
    }
}

/// How a subprocess ended.
#[derive(Clone, Copy, Debug, PartialEq, Eq)]
pub struct SpawnStatus {
    pub code: i32,
}

/// What a spawn produced.
#[derive(Debug, PartialEq, Eq)]
pub struct SpawnResult {
    pub status: SpawnStatus,
    pub outputs: Vec<OutputArtifact>,
}

/// [`SpawnResult`] over characters and bytes.
#[verifier::ext_equal]
pub struct SpawnResultView {
    pub code: int,
    pub outputs: Seq<ArtifactView>,
}

impl View for SpawnResult {
    type V = SpawnResultView;

    open spec fn view(&self) -> SpawnResultView {
        SpawnResultView { code: self.status.code as int, outputs: views(self.outputs@) }
    }
}

/// Why a spawn produced nothing.
#[derive(Debug, PartialEq, Eq)]
pub enum ExecError {
    /// The subprocess could not be set up, could not be run, or failed.
    SpawnFailed { mnemonic: String, detail: String },
    /// The subprocess succeeded without producing a declared output.
    OutputNotProduced { mnemonic: String, path: String },
}

/// [`ExecError`] over characters.
#[verifier::ext_equal]
pub enum ExecErrorView {
    SpawnFailed { mnemonic: Seq<char>, detail: Seq<char> },
    OutputNotProduced { mnemonic: Seq<char>, path: Seq<char> },
}

impl View for ExecError {
    type V = ExecErrorView;

    open spec fn view(&self) -> ExecErrorView {
        match self {
            ExecError::SpawnFailed { mnemonic, detail } => ExecErrorView::SpawnFailed {
                mnemonic: mnemonic@,
                detail: detail@,
            },
            ExecError::OutputNotProduced { mnemonic, path } => ExecErrorView::OutputNotProduced {
                mnemonic: mnemonic@,
                path: path@,
            },
        }
    }
}

/// How a spawn ended.
pub type Outcome = Result<SpawnResult, ExecError>;

/// [`Outcome`] over characters and bytes.
pub type OutcomeView = Result<SpawnResultView, ExecErrorView>;

/// The view of an outcome.
pub open spec fn outcome_view(o: Outcome) -> OutcomeView {
    match o {
        Ok(r) => Ok(r@),
        Err(e) => Err(e@),
    }
}

/// A program to run: where it is, what it is given, and where it runs. The environment is the
/// whole of what the program sees.
#[derive(Debug, PartialEq, Eq)]
pub struct ProcessSpec {
    pub program: HostPath,
    pub args: Vec<String>,
    pub env: Vec<(String, String)>,
    pub cwd: HostPath,
}

/// [`ProcessSpec`] over characters.
#[verifier::ext_equal]
pub struct ProcessSpecView {
    pub program: Seq<char>,
    pub args: Seq<Seq<char>>,
    pub env: Seq<(Seq<char>, Seq<char>)>,
    pub cwd: Seq<char>,
}

impl View for ProcessSpec {
    type V = ProcessSpecView;

    open spec fn view(&self) -> ProcessSpecView {
        ProcessSpecView {
            program: self.program@,
            args: texts(self.args@),
            env: pair_texts(self.env@),
            cwd: self.cwd@,
        }
    }
}

/// An operation asked of the host.
#[derive(Debug, PartialEq, Eq)]
pub enum SysRequest {
    /// Make a fresh directory and say where it is.
    TempDir,
    /// Say where the root-relative path `rel` lies under `root`.
    Locate { root: HostPath, rel: String },
    /// Make a directory and whatever leads to it.
    CreateDirAll(HostPath),
    /// Put `bytes` at `path`, whole or not at all.
    WriteAtomic { path: HostPath, bytes: Vec<u8> },
    /// Run a program to its end.
    Spawn(ProcessSpec),
    /// Read a file.
    Read(HostPath),
    /// Remove a directory and what is in it.
    RemoveDirAll(HostPath),
}

/// [`SysRequest`] over characters and bytes.
#[verifier::ext_equal]
pub enum SysRequestView {
    TempDir,
    Locate { root: Seq<char>, rel: Seq<char> },
    CreateDirAll(Seq<char>),
    WriteAtomic { path: Seq<char>, bytes: Seq<u8> },
    Spawn(ProcessSpecView),
    Read(Seq<char>),
    RemoveDirAll(Seq<char>),
}

impl View for SysRequest {
    type V = SysRequestView;

    open spec fn view(&self) -> SysRequestView {
        match self {
            SysRequest::TempDir => SysRequestView::TempDir,
            SysRequest::Locate { root, rel } => SysRequestView::Locate { root: root@, rel: rel@ },
            SysRequest::CreateDirAll(p) => SysRequestView::CreateDirAll(p@),
            SysRequest::WriteAtomic { path, bytes } => SysRequestView::WriteAtomic {
                path: path@,
                bytes: bytes@,
            },
            SysRequest::Spawn(spec) => SysRequestView::Spawn(spec@),
            SysRequest::Read(p) => SysRequestView::Read(p@),
            SysRequest::RemoveDirAll(p) => SysRequestView::RemoveDirAll(p@),
        }
    }
}

/// The host's answer to an operation.
#[derive(Debug, PartialEq, Eq)]
pub enum SysReply {
    /// The path asked for.
    Path(HostPath),
    /// It is done.
    Done,
    /// The bytes asked for.
    Bytes(Vec<u8>),
    /// The program ended with this code.
    Exit(i32),
    /// It failed, for the reason given.
    Failed(String),
}

/// [`SysReply`] over characters and bytes.
#[verifier::ext_equal]
pub enum SysReplyView {
    Path(Seq<char>),
    Done,
    Bytes(Seq<u8>),
    Exit(int),
    Failed(Seq<char>),
}

impl View for SysReply {
    type V = SysReplyView;

    open spec fn view(&self) -> SysReplyView {
        match self {
            SysReply::Path(p) => SysReplyView::Path(p@),
            SysReply::Done => SysReplyView::Done,
            SysReply::Bytes(b) => SysReplyView::Bytes(b@),
            SysReply::Exit(c) => SysReplyView::Exit(*c as int),
            SysReply::Failed(why) => SysReplyView::Failed(why@),
        }
    }
}

/// The directory a host path lies in: what comes before its last slash.
pub open spec fn parent_text(host: Seq<char>) -> Option<Seq<char>> {
    match host.index_of_last('/') {
        Some(i) => Some(host.take(i)),
        None => None,
    }
}

/// The program that `req` runs in `root`: its first word, given the rest, in exactly the
/// declared environment.
pub open spec fn process_of(req: SpawnRequestView, root: Seq<char>) -> ProcessSpecView {
    ProcessSpecView { program: req.argv[0], args: req.argv.skip(1), env: req.env, cwd: root }
}

/// Where a spawn stands.
#[verifier::ext_equal]
pub enum StageView {
    Allocate,
    LocateInput { root: Seq<char>, i: int },
    InputDir { root: Seq<char>, i: int, host: Seq<char> },
    WriteInput { root: Seq<char>, i: int, host: Seq<char> },
    LocateOutput { root: Seq<char>, i: int },
    OutputDir { root: Seq<char>, i: int, host: Seq<char> },
    Run { root: Seq<char> },
    LocateResult { root: Seq<char>, done: Seq<ArtifactView> },
    ReadResult { root: Seq<char>, host: Seq<char>, done: Seq<ArtifactView> },
    Teardown { root: Seq<char>, outcome: OutcomeView },
    Finished { outcome: OutcomeView },
}

/// One spawn in progress, over characters and bytes.
#[verifier::ext_equal]
pub struct LocalSpawnView {
    pub keep_on_failure: bool,
    pub req: SpawnRequestView,
    pub stage: StageView,
}

impl LocalSpawnView {
    /// A spawn that has done nothing yet; one without a program is over at once.
    pub open spec fn begin(keep_on_failure: bool, req: SpawnRequestView) -> LocalSpawnView {
        LocalSpawnView {
            keep_on_failure,
            req,
            stage: if req.argv.len() == 0 {
                StageView::Finished {
                    outcome: Err(
                        ExecErrorView::SpawnFailed {
                            mnemonic: req.mnemonic,
                            detail: "empty argv: no program to run"@,
                        },
                    ),
                }
            } else {
                StageView::Allocate
            },
        }
    }

    /// This spawn at another stage.
    pub open spec fn at(self, stage: StageView) -> LocalSpawnView {
        LocalSpawnView { stage, ..self }
    }

    /// Whether the stage speaks of inputs and outputs that there are.
    pub open spec fn wf(self) -> bool {
        &&& self.stage !is Finished ==> self.req.argv.len() > 0
        &&& match self.stage {
            StageView::LocateInput { i, .. } => 0 <= i < self.req.inputs.len(),
            StageView::InputDir { i, host, .. } => 0 <= i < self.req.inputs.len() && parent_text(
                host,
            ) is Some,
            StageView::WriteInput { i, .. } => 0 <= i < self.req.inputs.len(),
            StageView::LocateOutput { i, .. } => 0 <= i < self.req.outputs.len(),
            StageView::OutputDir { i, host, .. } => 0 <= i < self.req.outputs.len() && parent_text(
                host,
            ) is Some,
            StageView::LocateResult { done, .. } => done.len() < self.req.outputs.len(),
            StageView::ReadResult { done, .. } => done.len() < self.req.outputs.len(),
            _ => true,
        }
    }

    /// The error that says `detail` of this spawn.
    pub open spec fn failed(self, detail: Seq<char>) -> OutcomeView {
        Err(ExecErrorView::SpawnFailed { mnemonic: self.req.mnemonic, detail })
    }

    /// With the outcome known: the exec root goes on success, and on failure unless it is to
    /// be kept.
    pub open spec fn settled(self, root: Seq<char>, outcome: OutcomeView) -> LocalSpawnView {
        if outcome is Ok || !self.keep_on_failure {
            self.at(StageView::Teardown { root, outcome })
        } else {
            self.at(StageView::Finished { outcome })
        }
    }

    /// With the inputs before `i` staged.
    pub open spec fn staging(self, root: Seq<char>, i: int) -> LocalSpawnView {
        if i < self.req.inputs.len() {
            self.at(StageView::LocateInput { root, i })
        } else {
            self.making_dirs(root, 0)
        }
    }

    /// With every input staged, and the directories of the outputs before `i` made.
    pub open spec fn making_dirs(self, root: Seq<char>, i: int) -> LocalSpawnView {
        if i < self.req.outputs.len() {
            self.at(StageView::LocateOutput { root, i })
        } else {
            self.at(StageView::Run { root })
        }
    }

    /// With the program run, and `done` read back so far.
    pub open spec fn collecting(self, root: Seq<char>, done: Seq<ArtifactView>) -> LocalSpawnView {
        if done.len() < self.req.outputs.len() {
            self.at(StageView::LocateResult { root, done })
        } else {
            self.settled(root, Ok(SpawnResultView { code: 0, outputs: by_name(done) }))
        }
    }
}

impl Protocol for LocalSpawnView {
    type Request = SysRequestView;

    type Reply = SysReplyView;

    open spec fn pending(self) -> Option<SysRequestView> {
        match self.stage {
            StageView::Allocate => Some(SysRequestView::TempDir),
            StageView::LocateInput { root, i } => Some(
                SysRequestView::Locate { root, rel: self.req.inputs[i].path },
            ),
            StageView::InputDir { host, .. } => Some(
                SysRequestView::CreateDirAll(parent_text(host)->0),
            ),
            StageView::WriteInput { i, host, .. } => Some(
                SysRequestView::WriteAtomic { path: host, bytes: self.req.inputs[i].content },
            ),
            StageView::LocateOutput { root, i } => Some(
                SysRequestView::Locate { root, rel: self.req.outputs[i] },
            ),
            StageView::OutputDir { host, .. } => Some(
                SysRequestView::CreateDirAll(parent_text(host)->0),
            ),
            StageView::Run { root } => Some(SysRequestView::Spawn(process_of(self.req, root))),
            StageView::LocateResult { root, done } => Some(
                SysRequestView::Locate { root, rel: self.req.outputs[done.len() as int] },
            ),
            StageView::ReadResult { host, .. } => Some(SysRequestView::Read(host)),
            StageView::Teardown { root, .. } => Some(SysRequestView::RemoveDirAll(root)),
            StageView::Finished { .. } => None,
        }
    }

    open spec fn answers(request: SysRequestView, reply: SysReplyView) -> bool {
        match request {
            SysRequestView::TempDir => reply is Path || reply is Failed,
            SysRequestView::Locate { .. } => reply is Path,
            SysRequestView::CreateDirAll(_) => reply is Done || reply is Failed,
            SysRequestView::WriteAtomic { .. } => reply is Done || reply is Failed,
            SysRequestView::Spawn(_) => reply is Exit || reply is Failed,
            SysRequestView::Read(_) => reply is Bytes || reply is Failed,
            SysRequestView::RemoveDirAll(_) => reply is Done || reply is Failed,
        }
    }

    open spec fn next(self, reply: SysReplyView) -> LocalSpawnView {
        match (self.stage, reply) {
            (StageView::Allocate, SysReplyView::Path(root)) => self.staging(root, 0),
            (StageView::Allocate, SysReplyView::Failed(why)) => self.at(
                StageView::Finished { outcome: self.failed("allocate exec root: "@ + why) },
            ),
            (StageView::LocateInput { root, i }, SysReplyView::Path(host)) => if parent_text(
                host,
            ) is Some {
                self.at(StageView::InputDir { root, i, host })
            } else {
                self.at(StageView::WriteInput { root, i, host })
            },
            (StageView::InputDir { root, i, host }, SysReplyView::Done) => self.at(
                StageView::WriteInput { root, i, host },
            ),
            (StageView::InputDir { root, i, host }, SysReplyView::Failed(why)) => self.settled(
                root,
                self.failed("stage input"@ + " '"@ + host + "': "@ + why),
            ),
            (StageView::WriteInput { root, i, host }, SysReplyView::Done) => self.staging(
                root,
                i + 1,
            ),
            (StageView::WriteInput { root, i, host }, SysReplyView::Failed(why)) => self.settled(
                root,
                self.failed("stage input"@ + " '"@ + self.req.inputs[i].path + "': "@ + why),
            ),
            (StageView::LocateOutput { root, i }, SysReplyView::Path(host)) => if parent_text(
                host,
            ) is Some {
                self.at(StageView::OutputDir { root, i, host })
            } else {
                self.making_dirs(root, i + 1)
            },
            (StageView::OutputDir { root, i, host }, SysReplyView::Done) => self.making_dirs(
                root,
                i + 1,
            ),
            (StageView::OutputDir { root, i, host }, SysReplyView::Failed(why)) => self.settled(
                root,
                self.failed("create output dir"@ + " '"@ + host + "': "@ + why),
            ),
            (StageView::Run { root }, SysReplyView::Exit(code)) => if code == 0 {
                self.collecting(root, Seq::empty())
            } else {
                self.settled(root, self.failed("subprocess exited with code "@ + decimal(code)))
            },
            (StageView::Run { root }, SysReplyView::Failed(why)) => self.settled(
                root,
                self.failed(why),
            ),
            (StageView::LocateResult { root, done }, SysReplyView::Path(host)) => self.at(
                StageView::ReadResult { root, host, done },
            ),
            (StageView::ReadResult { root, host, done }, SysReplyView::Bytes(content)) => {
                let path = self.req.outputs[done.len() as int];
                self.collecting(root, done.push(ArtifactView { path, content }))
            },
            (StageView::ReadResult { root, host, done }, SysReplyView::Failed(_)) => self.settled(
                root,
                Err(
                    ExecErrorView::OutputNotProduced {
                        mnemonic: self.req.mnemonic,
                        path: self.req.outputs[done.len() as int],
                    },
                ),
            ),
            (StageView::Teardown { root, outcome }, _) => self.at(StageView::Finished { outcome }),
            _ => self,
        }
    }
}

/// Where a spawn stands.
#[derive(Debug)]
enum Stage {
    Allocate,
    LocateInput { root: HostPath, i: usize },
    InputDir { root: HostPath, i: usize, host: HostPath },
    WriteInput { root: HostPath, i: usize, host: HostPath },
    LocateOutput { root: HostPath, i: usize },
    OutputDir { root: HostPath, i: usize, host: HostPath },
    Run { root: HostPath },
    LocateResult { root: HostPath, done: Vec<OutputArtifact> },
    ReadResult { root: HostPath, host: HostPath, done: Vec<OutputArtifact> },
    Teardown { root: HostPath, outcome: Outcome },
    Finished { outcome: Outcome },
}

impl Stage {
    spec fn seen(self) -> StageView {
        match self {
            Stage::Allocate => StageView::Allocate,
            Stage::LocateInput { root, i } => StageView::LocateInput { root: root@, i: i as int },
            Stage::InputDir { root, i, host } => StageView::InputDir {
                root: root@,
                i: i as int,
                host: host@,
            },
            Stage::WriteInput { root, i, host } => StageView::WriteInput {
                root: root@,
                i: i as int,
                host: host@,
            },
            Stage::LocateOutput { root, i } => StageView::LocateOutput { root: root@, i: i as int },
            Stage::OutputDir { root, i, host } => StageView::OutputDir {
                root: root@,
                i: i as int,
                host: host@,
            },
            Stage::Run { root } => StageView::Run { root: root@ },
            Stage::LocateResult { root, done } => StageView::LocateResult {
                root: root@,
                done: views(done@),
            },
            Stage::ReadResult { root, host, done } => StageView::ReadResult {
                root: root@,
                host: host@,
                done: views(done@),
            },
            Stage::Teardown { root, outcome } => StageView::Teardown {
                root: root@,
                outcome: outcome_view(outcome),
            },
            Stage::Finished { outcome } => StageView::Finished { outcome: outcome_view(outcome) },
        }
    }
}

/// One spawn in progress.
#[derive(Debug)]
pub struct LocalSpawn {
    policy: ExecRootPolicy,
    req: SpawnRequest,
    stage: Stage,
}

impl View for LocalSpawn {
    type V = LocalSpawnView;

    closed spec fn view(&self) -> LocalSpawnView {
        LocalSpawnView {
            keep_on_failure: self.policy.keep_on_failure,
            req: self.req@,
            stage: self.stage.seen(),
        }
    }
}

/// The inputs to stage, as exec-relative path and bytes, in the order the request holds them.
fn expand_inputs(req: &SpawnRequest) -> (r: Vec<(&str, &Vec<u8>)>)
    ensures
        r.len() == req.inputs.len(),
        forall|i: int|
            #![trigger r[i]]
            0 <= i < r.len() ==> r[i].0@ == req@.inputs[i].path && r[i].1@ == req@.inputs[i].content,
{
    let mut r: Vec<(&str, &Vec<u8>)> = Vec::new();
    let mut i: usize = 0;
    while i < req.inputs.len()
        invariant
            i <= req.inputs.len(),
            r.len() == i,
            forall|k: int|
                #![trigger r[k]]
                0 <= k < r.len() ==> r[k].0@ == req@.inputs[k].path && r[k].1@
                    == req@.inputs[k].content,
        decreases req.inputs.len() - i,
    {
        r.push((req.inputs[i].path.as_str(), &req.inputs[i].content));
        i += 1;
    }
    r
}

/// The directory `host` lies in.
fn parent_of(host: &HostPath) -> (r: Option<HostPath>)
    ensures
        match r {
            Some(p) => parent_text(host@) == Some(p@),
            None => parent_text(host@) is None,
        },
{
    let s = host.as_str();
    match find_last(s, '/') {
        Some(i) => Some(HostPath::new(s.substring_char(0, i).to_owned())),
        None => None,
    }
}

/// Copies bytes.
fn copy_bytes(b: &Vec<u8>) -> (r: Vec<u8>)
    ensures
        r@ == b@,
{
    let r = b.clone();
    assert(r@ =~= b@);
    r
}

/// Copies name and value pairs.
fn copy_pairs(v: &Vec<(String, String)>) -> (r: Vec<(String, String)>)
    ensures
        pair_texts(r@) == pair_texts(v@),
{
    let mut r: Vec<(String, String)> = Vec::new();
    let mut i: usize = 0;
    while i < v.len()
        invariant
            i <= v.len(),
            r.len() == i,
            forall|j: int| #![trigger r[j]] 0 <= j < i ==> r[j].0@ == v[j].0@ && r[j].1@ == v[j].1@,
        decreases v.len() - i,
    {
        r.push((v[i].0.clone(), v[i].1.clone()));
        i += 1;
    }
    assert(pair_texts(r@) =~= pair_texts(v@));
    r
}

/// What a failed step says: what was being done, to which path, and why it failed.
fn step_detail(what: &str, path: &str, why: &str) -> (r: String)
    ensures
        r@ == what@ + " '"@ + path@ + "': "@ + why@,
{
    what.to_owned().concat(" '").concat(path).concat("': ").concat(why)
}

impl LocalSpawn {
    /// Whether the spawn is at a stage it can be at.
    pub open spec fn wf(self) -> bool {
        self@.wf()
    }

    fn at(policy: ExecRootPolicy, req: SpawnRequest, stage: Stage) -> (r: LocalSpawn)
        ensures
            r@ == (LocalSpawnView {
                keep_on_failure: policy.keep_on_failure,
                req: req@,
                stage: stage.seen(),
            }),
    {
        LocalSpawn { policy, req, stage }
    }

    fn failed(req: &SpawnRequest, detail: String) -> (r: Outcome)
        ensures
            outcome_view(r) == Err::<SpawnResultView, ExecErrorView>(
                ExecErrorView::SpawnFailed { mnemonic: req@.mnemonic, detail: detail@ },
            ),
    {
        Err(ExecError::SpawnFailed { mnemonic: req.mnemonic.clone(), detail })
    }

    fn settle(policy: ExecRootPolicy, root: HostPath, outcome: Outcome) -> (r: Stage)
        ensures
            r.seen() == if outcome is Ok || !policy.keep_on_failure {
                (StageView::Teardown { root: root@, outcome: outcome_view(outcome) })
            } else {
                (StageView::Finished { outcome: outcome_view(outcome) })
            },
    {
        match &outcome {
            Ok(_) => Stage::Teardown { root, outcome },
            Err(_) => if policy.keep_on_failure {
                Stage::Finished { outcome }
            } else {
                Stage::Teardown { root, outcome }
            },
        }
    }

    /// Goes on with input `i`, or with the output directories once every input is staged.
    fn stage_inputs(req: &SpawnRequest, root: HostPath, i: usize) -> (r: Stage)
        requires
            i <= req.inputs.len(),
        ensures
            forall|v: LocalSpawnView|
                v.req == req@ ==> v.at(r.seen()) == #[trigger] v.staging(root@, i as int),
    {
        if i < req.inputs.len() {
            Stage::LocateInput { root, i }
        } else {
            Self::ensure_output_dirs(req, root, 0)
        }
    }

    /// Goes on with the directory of output `i`, or with the program once every one is made.
    fn ensure_output_dirs(req: &SpawnRequest, root: HostPath, i: usize) -> (r: Stage)
        requires
            i <= req.outputs.len(),
        ensures
            forall|v: LocalSpawnView|
                v.req == req@ ==> v.at(r.seen()) == #[trigger] v.making_dirs(root@, i as int),
    {
        if i < req.outputs.len() {
            Stage::LocateOutput { root, i }
        } else {
            Stage::Run { root }
        }
    }

    /// Goes on with the next declared output, or ends well once every one is read back.
    fn collect_outputs(
        policy: ExecRootPolicy,
        req: &SpawnRequest,
        root: HostPath,
        done: Vec<OutputArtifact>,
    ) -> (r: Stage)
        ensures
            forall|v: LocalSpawnView|
                v.req == req@ && v.keep_on_failure == policy.keep_on_failure ==> v.at(r.seen())
                    == #[trigger] v.collecting(root@, views(done@)),
    {
        if done.len() < req.outputs.len() {
            Stage::LocateResult { root, done }
        } else {
            let outputs = sort_by_name(done);
            let result = SpawnResult { status: SpawnStatus { code: 0 }, outputs };
            Self::settle(policy, root, Ok(result))
        }
    }

    /// The program to run in `root`.
    fn process(req: &SpawnRequest, root: &HostPath) -> (r: ProcessSpec)
        requires
            req.argv.len() > 0,
        ensures
            r@ == process_of(req@, root@),
            r.program@ == req.argv[0]@,
            r.args.len() == req.argv.len() - 1,
            forall|k: int| 0 <= k < r.args.len() ==> (#[trigger] r.args[k])@ == req.argv[k + 1]@,
            pair_texts(r.env@) == pair_texts(req.env@),
            r.cwd@ == root@,
    {
        let program = HostPath::new(req.argv[0].clone());
        let mut args = copy_texts(&req.argv);
        let ghost all = texts(args@);
        assert(args@.len() == all.len());
        let first = args.remove(0);
        assert(texts(args@) =~= all.skip(1));
        assert forall|k: int| 0 <= k < args.len() implies (#[trigger] args[k])@ == req.argv[k + 1]@ by {
            assert(texts(args@)[k] == all[k + 1]);
            assert(texts(req.argv@)[k + 1] == req.argv[k + 1]@);
        }
        let env = copy_pairs(&req.env);
        ProcessSpec { program, args, env, cwd: root.clone() }
    }

    /// What the spawn asks of the host next; nothing once it is over.
    pub fn request(&self) -> (r: Option<SysRequest>)
        requires
            self.wf(),
        ensures
            match r {
                Some(q) => self@.pending() == Some(q@),
                None => self@.pending() is None,
            },
    {
        match &self.stage {
            Stage::Allocate => Some(SysRequest::TempDir),
            Stage::LocateInput { root, i } => {
                let (rel, _) = expand_inputs(&self.req)[*i];
                Some(SysRequest::Locate { root: root.clone(), rel: rel.to_owned() })
            },
            Stage::InputDir { host, .. } => {
                match parent_of(host) {
                    Some(parent) => Some(SysRequest::CreateDirAll(parent)),
                    None => None,
                }
            },
            Stage::WriteInput { i, host, .. } => {
                let (_, bytes) = expand_inputs(&self.req)[*i];
                Some(SysRequest::WriteAtomic { path: host.clone(), bytes: copy_bytes(bytes) })
            },
            Stage::LocateOutput { root, i } => {
                Some(SysRequest::Locate { root: root.clone(), rel: self.req.outputs[*i].clone() })
            },
            Stage::OutputDir { host, .. } => {
                match parent_of(host) {
                    Some(parent) => Some(SysRequest::CreateDirAll(parent)),
                    None => None,
                }
            },
            Stage::Run { root } => Some(SysRequest::Spawn(Self::process(&self.req, root))),
            Stage::LocateResult { root, done } => {
                let rel = self.req.outputs[done.len()].clone();
                Some(SysRequest::Locate { root: root.clone(), rel })
            },
            Stage::ReadResult { host, .. } => Some(SysRequest::Read(host.clone())),
            Stage::Teardown { root, .. } => Some(SysRequest::RemoveDirAll(root.clone())),
            Stage::Finished { .. } => None,
        }
    }

    /// Moves on with the host's answer to what was asked.
    pub fn resume(self, reply: SysReply) -> (r: LocalSpawn)
        requires
            self.wf(),
        ensures
            r@ == self@.next(reply@),
            r.wf(),
    {
        let ghost before = self@;
        let LocalSpawn { policy, req, stage } = self;
        assert(before.req.inputs.len() == req.inputs.len());
        assert(before.req.outputs.len() == req.outputs.len());
        let next = match (stage, reply) {
            (Stage::Allocate, SysReply::Path(root)) => Self::stage_inputs(&req, root, 0),
            (Stage::Allocate, SysReply::Failed(why)) => {
                let detail = "allocate exec root: ".to_owned().concat(why.as_str());
                Stage::Finished { outcome: Self::failed(&req, detail) }
            },
            (Stage::LocateInput { root, i }, SysReply::Path(host)) => {
                if parent_of(&host).is_some() {
                    Stage::InputDir { root, i, host }
                } else {
                    Stage::WriteInput { root, i, host }
                }
            },
            (Stage::InputDir { root, i, host }, SysReply::Done) => Stage::WriteInput { root, i, host },
            (Stage::InputDir { root, i, host }, SysReply::Failed(why)) => {
                let detail = step_detail("stage input", host.as_str(), why.as_str());
                Self::settle(policy, root, Self::failed(&req, detail))
            },
            (Stage::WriteInput { root, i, host }, SysReply::Done) => {
                Self::stage_inputs(&req, root, i + 1)
            },
            (Stage::WriteInput { root, i, host }, SysReply::Failed(why)) => {
                let (rel, _) = expand_inputs(&req)[i];
                let detail = step_detail("stage input", rel, why.as_str());
                Self::settle(policy, root, Self::failed(&req, detail))
            },
            (Stage::LocateOutput { root, i }, SysReply::Path(host)) => {
                if parent_of(&host).is_some() {
                    Stage::OutputDir { root, i, host }
                } else {
                    Self::ensure_output_dirs(&req, root, i + 1)
                }
            },
            (Stage::OutputDir { root, i, host }, SysReply::Done) => {
                Self::ensure_output_dirs(&req, root, i + 1)
            },
            (Stage::OutputDir { root, i, host }, SysReply::Failed(why)) => {
                let detail = step_detail("create output dir", host.as_str(), why.as_str());
                Self::settle(policy, root, Self::failed(&req, detail))
            },
            (Stage::Run { root }, SysReply::Exit(code)) => {
                if code == 0 {
                    let done: Vec<OutputArtifact> = Vec::new();
                    assert(views(done@) =~= Seq::<ArtifactView>::empty());
                    Self::collect_outputs(policy, &req, root, done)
                } else {
                    let shown = decimal_i32(code);
                    let detail = "subprocess exited with code ".to_owned().concat(shown.as_str());
                    Self::settle(policy, root, Self::failed(&req, detail))
                }
            },
            (Stage::Run { root }, SysReply::Failed(why)) => {
                Self::settle(policy, root, Self::failed(&req, why))
            },
            (Stage::LocateResult { root, done }, SysReply::Path(host)) => {
                Stage::ReadResult { root, host, done }
            },
            (Stage::ReadResult { root, host, done }, SysReply::Bytes(content)) => {
                let mut done = done;
                let ghost so_far = views(done@);
                let path = req.outputs[done.len()].clone();
                done.push(OutputArtifact { path, content });
                assert(views(done@) =~= so_far.push(done@.last()@));
                Self::collect_outputs(policy, &req, root, done)
            },
            (Stage::ReadResult { root, host, done }, SysReply::Failed(_)) => {
                let path = req.outputs[done.len()].clone();
                let outcome = Err(
                    ExecError::OutputNotProduced { mnemonic: req.mnemonic.clone(), path },
                );
                Self::settle(policy, root, outcome)
            },
            (Stage::Teardown { root, outcome }, _) => Stage::Finished { outcome },
            (stage, _) => stage,
        };
        let r = Self::at(policy, req, next);
        proof {
            before.lemma_wf_kept(reply@);
        }
        r
    }

    /// How the spawn ended, once it is over.
    pub fn outcome(self) -> (r: Option<Outcome>)
        ensures
            match self@.stage {
                StageView::Finished { outcome } => r is Some && outcome_view(r->0) == outcome,
                _ => r is None,
            },
    {
        match self.stage {
            Stage::Finished { outcome } => Some(outcome),
            _ => None,
        }
    }
}

impl LocalSpawnView {
    /// A spawn stays at stages it can be at.
    pub proof fn lemma_wf_kept(self, reply: SysReplyView)
        requires
            self.wf(),
        ensures
            self.next(reply).wf(),
    {
    }
}

/// Runs actions as local subprocesses.
#[derive(Clone, Copy, Debug)]
pub struct LocalSpawnStrategy {
    policy: ExecRootPolicy,
}

impl LocalSpawnStrategy {
    /// What becomes of the exec roots.
    pub closed spec fn policy(self) -> ExecRootPolicy {
        self.policy
    }

    /// A strategy that keeps the exec roots of failed spawns.
    pub fn new() -> (r: LocalSpawnStrategy)
        ensures
            r.policy().keep_on_failure,
    {
        LocalSpawnStrategy { policy: ExecRootPolicy::default() }
    }

    /// A strategy that treats exec roots by `policy`.
    pub fn with_policy(policy: ExecRootPolicy) -> (r: LocalSpawnStrategy)
        ensures
            r.policy() == policy,
    {
        LocalSpawnStrategy { policy }
    }

    /// Begins a spawn of `req`.
    pub fn spawn(&self, req: SpawnRequest) -> (r: LocalSpawn)
        ensures
            r@ == LocalSpawnView::begin(self.policy().keep_on_failure, req@),
            r.wf(),
    {
        let stage = if req.argv.len() == 0 {
            let detail = "empty argv: no program to run".to_owned();
            Stage::Finished { outcome: LocalSpawn::failed(&req, detail) }
        } else {
            Stage::Allocate
        };
        LocalSpawn::at(self.policy, req, stage)
    }
}

/// What a dispatched action turns into.
#[derive(Debug)]
pub enum Dispatched {
    /// Write the file; there is no subprocess.
    Write(SpawnRequest),
    /// Run the subprocess.
    Local(LocalSpawn),
}

/// Routes each action by its mnemonic: file-writing actions to the writer, all others to a
/// local subprocess.
#[derive(Clone, Copy, Debug)]
pub struct DispatchStrategy {
    local: LocalSpawnStrategy,
}

impl DispatchStrategy {
    /// The strategy that runs the subprocesses.
    pub closed spec fn local(self) -> LocalSpawnStrategy {
        self.local
    }

    /// A strategy whose subprocesses keep the exec roots of failures.
    pub fn new() -> (r: DispatchStrategy)
        ensures
            r.local().policy().keep_on_failure,
    {
        DispatchStrategy { local: LocalSpawnStrategy::new() }
    }

    /// Routes `req`.
    pub fn spawn(&self, req: SpawnRequest) -> (r: Dispatched)
        ensures
            match r {
                Dispatched::Write(w) => {
                    &&& req@.mnemonic == WRITE_FILE_MNEMONIC@
                    &&& req.mnemonic@ == "WriteFile"@
                    &&& w == req
                },
                Dispatched::Local(run) => {
                    &&& req@.mnemonic != WRITE_FILE_MNEMONIC@
                    &&& req.mnemonic@ != "WriteFile"@
                    &&& run@ == LocalSpawnView::begin(self.local().policy().keep_on_failure, req@)
                    &&& run.wf()
                },
            },
    {
        if same_text(req.mnemonic.as_str(), WRITE_FILE_MNEMONIC) {
            Dispatched::Write(req)
        } else {
            Dispatched::Local(self.local.spawn(req))
        }
    }
}

/// The directory a place lies in is what stands before its last slash.
pub proof fn law_directory_of_a_place(d: Seq<char>, g: Seq<char>)
    requires
        !g.contains('/'),
    ensures
        parent_text(d + "/"@ + g) == Some(d),
        parent_text(g) is None,
{
    reveal_strlit("/");
    let s = d + "/"@ + g;
    s.index_of_last_ensures('/');
    g.index_of_last_ensures('/');
    assert(s[d.len() as int] == '/');
    assert(s.contains('/'));
    let i = s.index_of_last('/')->0;
    if i > d.len() {
        assert(s[i] == g[i - d.len() - 1]);
        assert(g.contains('/'));
    } else if i < d.len() {
        assert(s[d.len() as int] != '/');
    }
    assert(s.take(i) =~= d);
}

/// Requests, results and what is asked of and answered by the host are seen whole.
pub proof fn law_spawn_values_are_seen_whole(
    input: InputArtifact,
    output: OutputArtifact,
    pairs: Seq<(String, String)>,
    req: SpawnRequest,
    result: SpawnResult,
    spec: ProcessSpec,
    path: HostPath,
    text: String,
    other: String,
    bytes: Vec<u8>,
    code: i32,
)
    ensures
        input@.path == input.path@ && input@.content == input.content@,
        output@.path == output.path@ && output@.content == output.content@,
        output@.name() == output.path@,
        pair_texts(pairs).len() == pairs.len(),
        forall|i: int|
            0 <= i < pairs.len() ==> #[trigger] pair_texts(pairs)[i] == (pairs[i].0@, pairs[i].1@),
        req@.mnemonic == req.mnemonic@,
        req@.argv == texts(req.argv@),
        req@.env == pair_texts(req.env@),
        req@.inputs == views(req.inputs@),
        req@.outputs == texts(req.outputs@),
        result@.code == result.status.code,
        result@.outputs == views(result.outputs@),
        outcome_view(Ok(result)) == Ok::<SpawnResultView, ExecErrorView>(result@),
        (ExecError::SpawnFailed { mnemonic: text, detail: other })@ == (
        ExecErrorView::SpawnFailed { mnemonic: text@, detail: other@ }),
        (ExecError::OutputNotProduced { mnemonic: text, path: other })@ == (
        ExecErrorView::OutputNotProduced { mnemonic: text@, path: other@ }),
        forall|e: ExecError| #[trigger]
            outcome_view(Err(e)) == Err::<SpawnResultView, ExecErrorView>(e@),
        spec@.program == spec.program@,
        spec@.args == texts(spec.args@),
        spec@.env == pair_texts(spec.env@),
        spec@.cwd == spec.cwd@,
        SysRequest::TempDir@ == SysRequestView::TempDir,
        (SysRequest::Locate { root: path, rel: text })@ == (SysRequestView::Locate {
            root: path@,
            rel: text@,
        }),
        SysRequest::CreateDirAll(path)@ == SysRequestView::CreateDirAll(path@),
        (SysRequest::WriteAtomic { path, bytes })@ == (SysRequestView::WriteAtomic {
            path: path@,
            bytes: bytes@,
        }),
        SysRequest::Spawn(spec)@ == SysRequestView::Spawn(spec@),
        SysRequest::Read(path)@ == SysRequestView::Read(path@),
        SysRequest::RemoveDirAll(path)@ == SysRequestView::RemoveDirAll(path@),
        SysReply::Path(path)@ == SysReplyView::Path(path@),
        SysReply::Done@ == SysReplyView::Done,
        SysReply::Bytes(bytes)@ == SysReplyView::Bytes(bytes@),
        SysReply::Exit(code)@ == SysReplyView::Exit(code as int),
        SysReply::Failed(text)@ == SysReplyView::Failed(text@),
{
}

} // verus!
