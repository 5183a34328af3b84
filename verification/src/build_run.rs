//! The `build` verb: bring a target to completion, then write its outputs to disk.
//!
//! The build graph does the building: asking it to complete a target is the build. What is left
//! is to enumerate the outputs, fetch the bytes of each from the store by digest, and write them
//! below the output root. Any step that fails ends the run with an error; nothing is made up for
//! an output that is missing.

use vstd::prelude::*;

use crate::error::{Error, ErrorView, Fault, FaultView};
use crate::order::{by_name, sort_by_name, views, Named, NamedText};
use crate::path::HostPath;
use crate::protocol::Protocol;
use crate::target::{
    label_text, law_patterns_are_labels, parse_target_pattern, pattern_key, write_label, ConfiguredTargetKey,
    ConfiguredTargetKeyView,
};
use crate::text::{str_opt, texts};

verus! {

/// One output of a build: its exec-relative path, and where it was written.
#[derive(Debug, PartialEq, Eq)]
pub struct BuiltOutput {
    pub exec_path: String,
    pub host_path: HostPath,
}

/// [`BuiltOutput`] over characters.
#[verifier::ext_equal]
pub struct BuiltOutputView {
    pub exec_path: Seq<char>,
    pub host_path: Seq<char>,
}

impl View for BuiltOutput {
    type V = BuiltOutputView;

    open spec fn view(&self) -> BuiltOutputView {
        BuiltOutputView { exec_path: self.exec_path@, host_path: self.host_path@ }
    }
}

impl Clone for BuiltOutput {
    fn clone(&self) -> (r: Self)
        ensures
            r@ == self@,
    {
        BuiltOutput { exec_path: self.exec_path.clone(), host_path: self.host_path.clone() }
    }
}

impl Named for BuiltOutputView {
    open spec fn name(self) -> Seq<char> {
        self.exec_path
    }
}

impl NamedText for BuiltOutput {
    fn name_text(&self) -> (r: &str) {
        self.exec_path.as_str()
    }
}

impl BuiltOutput {
    /// Where the output was written, as plain text.
    pub fn host_path_str(&self) -> (r: &str)
        ensures
            r@ == self@.host_path,
    {
        self.host_path.as_str()
    }
}

/// What a build asks of the graph, the store and the disk. Digests are a `D`.
#[derive(Debug, PartialEq, Eq)]
pub enum BuildRequest<'a, D> {
    /// Bring the default outputs of a target to completion.
    Complete { target: &'a ConfiguredTargetKey },
    /// Analyze a target.
    Analyze { target: &'a ConfiguredTargetKey },
    /// List the exec-relative paths of the outputs of a target that was just analyzed.
    DeriveOutputs { target: &'a ConfiguredTargetKey },
    /// Look up the artifact of one of the listed outputs.
    Project { index: usize },
    /// Fetch the bytes with a digest.
    Fetch { digest: &'a D },
    /// The host path of `rel` below `root`.
    Locate { root: &'a HostPath, rel: &'a str },
    /// Write bytes to a file, all or nothing.
    WriteAtomic { path: &'a HostPath, bytes: &'a Vec<u8> },
}

/// [`BuildRequest`] over characters and bytes.
#[verifier::ext_equal]
pub enum BuildRequestView<D> {
    Complete { target: ConfiguredTargetKeyView },
    Analyze { target: ConfiguredTargetKeyView },
    DeriveOutputs { target: ConfiguredTargetKeyView },
    Project { index: int },
    Fetch { digest: D },
    Locate { root: Seq<char>, rel: Seq<char> },
    WriteAtomic { path: Seq<char>, bytes: Seq<u8> },
}

impl<'a, D> View for BuildRequest<'a, D> {
    type V = BuildRequestView<D>;

    open spec fn view(&self) -> BuildRequestView<D> {
        match self {
            BuildRequest::Complete { target } => BuildRequestView::Complete { target: target@ },
            BuildRequest::Analyze { target } => BuildRequestView::Analyze { target: target@ },
            BuildRequest::DeriveOutputs { target } => BuildRequestView::DeriveOutputs {
                target: target@,
            },
            BuildRequest::Project { index } => BuildRequestView::Project { index: *index as int },
            BuildRequest::Fetch { digest } => BuildRequestView::Fetch { digest: **digest },
            BuildRequest::Locate { root, rel } => BuildRequestView::Locate {
                root: root@,
                rel: rel@,
            },
            BuildRequest::WriteAtomic { path, bytes } => BuildRequestView::WriteAtomic {
                path: path@,
                bytes: bytes@,
            },
        }
    }
}

/// What a build is answered. The graph's and the store's own failures are an `E`.
#[derive(Debug, PartialEq, Eq)]
pub enum BuildReply<D, E> {
    /// It was done.
    Done,
    /// The exec-relative paths of the outputs.
    Outputs(Vec<String>),
    /// The artifact of an output.
    Artifact { exec_path: String, digest: D },
    /// The bytes fetched.
    Bytes(Vec<u8>),
    /// The host path.
    Path(HostPath),
    /// The node holds a value of another kind.
    WrongKind,
    /// The disk refused, for the reason given.
    Refused(String),
    /// The graph or the store failed.
    Failed(E),
}

/// [`BuildReply`] over characters and bytes.
#[verifier::ext_equal]
pub enum BuildReplyView<D, E> {
    Done,
    Outputs(Seq<Seq<char>>),
    Artifact { exec_path: Seq<char>, digest: D },
    Bytes(Seq<u8>),
    Path(Seq<char>),
    WrongKind,
    Refused(Seq<char>),
    Failed(E),
}

impl<D, E> View for BuildReply<D, E> {
    type V = BuildReplyView<D, E>;

    open spec fn view(&self) -> BuildReplyView<D, E> {
        match self {
            BuildReply::Done => BuildReplyView::Done,
            BuildReply::Outputs(paths) => BuildReplyView::Outputs(texts(paths@)),
            BuildReply::Artifact { exec_path, digest } => BuildReplyView::Artifact {
                exec_path: exec_path@,
                digest: *digest,
            },
            BuildReply::Bytes(bytes) => BuildReplyView::Bytes(bytes@),
            BuildReply::Path(path) => BuildReplyView::Path(path@),
            BuildReply::WrongKind => BuildReplyView::WrongKind,
            BuildReply::Refused(why) => BuildReplyView::Refused(why@),
            BuildReply::Failed(e) => BuildReplyView::Failed(*e),
        }
    }
}

/// Where a build stands, with the paths of the outputs and those already written.
#[verifier::ext_equal]
pub enum BuildStepView<D, E> {
    Complete,
    Analyze,
    Derive,
    Project { paths: Seq<Seq<char>>, built: Seq<BuiltOutputView> },
    Fetch {
        paths: Seq<Seq<char>>,
        built: Seq<BuiltOutputView>,
        exec_path: Seq<char>,
        digest: D,
    },
    Locate {
        paths: Seq<Seq<char>>,
        built: Seq<BuiltOutputView>,
        exec_path: Seq<char>,
        bytes: Seq<u8>,
    },
    Write {
        paths: Seq<Seq<char>>,
        built: Seq<BuiltOutputView>,
        exec_path: Seq<char>,
        bytes: Seq<u8>,
        path: Seq<char>,
    },
    Finished { outcome: Result<Seq<BuiltOutputView>, FaultView<E>> },
}

/// A build in progress, over characters and bytes.
#[verifier::ext_equal]
pub struct BuildView<D, E> {
    pub target: ConfiguredTargetKeyView,
    pub root: Seq<char>,
    pub step: BuildStepView<D, E>,
}

impl<D, E> BuildView<D, E> {
    /// The build of `target` into `root` that begins.
    pub open spec fn begin(target: ConfiguredTargetKeyView, root: Seq<char>) -> BuildView<D, E> {
        BuildView { target, root, step: BuildStepView::Complete }
    }

    /// This build at another step.
    pub open spec fn at(self, step: BuildStepView<D, E>) -> BuildView<D, E> {
        BuildView { step, ..self }
    }

    /// This build, failed for a reason of its own.
    pub open spec fn invalid(self, what: Seq<char>, detail: Seq<char>) -> BuildView<D, E> {
        self.at(
            BuildStepView::Finished {
                outcome: Err(FaultView::Host(ErrorView::Invalid { what, detail })),
            },
        )
    }

    /// This build with some outputs written, about to turn to the next. Once all are written they
    /// are handed out by exec-relative path.
    pub open spec fn emitting(
        self,
        paths: Seq<Seq<char>>,
        built: Seq<BuiltOutputView>,
    ) -> BuildView<D, E> {
        if built.len() < paths.len() {
            self.at(BuildStepView::Project { paths, built })
        } else {
            self.at(BuildStepView::Finished { outcome: Ok(by_name(built)) })
        }
    }

    /// Whether there is an output at the place turned to.
    pub open spec fn wf(self) -> bool {
        match self.step {
            BuildStepView::Project { paths, built } => built.len() < paths.len(),
            BuildStepView::Fetch { paths, built, .. } => built.len() < paths.len(),
            BuildStepView::Locate { paths, built, .. } => built.len() < paths.len(),
            BuildStepView::Write { paths, built, .. } => built.len() < paths.len(),
            _ => true,
        }
    }
}

impl<D, E> Protocol for BuildView<D, E> {
    type Request = BuildRequestView<D>;

    type Reply = BuildReplyView<D, E>;

    open spec fn pending(self) -> Option<BuildRequestView<D>> {
        match self.step {
            BuildStepView::Complete => Some(BuildRequestView::Complete { target: self.target }),
            BuildStepView::Analyze => Some(BuildRequestView::Analyze { target: self.target }),
            BuildStepView::Derive => Some(
                BuildRequestView::DeriveOutputs { target: self.target },
            ),
            BuildStepView::Project { built, .. } => Some(
                BuildRequestView::Project { index: built.len() as int },
            ),
            BuildStepView::Fetch { digest, .. } => Some(BuildRequestView::Fetch { digest }),
            BuildStepView::Locate { exec_path, .. } => Some(
                BuildRequestView::Locate { root: self.root, rel: exec_path },
            ),
            BuildStepView::Write { path, bytes, .. } => Some(
                BuildRequestView::WriteAtomic { path, bytes },
            ),
            BuildStepView::Finished { .. } => None,
        }
    }

    open spec fn answers(request: BuildRequestView<D>, reply: BuildReplyView<D, E>) -> bool {
        match request {
            BuildRequestView::Complete { .. } => reply is Done || reply is Failed,
            BuildRequestView::Analyze { .. } => reply is Done || reply is WrongKind
                || reply is Failed,
            BuildRequestView::DeriveOutputs { .. } => reply is Outputs || reply is Failed,
            BuildRequestView::Project { .. } => reply is Artifact || reply is WrongKind
                || reply is Failed,
            BuildRequestView::Fetch { .. } => reply is Bytes || reply is Failed,
            BuildRequestView::Locate { .. } => reply is Path,
            BuildRequestView::WriteAtomic { .. } => reply is Done || reply is Refused,
        }
    }

    open spec fn next(self, reply: BuildReplyView<D, E>) -> BuildView<D, E> {
        match (self.step, reply) {
            (BuildStepView::Finished { .. }, _) => self,
            (_, BuildReplyView::Failed(e)) => self.at(
                BuildStepView::Finished { outcome: Err(FaultView::Graph(e)) },
            ),
            (BuildStepView::Complete, BuildReplyView::Done) => self.at(BuildStepView::Analyze),
            (BuildStepView::Analyze, BuildReplyView::Done) => self.at(BuildStepView::Derive),
            (BuildStepView::Analyze, BuildReplyView::WrongKind) => self.invalid(
                "CONFIGURED_TARGET value"@,
                label_text(self.target.package, self.target.name)
                    + " did not analyze to a ConfiguredTarget"@,
            ),
            (BuildStepView::Derive, BuildReplyView::Outputs(paths)) => self.emitting(
                paths,
                Seq::empty(),
            ),
            (
                BuildStepView::Project { paths, built },
                BuildReplyView::Artifact { exec_path, digest },
            ) => self.at(BuildStepView::Fetch { paths, built, exec_path, digest }),
            (BuildStepView::Project { paths, built }, BuildReplyView::WrongKind) => self.invalid(
                "ARTIFACT value"@,
                "output '"@ + paths[built.len() as int] + "' did not project to an ArtifactValue"@,
            ),
            (
                BuildStepView::Fetch { paths, built, exec_path, .. },
                BuildReplyView::Bytes(bytes),
            ) => self.at(BuildStepView::Locate { paths, built, exec_path, bytes }),
            (
                BuildStepView::Locate { paths, built, exec_path, bytes },
                BuildReplyView::Path(path),
            ) => self.at(BuildStepView::Write { paths, built, exec_path, bytes, path }),
            (
                BuildStepView::Write { paths, built, exec_path, path, .. },
                BuildReplyView::Done,
            ) => self.emitting(paths, built.push(BuiltOutputView { exec_path, host_path: path })),
            (BuildStepView::Write { exec_path, .. }, BuildReplyView::Refused(why)) => self.invalid(
                "emit build output"@,
                exec_path + ": "@ + why,
            ),
            _ => self,
        }
    }
}

#[derive(Debug)]
enum Step<D, E> {
    Complete,
    Analyze,
    Derive,
    Project { paths: Vec<String>, built: Vec<BuiltOutput> },
    Fetch { paths: Vec<String>, built: Vec<BuiltOutput>, exec_path: String, digest: D },
    Locate { paths: Vec<String>, built: Vec<BuiltOutput>, exec_path: String, bytes: Vec<u8> },
    Write {
        paths: Vec<String>,
        built: Vec<BuiltOutput>,
        exec_path: String,
        bytes: Vec<u8>,
        path: HostPath,
    },
    Finished { outcome: Result<Vec<BuiltOutput>, Fault<E>> },
}

impl<D, E> Step<D, E> {
    spec fn seen(self) -> BuildStepView<D, E> {
        match self {
            Step::Complete => BuildStepView::Complete,
            Step::Analyze => BuildStepView::Analyze,
            Step::Derive => BuildStepView::Derive,
            Step::Project { paths, built } => BuildStepView::Project {
                paths: texts(paths@),
                built: views(built@),
            },
            Step::Fetch { paths, built, exec_path, digest } => BuildStepView::Fetch {
                paths: texts(paths@),
                built: views(built@),
                exec_path: exec_path@,
                digest,
            },
            Step::Locate { paths, built, exec_path, bytes } => BuildStepView::Locate {
                paths: texts(paths@),
                built: views(built@),
                exec_path: exec_path@,
                bytes: bytes@,
            },
            Step::Write { paths, built, exec_path, bytes, path } => BuildStepView::Write {
                paths: texts(paths@),
                built: views(built@),
                exec_path: exec_path@,
                bytes: bytes@,
                path: path@,
            },
            Step::Finished { outcome } => BuildStepView::Finished {
                outcome: match outcome {
                    Ok(built) => Ok(views(built@)),
                    Err(e) => Err(e@),
                },
            },
        }
    }

    fn invalid(what: &str, detail: String) -> (r: Step<D, E>)
        ensures
            forall|v: BuildView<D, E>|
                v.at(r.seen()) == #[trigger] v.invalid(what@, detail@),
    {
        let e = Error::Invalid { what: what.to_owned(), detail };
        Step::Finished { outcome: Err(Fault::Host(e)) }
    }

    fn emitting(paths: Vec<String>, built: Vec<BuiltOutput>) -> (r: Step<D, E>)
        ensures
            forall|v: BuildView<D, E>|
                v.at(r.seen()) == #[trigger] v.emitting(texts(paths@), views(built@)),
    {
        if built.len() < paths.len() {
            Step::Project { paths, built }
        } else {
            Step::Finished { outcome: Ok(sort_by_name(built)) }
        }
    }
}

/// A build in progress.
#[derive(Debug)]
pub struct BuildRun<D, E> {
    target: ConfiguredTargetKey,
    root: HostPath,
    step: Step<D, E>,
}

impl<D, E> View for BuildRun<D, E> {
    type V = BuildView<D, E>;

    closed spec fn view(&self) -> BuildView<D, E> {
        BuildView { target: self.target@, root: self.root@, step: self.step.seen() }
    }
}

/// The target that `pattern` names, in `configuration`.
pub open spec fn configured(
    pattern: Seq<char>,
    configuration: Option<Seq<char>>,
) -> Result<ConfiguredTargetKeyView, ErrorView> {
    match pattern_key(pattern) {
        Ok(key) => Ok(ConfiguredTargetKeyView { configuration, ..key }),
        Err(e) => Err(e),
    }
}

/// Begins the build of the target that `pattern` names, in no particular configuration, writing
/// its outputs below `out_root`.
pub fn run_build<D, E>(out_root: &HostPath, pattern: &str) -> (r: Result<BuildRun<D, E>, Error>)
    ensures
        match r {
            Ok(run) => {
                &&& pattern_key(pattern@) matches Ok(key)
                &&& run@ == BuildView::<D, E>::begin(key, out_root@)
                &&& run.wf()
                &&& run@.root == out_root@
                &&& run@.target.configuration is None
                &&& pattern@ == "//"@ + run@.target.package + ":"@ + run@.target.name
            },
            Err(e) => pattern_key(pattern@) == Err::<ConfiguredTargetKeyView, ErrorView>(e@),
        },
{
    run_build_configured(out_root, pattern, None)
}

/// Begins the build of the target that `pattern` names, in `configuration`, writing its outputs
/// below `out_root`.
pub fn run_build_configured<D, E>(
    out_root: &HostPath,
    pattern: &str,
    configuration: Option<&str>,
) -> (r: Result<BuildRun<D, E>, Error>)
    ensures
        match r {
            Ok(run) => {
                &&& configured(pattern@, str_opt(configuration)) matches Ok(target)
                &&& run@ == BuildView::<D, E>::begin(target, out_root@)
                &&& run.wf()
                &&& run@.root == out_root@
                &&& pattern@ == "//"@ + run@.target.package + ":"@ + run@.target.name
                &&& match configuration {
                    Some(c) => run@.target.configuration == Some(c@),
                    None => run@.target.configuration is None,
                }
            },
            Err(e) => pattern_key(pattern@) == Err::<ConfiguredTargetKeyView, ErrorView>(e@),
        },
{
    let key = parse_target_pattern(pattern)?;
    proof {
        law_patterns_are_labels(pattern@, key@.package, key@.name);
    }
    let target = ConfiguredTargetKey {
        package: key.package,
        name: key.name,
        configuration: match configuration {
            Some(c) => Some(c.to_owned()),
            None => None,
        },
    };
    Ok(BuildRun { target, root: out_root.clone(), step: Step::Complete })
}

impl<D, E> BuildRun<D, E> {
    /// Whether the build is at a point it can be at.
    pub open spec fn wf(self) -> bool {
        self@.wf()
    }

    /// What the build asks next; nothing once it is over.
    pub fn request(&self) -> (r: Option<BuildRequest<'_, D>>)
        ensures
            match r {
                Some(q) => self@.pending() == Some(q@),
                None => self@.pending() is None,
            },
    {
        match &self.step {
            Step::Complete => Some(BuildRequest::Complete { target: &self.target }),
            Step::Analyze => Some(BuildRequest::Analyze { target: &self.target }),
            Step::Derive => Some(BuildRequest::DeriveOutputs { target: &self.target }),
            Step::Project { built, .. } => Some(BuildRequest::Project { index: built.len() }),
            Step::Fetch { digest, .. } => Some(BuildRequest::Fetch { digest }),
            Step::Locate { exec_path, .. } => Some(
                BuildRequest::Locate { root: &self.root, rel: exec_path.as_str() },
            ),
            Step::Write { path, bytes, .. } => Some(BuildRequest::WriteAtomic { path, bytes }),
            Step::Finished { .. } => None,
        }
    }

    /// Moves on with the answer.
    pub fn resume(self, reply: BuildReply<D, E>) -> (r: BuildRun<D, E>)
        requires
            self.wf(),
        ensures
            r@ == self@.next(reply@),
            r.wf(),
    {
        let ghost before = self@;
        let BuildRun { target, root, step } = self;
        let next = match (step, reply) {
            (Step::Finished { outcome }, _) => Step::Finished { outcome },
            (_, BuildReply::Failed(e)) => Step::Finished { outcome: Err(Fault::Graph(e)) },
            (Step::Complete, BuildReply::Done) => Step::Analyze,
            (Step::Analyze, BuildReply::Done) => Step::Derive,
            (Step::Analyze, BuildReply::WrongKind) => {
                let label = write_label(target.package.as_str(), target.name.as_str());
                let detail = label.concat(" did not analyze to a ConfiguredTarget");
                Step::invalid("CONFIGURED_TARGET value", detail)
            },
            (Step::Derive, BuildReply::Outputs(paths)) => {
                let built: Vec<BuiltOutput> = Vec::new();
                assert(views(built@) =~= Seq::<BuiltOutputView>::empty());
                Step::emitting(paths, built)
            },
            (Step::Project { paths, built }, BuildReply::Artifact { exec_path, digest }) => {
                Step::Fetch { paths, built, exec_path, digest }
            },
            (Step::Project { paths, built }, BuildReply::WrongKind) => {
                let detail = "output '".to_owned().concat(paths[built.len()].as_str()).concat(
                    "' did not project to an ArtifactValue",
                );
                Step::invalid("ARTIFACT value", detail)
            },
            (Step::Fetch { paths, built, exec_path, .. }, BuildReply::Bytes(bytes)) => {
                Step::Locate { paths, built, exec_path, bytes }
            },
            (Step::Locate { paths, built, exec_path, bytes }, BuildReply::Path(path)) => {
                Step::Write { paths, built, exec_path, bytes, path }
            },
            (Step::Write { paths, built, exec_path, path, .. }, BuildReply::Done) => {
                let mut built = built;
                let ghost so_far = views(built@);
                let output = BuiltOutput { exec_path, host_path: path };
                built.push(output);
                assert(views(built@) =~= so_far.push(output@));
                Step::emitting(paths, built)
            },
            (Step::Write { exec_path, .. }, BuildReply::Refused(why)) => {
                let detail = exec_path.concat(": ").concat(why.as_str());
                Step::invalid("emit build output", detail)
            },
            (step, _) => step,
        };
        let r = BuildRun { target, root, step: next };
        assert(r@ =~= before.at(next.seen()));
        r
    }

    /// The outputs written, or why the build failed, once it is over.
    pub fn outcome(self) -> (r: Option<Result<Vec<BuiltOutput>, Fault<E>>>)
        ensures
            match self@.step {
                BuildStepView::Finished { outcome } => match r {
                    Some(Ok(built)) => outcome == Ok::<Seq<BuiltOutputView>, FaultView<E>>(
                        views(built@),
                    ),
                    Some(Err(e)) => outcome == Err::<Seq<BuiltOutputView>, FaultView<E>>(e@),
                    None => false,
                },
                _ => r is None,
            },
    {
        match self.step {
            Step::Finished { outcome } => Some(outcome),
            _ => None,
        }
    }
}

/// Outputs and what is asked and answered about them are seen whole.
pub proof fn law_build_values_are_seen_whole<'a, D, E>(
    output: BuiltOutput,
    request: BuildRequest<'a, D>,
    paths: Vec<String>,
    exec_path: String,
    held: D,
    content: Vec<u8>,
    path: HostPath,
    e: E,
)
    ensures
        output@.exec_path == output.exec_path@,
        output@.host_path == output.host_path@,
        output@.name() == output.exec_path@,
        match request {
            BuildRequest::Complete { target } => request@ == (BuildRequestView::<D>::Complete {
                target: target@,
            }),
            BuildRequest::Analyze { target } => request@ == (BuildRequestView::<D>::Analyze {
                target: target@,
            }),
            BuildRequest::DeriveOutputs { target } => request@ == (
            BuildRequestView::<D>::DeriveOutputs { target: target@ }),
            BuildRequest::Project { index } => request@ == (BuildRequestView::<D>::Project {
                index: index as int,
            }),
            BuildRequest::Fetch { digest } => request@ == (BuildRequestView::<D>::Fetch {
                digest: *digest,
            }),
            BuildRequest::Locate { root, rel } => request@ == (BuildRequestView::<D>::Locate {
                root: root@,
                rel: rel@,
            }),
            BuildRequest::WriteAtomic { path, bytes } => request@ == (
            BuildRequestView::<D>::WriteAtomic { path: path@, bytes: bytes@ }),
        },
        BuildReply::<D, E>::Done@ == BuildReplyView::<D, E>::Done,
        BuildReply::<D, E>::Outputs(paths)@ == BuildReplyView::<D, E>::Outputs(texts(paths@)),
        (BuildReply::<D, E>::Artifact { exec_path, digest: held })@ == (
        BuildReplyView::<D, E>::Artifact { exec_path: exec_path@, digest: held }),
        BuildReply::<D, E>::Bytes(content)@ == BuildReplyView::<D, E>::Bytes(content@),
        BuildReply::<D, E>::Path(path)@ == BuildReplyView::<D, E>::Path(path@),
        BuildReply::<D, E>::WrongKind@ == BuildReplyView::<D, E>::WrongKind,
        BuildReply::<D, E>::Refused(exec_path)@ == BuildReplyView::<D, E>::Refused(exec_path@),
        BuildReply::<D, E>::Failed(e)@ == BuildReplyView::<D, E>::Failed(e),
{
}

} // verus!
