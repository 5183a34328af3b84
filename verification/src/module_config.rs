//! The workspace module file: reading it, and what follows from it.
//!
//! The module file is the one place where a workspace declares its external repositories and
//! registers its toolchains. [`read_module_file`] reads and evaluates it,
//! [`module_external_repos`] turns its repository declarations into mounts, and
//! [`resolve_module_toolchains`] follows each registered label through the build graph to the
//! toolchain it stands for. All of it is fail-closed.

use vstd::prelude::*;
use vstd::utf8::{decode_utf8, valid_utf8};

pub use crate::module_toolchains::resolve_module_toolchains;

use crate::error::{Error, ErrorView};
use crate::order::views;
use crate::path::{rel_opt, HostPath, RootRelativePath};
use crate::protocol::{after, asked, conversation, lemma_asked_kept, lemma_prefix, Protocol};
use crate::target::{label_parts, label_text, lemma_label_parts, write_label};
use crate::text::{
    after_prefix, join_slash, joined, law_joining, law_prefixes, law_segments, law_trimming,
    lemma_segments, same_text, segments, split, split_once,
    strip_prefix, text_opt, texts, trim_end_slashes, utf8_text, without_trailing,
};

verus! {

/// The name of the module file.
pub const MODULE_FILE: &'static str = "MODULE.bazel";

/// A declared external repository: its name, where it is relative to the workspace root, and the
/// label of the build file laid over it, if it does not ship its own.
#[derive(Debug, PartialEq, Eq)]
pub struct RepoDecl {
    pub name: String,
    pub path: String,
    pub build_file: Option<String>,
}

/// [`RepoDecl`] over characters.
#[verifier::ext_equal]
pub struct RepoDeclView {
    pub name: Seq<char>,
    pub path: Seq<char>,
    pub build_file: Option<Seq<char>>,
}

impl View for RepoDecl {
    type V = RepoDeclView;

    open spec fn view(&self) -> RepoDeclView {
        RepoDeclView { name: self.name@, path: self.path@, build_file: text_opt(self.build_file) }
    }
}

/// An evaluated module file.
#[derive(Debug, PartialEq, Eq)]
pub struct ModuleFileValue {
    pub repos: Vec<RepoDecl>,
    pub registered_toolchains: Vec<String>,
}

/// [`ModuleFileValue`] over characters.
#[verifier::ext_equal]
pub struct ModuleFileView {
    pub repos: Seq<RepoDeclView>,
    pub registered_toolchains: Seq<Seq<char>>,
}

impl View for ModuleFileValue {
    type V = ModuleFileView;

    open spec fn view(&self) -> ModuleFileView {
        ModuleFileView {
            repos: views(self.repos@),
            registered_toolchains: texts(self.registered_toolchains@),
        }
    }
}

/// A mounted external repository: where it is on the host, and the main-root-relative build file
/// laid over it. Without one it is mounted as it is.
#[derive(Debug, PartialEq, Eq)]
pub struct ExternalRepo {
    pub root: HostPath,
    pub build_file: Option<RootRelativePath>,
}

/// [`ExternalRepo`] over characters.
#[verifier::ext_equal]
pub struct ExternalRepoView {
    pub root: Seq<char>,
    pub build_file: Option<Seq<char>>,
}

impl View for ExternalRepo {
    type V = ExternalRepoView;

    open spec fn view(&self) -> ExternalRepoView {
        ExternalRepoView { root: self.root@, build_file: rel_opt(self.build_file) }
    }
}

/// Named mounts, over characters.
pub open spec fn mount_views(v: Seq<(String, ExternalRepo)>) -> Seq<(Seq<char>, ExternalRepoView)> {
    v.map_values(|p: (String, ExternalRepo)| (p.0@, p.1@))
}

/// Where a walk is after the step `seg`: an empty step and `.` stay, `..` goes up unless at the
/// top, and any other step goes down.
pub open spec fn walk(at: Seq<Seq<char>>, seg: Seq<char>) -> Seq<Seq<char>> {
    if seg == ""@ || seg == "."@ {
        at
    } else if seg == ".."@ {
        if at.len() > 1 {
            at.drop_last()
        } else {
            at
        }
    } else {
        at.push(seg)
    }
}

/// Where a walk from `at` ends that takes `steps` in order.
pub open spec fn walked(at: Seq<Seq<char>>, steps: Seq<Seq<char>>) -> Seq<Seq<char>>
    decreases steps.len(),
{
    if steps.len() == 0 {
        at
    } else {
        walk(walked(at, steps.drop_last()), steps.last())
    }
}

/// The path of `rel_path`, walked from `root`. A walk that ends at the top of the filesystem ends
/// at `/`.
pub open spec fn repo_root(root: Seq<char>, rel_path: Seq<char>) -> Seq<char> {
    let end = walked(segments(without_trailing(root, '/'), '/'), segments(rel_path, '/'));
    if root.len() > 0 && end == seq![Seq::<char>::empty()] {
        "/"@
    } else {
        joined(end, '/')
    }
}

/// Walks `rel_path`, which may go up, from the workspace root `root`.
pub fn resolve_repo_root(root: &HostPath, rel_path: &str) -> (r: HostPath)
    ensures
        r@ == repo_root(root@, rel_path@),
{
    let mut segs = split(trim_end_slashes(root.as_str()), '/');
    let steps = split(rel_path, '/');
    let ghost base = texts(segs@);
    let mut i: usize = 0;
    assert(texts(steps@).take(0) =~= Seq::<Seq<char>>::empty());
    while i < steps.len()
        invariant
            i <= steps.len(),
            texts(segs@) == walked(base, texts(steps@).take(i as int)),
        decreases steps.len() - i,
    {
        let seg = steps[i].as_str();
        let ghost here = texts(segs@);
        proof {
            let all = texts(steps@);
            assert(all.take(i + 1).drop_last() =~= all.take(i as int));
            assert(all.take(i + 1).last() == seg@);
        }
        if same_text(seg, "") || same_text(seg, ".") {
        } else if same_text(seg, "..") {
            if segs.len() > 1 {
                segs.pop();
                assert(texts(segs@) =~= here.drop_last());
            }
        } else {
            segs.push(seg.to_owned());
            assert(texts(segs@) =~= here.push(seg@));
        }
        i += 1;
    }
    assert(texts(steps@).take(i as int) =~= texts(steps@));
    let ghost end = texts(segs@);
    assert(end.len() == segs.len());
    if !root.as_str().is_empty() && segs.len() == 1 && segs[0].as_str().is_empty() {
        assert(end[0] =~= Seq::<char>::empty());
        assert(end =~= seq![Seq::<char>::empty()]);
        HostPath::new("/".to_owned())
    } else {
        HostPath::new(join_slash(&segs))
    }
}

/// The main-root-relative path of the build file that a label names.
pub open spec fn label_rel(label: Seq<char>) -> Result<Seq<char>, ErrorView> {
    if after_prefix(label, "//"@) is None {
        Err(
            ErrorView::Invalid {
                what: "build_file label"@,
                detail: "expected '//pkg:BUILD.bazel', got '"@ + label + "'"@,
            },
        )
    } else {
        match label_parts(label) {
            None => Err(
                ErrorView::Invalid {
                    what: "build_file label"@,
                    detail: "expected '//pkg:file', got '"@ + label + "'"@,
                },
            ),
            Some((pkg, file)) => if pkg.len() == 0 {
                Ok(file)
            } else {
                Ok(pkg + "/"@ + file)
            },
        }
    }
}

/// Turns the label of a build file into its main-root-relative path.
pub fn label_to_root_rel(label: &str) -> (r: Result<RootRelativePath, Error>)
    ensures
        match r {
            Ok(rel) => label_rel(label@) == Ok::<Seq<char>, ErrorView>(rel@),
            Err(e) => label_rel(label@) == Err::<Seq<char>, ErrorView>(e@),
        },
{
    let body = match strip_prefix(label, "//") {
        Some(body) => body,
        None => {
            let detail = "expected '//pkg:BUILD.bazel', got '".to_owned().concat(label).concat("'");
            return Err(Error::Invalid { what: "build_file label".to_owned(), detail });
        },
    };
    match split_once(body, ':') {
        Some((pkg, file)) => {
            if pkg.is_empty() {
                Ok(RootRelativePath(file.to_owned()))
            } else {
                Ok(RootRelativePath(pkg.to_owned().concat("/").concat(file)))
            }
        },
        None => {
            let detail = "expected '//pkg:file', got '".to_owned().concat(label).concat("'");
            Err(Error::Invalid { what: "build_file label".to_owned(), detail })
        },
    }
}

/// The mount of one declaration.
pub open spec fn mount(decl: RepoDeclView, root: Seq<char>) -> Result<
    (Seq<char>, ExternalRepoView),
    ErrorView,
> {
    let at = repo_root(root, decl.path);
    match decl.build_file {
        None => Ok((decl.name, ExternalRepoView { root: at, build_file: None })),
        Some(label) => match label_rel(label) {
            Ok(rel) => Ok((decl.name, ExternalRepoView { root: at, build_file: Some(rel) })),
            Err(e) => Err(e),
        },
    }
}

/// Whether `mounts` is what the declarations `decls` come to: every one mounted, in order, or the
/// error of the first that cannot be.
pub open spec fn mounts_of(
    decls: Seq<RepoDeclView>,
    root: Seq<char>,
    mounts: Result<Seq<(Seq<char>, ExternalRepoView)>, ErrorView>,
) -> bool {
    match mounts {
        Ok(all) => all.len() == decls.len() && forall|i: int|
            0 <= i < decls.len() ==> #[trigger] mount(decls[i], root) == Ok::<
                (Seq<char>, ExternalRepoView),
                ErrorView,
            >(all[i]),
        Err(e) => exists|i: int|
            {
                &&& 0 <= i < decls.len()
                &&& #[trigger] mount(decls[i], root) == Err::<(Seq<char>, ExternalRepoView), ErrorView>(
                    e,
                )
                &&& forall|j: int| 0 <= j < i ==> #[trigger] mount(decls[j], root) is Ok
            },
    }
}

/// Named mounts or an error, over characters.
pub open spec fn mounts_view(r: Result<Vec<(String, ExternalRepo)>, Error>) -> Result<
    Seq<(Seq<char>, ExternalRepoView)>,
    ErrorView,
> {
    match r {
        Ok(v) => Ok(mount_views(v@)),
        Err(e) => Err(e@),
    }
}

/// Mounts the external repositories that a module declares, by name and in order.
pub fn module_external_repos(module: &ModuleFileValue, root: &HostPath) -> (r: Result<
    Vec<(String, ExternalRepo)>,
    Error,
>)
    ensures
        mounts_of(module@.repos, root@, mounts_view(r)),
{
    let mut pairs: Vec<(String, ExternalRepo)> = Vec::new();
    let ghost decls = module@.repos;
    let mut i: usize = 0;
    while i < module.repos.len()
        invariant
            i <= module.repos.len(),
            decls == module@.repos,
            pairs.len() == i,
            forall|k: int|
                0 <= k < i ==> #[trigger] mount(decls[k], root@) == Ok::<
                    (Seq<char>, ExternalRepoView),
                    ErrorView,
                >(mount_views(pairs@)[k]),
        decreases module.repos.len() - i,
    {
        let repo = &module.repos[i];
        assert(decls[i as int] == repo@);
        let build_file = match &repo.build_file {
            Some(label) => match label_to_root_rel(label.as_str()) {
                Ok(rel) => Some(rel),
                Err(e) => {
                    assert(mount(decls[i as int], root@) == Err::<
                        (Seq<char>, ExternalRepoView),
                        ErrorView,
                    >(e@));
                    return Err(e);
                },
            },
            None => None,
        };
        let at = resolve_repo_root(root, repo.path.as_str());
        let ghost before = mount_views(pairs@);
        pairs.push((repo.name.clone(), ExternalRepo { root: at, build_file }));
        proof {
            let now = mount_views(pairs@);
            assert(now =~= before.push(now[i as int]));
        }
        i += 1;
    }
    Ok(pairs)
}

/// The error of a toolchain label of any other form than `//pkg:name`.
pub open spec fn bad_toolchain_label(label: Seq<char>) -> ErrorView {
    ErrorView::Invalid {
        what: "toolchain label"@,
        detail: "expected '//pkg:name', got '"@ + label + "'"@,
    }
}

/// Splits a `//pkg:name` label into its package and name.
pub fn split_label(label: &str) -> (r: Result<(String, String), Error>)
    ensures
        match r {
            Ok((pkg, name)) => label_parts(label@) == Some((pkg@, name@)),
            Err(e) => label_parts(label@) is None && e@ == bad_toolchain_label(label@),
        },
{
    let parts = match strip_prefix(label, "//") {
        Some(body) => split_once(body, ':'),
        None => None,
    };
    match parts {
        Some((pkg, name)) => Ok((pkg.to_owned(), name.to_owned())),
        None => {
            let detail = "expected '//pkg:name', got '".to_owned().concat(label).concat("'");
            Err(Error::Invalid { what: "toolchain label".to_owned(), detail })
        },
    }
}

/// What `rel` stands for when it is written in package `pkg`: `:name` is a target of that
/// package, and anything else is taken as it is.
pub open spec fn absolute(pkg: Seq<char>, rel: Seq<char>) -> Seq<char> {
    match after_prefix(rel, ":"@) {
        Some(name) => label_text(pkg, name),
        None => rel,
    }
}

/// Makes a label written in package `pkg` absolute.
pub fn abs_label(pkg: &str, rel: &str) -> (r: String)
    ensures
        r@ == absolute(pkg@, rel@),
{
    if let Some(name) = strip_prefix(rel, ":") {
        write_label(pkg, name)
    } else {
        rel.to_owned()
    }
}

/// What reading a module file asks of the host.
#[derive(Debug, PartialEq, Eq)]
pub enum ModuleRequest {
    /// The bytes of a file.
    Read(HostPath),
    /// The value of a module file's source.
    Evaluate(String),
}

/// [`ModuleRequest`] over characters.
#[verifier::ext_equal]
pub enum ModuleRequestView {
    Read(Seq<char>),
    Evaluate(Seq<char>),
}

impl View for ModuleRequest {
    type V = ModuleRequestView;

    open spec fn view(&self) -> ModuleRequestView {
        match self {
            ModuleRequest::Read(path) => ModuleRequestView::Read(path@),
            ModuleRequest::Evaluate(source) => ModuleRequestView::Evaluate(source@),
        }
    }
}

/// What is answered to the reading of a module file.
#[derive(Debug, PartialEq, Eq)]
pub enum ModuleReply {
    /// The bytes asked for.
    Bytes(Vec<u8>),
    /// The value asked for.
    Module(ModuleFileValue),
    /// It failed, for the reason given.
    Failed(String),
}

/// [`ModuleReply`] over characters and bytes.
#[verifier::ext_equal]
pub enum ModuleReplyView {
    Bytes(Seq<u8>),
    Module(ModuleFileView),
    Failed(Seq<char>),
}

impl View for ModuleReply {
    type V = ModuleReplyView;

    open spec fn view(&self) -> ModuleReplyView {
        match self {
            ModuleReply::Bytes(b) => ModuleReplyView::Bytes(b@),
            ModuleReply::Module(m) => ModuleReplyView::Module(m@),
            ModuleReply::Failed(why) => ModuleReplyView::Failed(why@),
        }
    }
}

/// Where the module file of the workspace at `root` is.
pub open spec fn module_file_of(root: Seq<char>) -> Seq<char> {
    root + "/"@ + MODULE_FILE@
}

/// The reading of a module file in progress, over characters.
#[verifier::ext_equal]
pub enum ModuleReadView {
    Read { path: Seq<char> },
    Evaluate { source: Seq<char> },
    Finished { module: Result<ModuleFileView, ErrorView> },
}

impl ModuleReadView {
    /// The reading that begins for the workspace at `root`.
    pub open spec fn begin(root: Seq<char>) -> ModuleReadView {
        ModuleReadView::Read { path: module_file_of(root) }
    }
}

impl Protocol for ModuleReadView {
    type Request = ModuleRequestView;

    type Reply = ModuleReplyView;

    open spec fn pending(self) -> Option<ModuleRequestView> {
        match self {
            ModuleReadView::Read { path } => Some(ModuleRequestView::Read(path)),
            ModuleReadView::Evaluate { source } => Some(ModuleRequestView::Evaluate(source)),
            ModuleReadView::Finished { .. } => None,
        }
    }

    open spec fn answers(request: ModuleRequestView, reply: ModuleReplyView) -> bool {
        match request {
            ModuleRequestView::Read(_) => reply is Bytes || reply is Failed,
            ModuleRequestView::Evaluate(_) => reply is Module || reply is Failed,
        }
    }

    open spec fn next(self, reply: ModuleReplyView) -> ModuleReadView {
        match (self, reply) {
            (ModuleReadView::Read { path }, ModuleReplyView::Bytes(bytes)) => {
                if valid_utf8(bytes) {
                    ModuleReadView::Evaluate { source: decode_utf8(bytes) }
                } else {
                    ModuleReadView::Finished {
                        module: Err(
                            ErrorView::Invalid { what: "MODULE.bazel"@, detail: "non-utf8"@ },
                        ),
                    }
                }
            },
            (ModuleReadView::Read { path }, ModuleReplyView::Failed(why)) => {
                ModuleReadView::Finished {
                    module: Err(
                        ErrorView::Invalid {
                            what: "read MODULE.bazel"@,
                            detail: path + ": "@ + why,
                        },
                    ),
                }
            },
            (ModuleReadView::Evaluate { .. }, ModuleReplyView::Module(m)) => {
                ModuleReadView::Finished { module: Ok(m) }
            },
            (ModuleReadView::Evaluate { .. }, ModuleReplyView::Failed(why)) => {
                ModuleReadView::Finished {
                    module: Err(ErrorView::Invalid { what: "evaluate MODULE.bazel"@, detail: why }),
                }
            },
            _ => self,
        }
    }
}

#[derive(Debug)]
enum ReadStep {
    Read { path: HostPath },
    Evaluate { source: String },
    Finished { module: Result<ModuleFileValue, Error> },
}

/// The reading of a module file in progress.
#[derive(Debug)]
pub struct ModuleRead {
    step: ReadStep,
}

impl View for ModuleRead {
    type V = ModuleReadView;

    closed spec fn view(&self) -> ModuleReadView {
        match self.step {
            ReadStep::Read { path } => ModuleReadView::Read { path: path@ },
            ReadStep::Evaluate { source } => ModuleReadView::Evaluate { source: source@ },
            ReadStep::Finished { module } => ModuleReadView::Finished {
                module: match module {
                    Ok(m) => Ok(m@),
                    Err(e) => Err(e@),
                },
            },
        }
    }
}

/// Begins to read and evaluate the module file of the workspace at `root`.
pub fn read_module_file(root: &HostPath) -> (r: ModuleRead)
    ensures
        r@ == ModuleReadView::begin(root@),
{
    let path = root.as_str().to_owned().concat("/").concat(MODULE_FILE);
    ModuleRead { step: ReadStep::Read { path: HostPath::new(path) } }
}

impl ModuleRead {
    /// What the reading asks next; nothing once it is over.
    pub fn request(&self) -> (r: Option<ModuleRequest>)
        ensures
            match r {
                Some(q) => self@.pending() == Some(q@),
                None => self@.pending() is None,
            },
    {
        match &self.step {
            ReadStep::Read { path } => Some(ModuleRequest::Read(path.clone())),
            ReadStep::Evaluate { source } => Some(ModuleRequest::Evaluate(source.clone())),
            ReadStep::Finished { .. } => None,
        }
    }

    /// Moves on with the answer.
    pub fn resume(self, reply: ModuleReply) -> (r: ModuleRead)
        ensures
            r@ == self@.next(reply@),
    {
        let step = match (self.step, reply) {
            (ReadStep::Read { path }, ModuleReply::Bytes(bytes)) => {
                match utf8_text(bytes) {
                    Some(source) => {
                        proof {
                            vstd::utf8::encode_utf8_decode_utf8(source@);
                        }
                        ReadStep::Evaluate { source }
                    },
                    None => ReadStep::Finished {
                        module: Err(
                            Error::Invalid {
                                what: "MODULE.bazel".to_owned(),
                                detail: "non-utf8".to_owned(),
                            },
                        ),
                    },
                }
            },
            (ReadStep::Read { path }, ModuleReply::Failed(why)) => {
                let detail = path.as_str().to_owned().concat(": ").concat(why.as_str());
                let e = Error::Invalid { what: "read MODULE.bazel".to_owned(), detail };
                ReadStep::Finished { module: Err(e) }
            },
            (ReadStep::Evaluate { .. }, ModuleReply::Module(m)) => {
                ReadStep::Finished { module: Ok(m) }
            },
            (ReadStep::Evaluate { .. }, ModuleReply::Failed(why)) => {
                let e = Error::Invalid { what: "evaluate MODULE.bazel".to_owned(), detail: why };
                ReadStep::Finished { module: Err(e) }
            },
            (step, _) => step,
        };
        ModuleRead { step }
    }

    /// The module read, or why there is none, once the reading is over.
    pub fn outcome(self) -> (r: Option<Result<ModuleFileValue, Error>>)
        ensures
            match self@ {
                ModuleReadView::Finished { module } => match r {
                    Some(Ok(m)) => module == Ok::<ModuleFileView, ErrorView>(m@),
                    Some(Err(e)) => module == Err::<ModuleFileView, ErrorView>(e@),
                    None => false,
                },
                _ => r is None,
            },
    {
        match self.step {
            ReadStep::Finished { module } => Some(module),
            _ => None,
        }
    }
}

/// The mounting of a workspace's external repositories in progress, over characters.
#[verifier::ext_equal]
pub struct RepoMountingView {
    pub root: Seq<char>,
    pub reading: ModuleReadView,
}

impl RepoMountingView {
    /// The mounting that begins for the workspace at `root`.
    pub open spec fn begin(root: Seq<char>) -> RepoMountingView {
        RepoMountingView { root, reading: ModuleReadView::begin(root) }
    }
}

impl Protocol for RepoMountingView {
    type Request = ModuleRequestView;

    type Reply = ModuleReplyView;

    open spec fn pending(self) -> Option<ModuleRequestView> {
        self.reading.pending()
    }

    open spec fn answers(request: ModuleRequestView, reply: ModuleReplyView) -> bool {
        ModuleReadView::answers(request, reply)
    }

    open spec fn next(self, reply: ModuleReplyView) -> RepoMountingView {
        RepoMountingView { root: self.root, reading: self.reading.next(reply) }
    }
}

/// The mounting of a workspace's external repositories in progress.
#[derive(Debug)]
pub struct RepoMounting {
    root: HostPath,
    reading: ModuleRead,
}

impl View for RepoMounting {
    type V = RepoMountingView;

    closed spec fn view(&self) -> RepoMountingView {
        RepoMountingView { root: self.root@, reading: self.reading@ }
    }
}

/// Begins to mount the external repositories that the module file of the workspace at `root`
/// declares.
pub fn workspace_repos(root: &HostPath) -> (r: RepoMounting)
    ensures
        r@ == RepoMountingView::begin(root@),
{
    RepoMounting { root: root.clone(), reading: read_module_file(root) }
}

impl RepoMounting {
    /// What the mounting asks next; nothing once it is over.
    pub fn request(&self) -> (r: Option<ModuleRequest>)
        ensures
            match r {
                Some(q) => self@.pending() == Some(q@),
                None => self@.pending() is None,
            },
    {
        self.reading.request()
    }

    /// Moves on with the answer.
    pub fn resume(self, reply: ModuleReply) -> (r: RepoMounting)
        ensures
            r@ == self@.next(reply@),
    {
        RepoMounting { root: self.root, reading: self.reading.resume(reply) }
    }

    /// The mounts by name, or why there are none, once the mounting is over.
    pub fn outcome(self) -> (r: Option<Result<Vec<(String, ExternalRepo)>, Error>>)
        ensures
            match self@.reading {
                ModuleReadView::Finished { module: Ok(m) } => r is Some && mounts_of(
                    m.repos,
                    self@.root,
                    mounts_view(r->0),
                ),
                ModuleReadView::Finished { module: Err(e) } => r is Some && mounts_view(r->0) == Err::<
                    Seq<(Seq<char>, ExternalRepoView)>,
                    ErrorView,
                >(e),
                _ => r is None,
            },
    {
        match self.reading.outcome() {
            Some(Ok(module)) => Some(module_external_repos(&module, &self.root)),
            Some(Err(e)) => Some(Err(e)),
            None => None,
        }
    }
}

/// A module that was read is one that the evaluator gave for the text of the file: the module file
/// of the workspace was read, its bytes were valid UTF-8, and the evaluator was handed exactly the
/// text they encode.
pub proof fn law_module_comes_from_the_file(root: Seq<char>, replies: Seq<ModuleReplyView>)
    requires
        conversation(ModuleReadView::begin(root), replies),
        after(ModuleReadView::begin(root), replies) is Finished,
        after(ModuleReadView::begin(root), replies)->module is Ok,
    ensures
        ({
            let start = ModuleReadView::begin(root);
            &&& replies.len() == 2
            &&& asked(start, replies, 0) == ModuleRequestView::Read(module_file_of(root))
            &&& replies[0] is Bytes
            &&& valid_utf8(replies[0]->Bytes_0)
            &&& asked(start, replies, 1) == ModuleRequestView::Evaluate(
                decode_utf8(replies[0]->Bytes_0),
            )
            &&& replies[1] == ModuleReplyView::Module(after(start, replies)->module->Ok_0)
        }),
{
    let start = ModuleReadView::begin(root);
    lemma_read_so_far(root, replies);
    if replies.len() > 0 {
        let past = replies.drop_last();
        lemma_asked_kept(start, replies);
        lemma_read_so_far(root, past);
        if past.len() > 0 {
            lemma_asked_kept(start, past);
            lemma_read_so_far(root, past.drop_last());
            assert(replies[0] == past[0]);
        }
    }
}

proof fn lemma_read_so_far(root: Seq<char>, replies: Seq<ModuleReplyView>)
    requires
        conversation(ModuleReadView::begin(root), replies),
    ensures
        match after(ModuleReadView::begin(root), replies) {
            ModuleReadView::Read { path } => replies.len() == 0 && path == module_file_of(root),
            ModuleReadView::Evaluate { source } => replies.len() == 1 && replies[0] is Bytes
                && valid_utf8(replies[0]->Bytes_0) && source == decode_utf8(replies[0]->Bytes_0),
            ModuleReadView::Finished { .. } => 1 <= replies.len() <= 2,
        },
    decreases replies.len(),
{
    if replies.len() > 0 {
        lemma_read_so_far(root, replies.drop_last());
    }
}

proof fn lemma_mounting_reads(root: Seq<char>, replies: Seq<ModuleReplyView>)
    requires
        conversation(RepoMountingView::begin(root), replies),
    ensures
        conversation(ModuleReadView::begin(root), replies),
        after(RepoMountingView::begin(root), replies) == (RepoMountingView {
            root,
            reading: after(ModuleReadView::begin(root), replies),
        }),
    decreases replies.len(),
{
    if replies.len() > 0 {
        lemma_mounting_reads(root, replies.drop_last());
    }
}

/// The repositories of a workspace are mounted from the module file of that same workspace: the
/// file at its root was read, and what the evaluator gave for its text is what is mounted.
pub proof fn law_mounts_come_from_the_file(
    root: Seq<char>,
    replies: Seq<ModuleReplyView>,
    module: ModuleFileView,
)
    requires
        conversation(RepoMountingView::begin(root), replies),
        after(RepoMountingView::begin(root), replies).reading == (ModuleReadView::Finished {
            module: Ok(module),
        }),
    ensures
        after(RepoMountingView::begin(root), replies).root == root,
        replies.len() == 2,
        asked(RepoMountingView::begin(root), replies, 0) == ModuleRequestView::Read(
            module_file_of(root),
        ),
        replies[0] is Bytes,
        valid_utf8(replies[0]->Bytes_0),
        asked(RepoMountingView::begin(root), replies, 1) == ModuleRequestView::Evaluate(
            decode_utf8(replies[0]->Bytes_0),
        ),
        replies[1] == ModuleReplyView::Module(module),
{
    lemma_mounting_reads(root, replies);
    law_module_comes_from_the_file(root, replies);
    assert forall|t: int| 0 <= t < 2 implies #[trigger] asked(
        RepoMountingView::begin(root),
        replies,
        t,
    ) == asked(ModuleReadView::begin(root), replies, t) by {
        lemma_prefix(RepoMountingView::begin(root), replies, t);
        lemma_mounting_reads(root, replies.take(t));
        reveal(asked);
    }
}

proof fn lemma_walked_more(at: Seq<Seq<char>>, a: Seq<Seq<char>>, b: Seq<Seq<char>>)
    ensures
        walked(at, a + b) == walked(walked(at, a), b),
    decreases b.len(),
{
    if b.len() == 0 {
        assert(a + b =~= a);
    } else {
        assert((a + b).drop_last() =~= a + b.drop_last());
        lemma_walked_more(at, a, b.drop_last());
    }
}

proof fn lemma_walked_keeps_top(at: Seq<Seq<char>>, steps: Seq<Seq<char>>)
    requires
        at.len() > 0,
    ensures
        walked(at, steps).len() > 0,
        walked(at, steps)[0] == at[0],
    decreases steps.len(),
{
    if steps.len() > 0 {
        lemma_walked_keeps_top(at, steps.drop_last());
    }
}

/// A walk never leaves the first segment of where it began, however often it goes up.
pub proof fn law_walk_stays_below_the_top(root: Seq<char>, rel_path: Seq<char>)
    ensures
        ({
            let base = segments(without_trailing(root, '/'), '/');
            let end = walked(base, segments(rel_path, '/'));
            end.len() > 0 && end[0] == base[0]
        }),
{
    lemma_segments(without_trailing(root, '/'), '/');
    lemma_walked_keeps_top(
        segments(without_trailing(root, '/'), '/'),
        segments(rel_path, '/'),
    );
}

proof fn lemma_leading_slash(s: Seq<char>)
    requires
        s.len() == 0 || s[0] == '/',
    ensures
        segments(s, '/').len() > 0,
        segments(s, '/')[0].len() == 0,
    decreases s.len(),
{
    if s.len() > 0 {
        let init = s.drop_last();
        if init.len() > 0 {
            assert(init[0] == s[0]);
        }
        lemma_leading_slash(init);
        if init.len() > 0 && s.last() != '/' {
            lemma_segments_after_slash(init);
        }
    }
}

proof fn lemma_segments_after_slash(s: Seq<char>)
    requires
        s.len() > 0,
        s[0] == '/',
    ensures
        segments(s, '/').len() > 1,
    decreases s.len(),
{
    let init = s.drop_last();
    lemma_segments(init, '/');
    if init.len() > 0 {
        lemma_segments_after_slash(init);
    }
}

proof fn lemma_joined_at_the_top(parts: Seq<Seq<char>>)
    requires
        parts.len() > 1,
        parts[0].len() == 0,
    ensures
        joined(parts, '/').len() > 0,
        joined(parts, '/')[0] == '/',
    decreases parts.len(),
{
    if parts.len() > 2 {
        lemma_joined_at_the_top(parts.drop_last());
    } else {
        assert(joined(parts.drop_last(), '/') =~= Seq::<char>::empty());
    }
}

proof fn lemma_trimmed(s: Seq<char>)
    ensures
        without_trailing(s, '/').is_prefix_of(s),
    decreases s.len(),
{
    if s.len() > 0 && s.last() == '/' {
        lemma_trimmed(s.drop_last());
    }
}

/// From an absolute root every path leads to an absolute path, however often it goes up.
pub proof fn law_absolute_root_gives_absolute_path(root: Seq<char>, rel_path: Seq<char>)
    requires
        root.len() > 0,
        root[0] == '/',
    ensures
        repo_root(root, rel_path).len() > 0,
        repo_root(root, rel_path)[0] == '/',
{
    let trimmed = without_trailing(root, '/');
    let base = segments(trimmed, '/');
    let end = walked(base, segments(rel_path, '/'));
    lemma_trimmed(root);
    if trimmed.len() > 0 {
        assert(trimmed[0] == root[0]);
    }
    lemma_leading_slash(trimmed);
    lemma_walked_keeps_top(base, segments(rel_path, '/'));
    reveal_strlit("/");
    if end.len() == 1 {
        assert(end[0] =~= Seq::<char>::empty());
        assert(end =~= seq![Seq::<char>::empty()]);
    } else {
        lemma_joined_at_the_top(end);
    }
}

/// Empty steps and `.` make no difference to a walk, wherever they stand in it.
pub proof fn law_idle_steps(
    at: Seq<Seq<char>>,
    before: Seq<Seq<char>>,
    idle: Seq<char>,
    rest: Seq<Seq<char>>,
)
    requires
        idle == ""@ || idle == "."@,
    ensures
        walked(at, before.push(idle) + rest) == walked(at, before + rest),
{
    lemma_walked_more(at, before.push(idle), rest);
    lemma_walked_more(at, before, rest);
    assert(before.push(idle).drop_last() =~= before);
}

/// Going down and up again makes no difference to a walk, wherever it happens.
pub proof fn law_down_and_up(
    at: Seq<Seq<char>>,
    before: Seq<Seq<char>>,
    seg: Seq<char>,
    rest: Seq<Seq<char>>,
)
    requires
        at.len() > 0,
        seg != ""@,
        seg != "."@,
        seg != ".."@,
    ensures
        walked(at, before.push(seg).push(".."@) + rest) == walked(at, before + rest),
{
    let down = before.push(seg);
    let up = down.push(".."@);
    lemma_walked_more(at, up, rest);
    lemma_walked_more(at, before, rest);
    lemma_walked_keeps_top(at, before);
    assert(up.drop_last() =~= down);
    assert(down.drop_last() =~= before);
    reveal_strlit("..");
    reveal_strlit(".");
    reveal_strlit("");
    assert(".."@.len() == 2 && "."@.len() == 1 && ""@.len() == 0);
    let here = walked(at, before);
    assert(walked(at, down) == here.push(seg));
    assert(walked(at, up) == here.push(seg).drop_last());
    assert(here.push(seg).drop_last() =~= here);
}

proof fn lemma_walk_down(at: Seq<Seq<char>>, steps: Seq<Seq<char>>)
    requires
        forall|i: int|
            0 <= i < steps.len() ==> #[trigger] steps[i] != ""@ && steps[i] != "."@ && steps[i]
                != ".."@,
    ensures
        walked(at, steps) == at + steps,
    decreases steps.len(),
{
    if steps.len() == 0 {
        assert(at + steps =~= at);
    } else {
        lemma_walk_down(at, steps.drop_last());
        assert(steps.last() == steps[steps.len() - 1]);
        assert(at + steps =~= (at + steps.drop_last()).push(steps.last()));
    }
}

proof fn lemma_joined_more(a: Seq<Seq<char>>, b: Seq<Seq<char>>)
    requires
        a.len() > 0,
        b.len() > 0,
    ensures
        joined(a + b, '/') == joined(a, '/').push('/') + joined(b, '/'),
    decreases b.len(),
{
    assert((a + b).drop_last() =~= a + b.drop_last());
    if b.len() == 1 {
        assert(a + b.drop_last() =~= a);
    } else {
        lemma_joined_more(a, b.drop_last());
        assert(joined(a + b, '/') =~= joined(a, '/').push('/') + joined(b, '/'));
    }
}

/// A plain relative path, without `.`, `..` or empty segments, lies right under the root.
pub proof fn law_plain_path_is_under_the_root(root: Seq<char>, rel_path: Seq<char>)
    requires
        forall|i: int|
            0 <= i < segments(rel_path, '/').len() ==> #[trigger] segments(rel_path, '/')[i] != ""@
                && segments(rel_path, '/')[i] != "."@ && segments(rel_path, '/')[i] != ".."@,
    ensures
        repo_root(root, rel_path) == without_trailing(root, '/') + "/"@ + rel_path,
{
    let trimmed = without_trailing(root, '/');
    let base = segments(trimmed, '/');
    let steps = segments(rel_path, '/');
    lemma_segments(trimmed, '/');
    lemma_segments(rel_path, '/');
    lemma_walk_down(base, steps);
    lemma_joined_more(base, steps);
    reveal_strlit("/");
    assert("/"@ =~= seq!['/']);
    assert(trimmed.push('/') =~= trimmed + "/"@);
}

/// A label written `:name` in a package is the label of that name in that package.
pub proof fn law_relative_labels(pkg: Seq<char>, name: Seq<char>)
    requires
        !pkg.contains(':'),
    ensures
        label_parts(absolute(pkg, ":"@ + name)) == Some((pkg, name)),
{
    reveal_strlit(":");
    let rel = ":"@ + name;
    assert(":"@.is_prefix_of(rel));
    assert(rel.skip(1) =~= name);
    lemma_label_parts(absolute(pkg, rel), pkg, name);
}

/// A label made absolute means the same in every package.
pub proof fn law_absolute_labels_are_fixed(pkg: Seq<char>, other: Seq<char>, rel: Seq<char>)
    ensures
        absolute(other, absolute(pkg, rel)) == absolute(pkg, rel),
{
    reveal_strlit(":");
    reveal_strlit("//");
    if after_prefix(rel, ":"@) is Some {
        let label = absolute(pkg, rel);
        assert(label[0] == '/');
        if ":"@.is_prefix_of(label) {
            assert(label[0] == ":"@[0]);
        }
    }
}

/// The build file that `//pkg:file` names is `file` in the directory `pkg`, and `file` itself for
/// the root package.
pub proof fn law_build_file_of_a_label(pkg: Seq<char>, file: Seq<char>)
    requires
        !pkg.contains(':'),
    ensures
        label_rel("//"@ + pkg + ":"@ + file) == Ok::<Seq<char>, ErrorView>(
            if pkg.len() == 0 {
                file
            } else {
                pkg + "/"@ + file
            },
        ),
{
    lemma_label_parts(label_text(pkg, file), pkg, file);
}

/// Where the walk behind `repo_root` ends.
spec fn walk_end(root: Seq<char>, rel_path: Seq<char>) -> Seq<Seq<char>> {
    walked(segments(without_trailing(root, '/'), '/'), segments(rel_path, '/'))
}

proof fn lemma_walked_whole(at: Seq<Seq<char>>, steps: Seq<Seq<char>>)
    requires
        at.len() > 0,
        forall|i: int| 0 <= i < at.len() ==> !(#[trigger] at[i]).contains('/'),
        forall|i: int| 0 <= i < steps.len() ==> !(#[trigger] steps[i]).contains('/'),
    ensures
        walked(at, steps).len() > 0,
        forall|i: int|
            0 <= i < walked(at, steps).len() ==> !(#[trigger] walked(at, steps)[i]).contains('/'),
        (forall|i: int| 0 < i < at.len() ==> (#[trigger] at[i]).len() > 0) ==> (forall|i: int|
            0 < i < walked(at, steps).len() ==> (#[trigger] walked(at, steps)[i]).len() > 0),
    decreases steps.len(),
{
    if steps.len() > 0 {
        let init = steps.drop_last();
        assert forall|i: int| 0 <= i < init.len() implies !(#[trigger] init[i]).contains('/') by {
            assert(!steps[i].contains('/'));
        }
        lemma_walked_whole(at, init);
        let here = walked(at, init);
        let last = steps.last();
        assert(!steps[steps.len() - 1].contains('/'));
        reveal_strlit("");
        if last.len() == 0 {
            assert(last =~= ""@);
        }
        let there = walked(at, steps);
        assert forall|i: int| 0 <= i < there.len() implies !(#[trigger] there[i]).contains('/') by {
            if i < here.len() {
                assert(there[i] == here[i]);
            }
        }
        if forall|i: int| 0 < i < at.len() ==> (#[trigger] at[i]).len() > 0 {
            assert forall|i: int| 0 < i < there.len() implies (#[trigger] there[i]).len() > 0 by {
                if i < here.len() {
                    assert(there[i] == here[i]);
                }
            }
        }
    }
}

proof fn lemma_walk_end(root: Seq<char>, rel_path: Seq<char>)
    ensures
        walk_end(root, rel_path).len() > 0,
        forall|i: int|
            0 <= i < walk_end(root, rel_path).len() ==> !(#[trigger] walk_end(
                root,
                rel_path,
            )[i]).contains('/'),
        segments(joined(walk_end(root, rel_path), '/'), '/') == walk_end(root, rel_path),
{
    let e = walk_end(root, rel_path);
    law_segments(without_trailing(root, '/'), e, '/');
    law_segments(rel_path, e, '/');
    lemma_walked_whole(
        segments(without_trailing(root, '/'), '/'),
        segments(rel_path, '/'),
    );
    law_segments(rel_path, e, '/');
}

proof fn lemma_one_step_more(root: Seq<char>, rel_path: Seq<char>, seg: Seq<char>)
    requires
        !seg.contains('/'),
    ensures
        walk_end(root, rel_path + "/"@ + seg) == walk(walk_end(root, rel_path), seg),
{
    reveal_strlit("/");
    assert("/"@ =~= seq!['/']);
    let parts = segments(rel_path, '/');
    law_segments(rel_path, parts, '/');
    law_joining(parts, seg, '/');
    let more = parts.push(seg);
    assert forall|i: int| 0 <= i < more.len() implies !(#[trigger] more[i]).contains('/') by {
        if i < parts.len() {
            assert(more[i] == parts[i]);
        }
    }
    law_segments(rel_path, more, '/');
    assert(joined(more, '/') =~= rel_path + "/"@ + seg);
    assert(more.drop_last() =~= parts);
}

/// A path of no segments leads to the root itself, written without the slashes it ends in; `/` if
/// there is nothing besides them.
pub proof fn law_empty_path_is_the_root(root: Seq<char>, trimmed: Seq<char>)
    requires
        root.len() > 0,
        trimmed.is_prefix_of(root),
        trimmed.len() > 0 ==> trimmed.last() != '/',
        forall|i: int| trimmed.len() <= i < root.len() ==> #[trigger] root[i] == '/',
    ensures
        repo_root(root, ""@) == if trimmed.len() == 0 {
            "/"@
        } else {
            trimmed
        },
{
    law_trimming(root, '/');
    let t = without_trailing(root, '/');
    if t.len() < trimmed.len() {
        assert(root[trimmed.len() - 1] == '/');
        assert(trimmed[trimmed.len() - 1] == root[trimmed.len() - 1]);
    } else if trimmed.len() < t.len() {
        assert(root[t.len() - 1] == '/');
        assert(t[t.len() - 1] == root[t.len() - 1]);
    }
    assert(t =~= trimmed);
    reveal_strlit("");
    let e = Seq::<char>::empty();
    assert(""@ =~= e);
    let base = segments(t, '/');
    law_segments(t, base, '/');
    assert(segments(e, '/') =~= seq![e]);
    assert(seq![e].drop_last() =~= Seq::<Seq<char>>::empty());
    assert(walked(base, Seq::<Seq<char>>::empty()) == base);
    assert(seq![e].last() == e);
    assert(walked(base, seq![e]) == base);
    assert(walk_end(root, ""@) == base);
    if t.len() == 0 {
        assert(t =~= e);
    } else {
        if base == seq![e] {
            assert(joined(base, '/') == base[0]);
        }
    }
}

/// A slash at the front of a path makes no difference: every path is taken from the root.
pub proof fn law_leading_slash_is_ignored(root: Seq<char>, rel_path: Seq<char>)
    ensures
        repo_root(root, "/"@ + rel_path) == repo_root(root, rel_path),
{
    reveal_strlit("/");
    reveal_strlit("");
    assert("/"@ =~= seq!['/']);
    let e = Seq::<char>::empty();
    assert(""@ =~= e);
    let base = segments(without_trailing(root, '/'), '/');
    let parts = segments(rel_path, '/');
    law_segments(rel_path, parts, '/');
    let more = seq![e] + parts;
    assert forall|i: int| 0 <= i < more.len() implies !(#[trigger] more[i]).contains('/') by {
        if i > 0 {
            assert(more[i] == parts[i - 1]);
        }
    }
    lemma_joined_more(seq![e], parts);
    law_joining(seq![e], e, '/');
    assert(joined(more, '/') =~= "/"@ + rel_path);
    law_segments(rel_path, more, '/');
    lemma_walked_more(base, seq![e], parts);
    assert(seq![e].drop_last() =~= Seq::<Seq<char>>::empty());
    assert(seq![e].last() == e);
    assert(walked(base, Seq::<Seq<char>>::empty()) == base);
    assert(walked(base, seq![e]) == base);
}

/// What one segment more does to a resolved path. An empty segment and `.` do nothing. `..` takes
/// the last segment off, down to `/` and no further, and leaves a single relative segment alone.
/// Any other segment is put behind it.
pub proof fn law_one_segment_more(
    root: Seq<char>,
    rel_path: Seq<char>,
    seg: Seq<char>,
    d: Seq<char>,
    g: Seq<char>,
)
    requires
        root.len() > 0,
        !seg.contains('/'),
        !g.contains('/'),
    ensures
        ({
            let here = repo_root(root, rel_path);
            let there = repo_root(root, rel_path + "/"@ + seg);
            &&& seg == ""@ || seg == "."@ ==> there == here
            &&& seg == ".."@ && here == "/"@ ==> there == "/"@
            &&& seg == ".."@ && here == d + "/"@ + g && here != "/"@ ==> there == if d.len() == 0 {
                "/"@
            } else {
                d
            }
            &&& seg == ".."@ && here == g ==> there == g
            &&& seg != ""@ && seg != "."@ && seg != ".."@ && here != "/"@ ==> there == here + "/"@
                + seg
        }),
{
    reveal_strlit("/");
    reveal_strlit("");
    reveal_strlit(".");
    reveal_strlit("..");
    assert(".."@.len() == 2 && "."@.len() == 1 && ""@.len() == 0);
    assert("/"@ =~= seq!['/']);
    let e = Seq::<char>::empty();
    let at = walk_end(root, rel_path);
    let here = repo_root(root, rel_path);
    lemma_walk_end(root, rel_path);
    lemma_one_step_more(root, rel_path, seg);
    assert(segments(e, '/') =~= seq![e]);
    law_joining(seq![e], e, '/');
    law_joining(at, seg, '/');
    if seg == ".."@ {
        if here == "/"@ {
            if at != seq![e] {
                law_joining(seq![e], e, '/');
                let two = seq![e].push(e);
                assert(joined(two, '/') =~= "/"@);
                assert forall|i: int| 0 <= i < two.len() implies !(#[trigger] two[i]).contains('/') by {}
                law_segments(e, two, '/');
                assert(at == two);
                assert(at.drop_last() =~= seq![e]);
            }
        } else {
            if here == d + "/"@ + g {
                assert(at != seq![e]);
                let front = segments(d, '/');
                law_segments(d, front, '/');
                law_joining(front, g, '/');
                let split = front.push(g);
                assert forall|i: int| 0 <= i < split.len() implies !(#[trigger] split[i]).contains(
                    '/',
                ) by {
                    if i < front.len() {
                        assert(split[i] == front[i]);
                    }
                }
                law_segments(d, split, '/');
                assert(joined(split, '/') =~= here);
                assert(at == split);
                assert(at.drop_last() =~= front);
                if d.len() == 0 {
                    assert(d =~= e);
                } else if front == seq![e] {
                    assert(joined(front, '/') == e);
                }
            }
            if here == g {
                assert(at != seq![e]);
                let one = seq![g];
                law_joining(one, g, '/');
                assert forall|i: int| 0 <= i < one.len() implies !(#[trigger] one[i]).contains('/') by {}
                law_segments(g, one, '/');
                assert(at == one);
            }
        }
    } else if seg != ""@ && seg != "."@ && here != "/"@ {
        let more = at.push(seg);
        assert(more.len() > 1);
        assert(here == joined(at, '/'));
    }
}

/// From the top of the filesystem a segment goes right below it, if the root is written without
/// two slashes in a row other than at its end.
pub proof fn law_one_segment_below_the_top(root: Seq<char>, rel_path: Seq<char>, seg: Seq<char>)
    requires
        root.len() > 0,
        forall|i: int|
            0 <= i < root.len() - 1 && #[trigger] root[i] == '/' && root[i + 1] == '/' ==> (forall|
                k: int,
            |
                i <= k < root.len() ==> #[trigger] root[k] == '/'),
        repo_root(root, rel_path) == "/"@,
        !seg.contains('/'),
        seg != ""@,
        seg != "."@,
        seg != ".."@,
    ensures
        repo_root(root, rel_path + "/"@ + seg) == "/"@ + seg,
{
    reveal_strlit("/");
    reveal_strlit("");
    assert("/"@ =~= seq!['/']);
    let e = Seq::<char>::empty();
    let t = without_trailing(root, '/');
    let base = segments(t, '/');
    law_trimming(root, '/');
    law_segments(t, base, '/');
    law_segments(rel_path, base, '/');
    assert forall|i: int| 0 <= i < t.len() - 1 implies !(#[trigger] t[i] == '/' && t[i + 1] == '/') by {
        assert(t[i] == root[i] && t[i + 1] == root[i + 1]);
        if root[i] == '/' && root[i + 1] == '/' {
            assert(root[t.len() - 1] == '/');
            assert(t[t.len() - 1] == root[t.len() - 1]);
        }
    }
    lemma_no_empty_segments(t);
    lemma_walked_whole(base, segments(rel_path, '/'));
    let at = walk_end(root, rel_path);
    lemma_walk_end(root, rel_path);
    lemma_one_step_more(root, rel_path, seg);
    if at != seq![e] {
        law_joining(seq![e], e, '/');
        let two = seq![e].push(e);
        assert(joined(two, '/') =~= "/"@);
        assert forall|i: int| 0 <= i < two.len() implies !(#[trigger] two[i]).contains('/') by {}
        law_segments(e, two, '/');
        assert(at == two);
        assert(at[1].len() == 0);
    }
    law_joining(seq![e], seg, '/');
    assert(joined(seq![e].push(seg), '/') =~= "/"@ + seg);
}

proof fn lemma_no_empty_segments(t: Seq<char>)
    requires
        forall|i: int| 0 <= i < t.len() - 1 ==> !(#[trigger] t[i] == '/' && t[i + 1] == '/'),
        t.len() > 0 ==> t.last() != '/',
    ensures
        forall|i: int|
            0 < i < segments(t, '/').len() ==> (#[trigger] segments(t, '/')[i]).len() > 0,
{
    let parts = segments(t, '/');
    lemma_segments(t, '/');
    assert forall|i: int| 0 < i < parts.len() implies (#[trigger] parts[i]).len() > 0 by {
        if parts[i].len() == 0 {
            let a = parts.take(i);
            let b = parts.skip(i + 1);
            let e = Seq::<char>::empty();
            assert(parts[i] =~= e);
            let c = a.push(e);
            law_joining(a, e, '/');
            if b.len() == 0 {
                assert(parts =~= c);
                assert(t =~= joined(a, '/') + seq!['/']);
                assert(t.last() == '/');
            } else {
                assert(parts =~= c + b);
                lemma_joined_more(c, b);
                let n = joined(a, '/').len() as int;
                assert(t[n] == '/' && t[n + 1] == '/');
            }
        }
    }
}

/// An empty root is taken for `/`, but for a walk that ends at the top, which then leads to the
/// empty path.
pub proof fn law_empty_root(rel_path: Seq<char>)
    ensures
        repo_root(""@, rel_path) == if repo_root("/"@, rel_path) == "/"@ {
            ""@
        } else {
            repo_root("/"@, rel_path)
        },
{
    reveal_strlit("/");
    reveal_strlit("");
    assert("/"@ =~= seq!['/']);
    let e = Seq::<char>::empty();
    assert(""@ =~= e);
    assert("/"@.drop_last() =~= e);
    assert(without_trailing(""@, '/') == e);
    assert(without_trailing("/"@, '/') == without_trailing(e, '/'));
    assert(segments(e, '/') =~= seq![e]);
    law_segments(rel_path, seq![e], '/');
    lemma_walked_whole(seq![e], segments(rel_path, '/'));
    let at = walk_end(""@, rel_path);
    assert(at == walk_end("/"@, rel_path));
    lemma_walk_end(""@, rel_path);
    law_joining(seq![e], e, '/');
    if at != seq![e] && joined(at, '/') == "/"@ {
        let two = seq![e].push(e);
        assert(joined(two, '/') =~= "/"@);
        assert forall|i: int| 0 <= i < two.len() implies !(#[trigger] two[i]).contains('/') by {}
        law_segments(e, two, '/');
        assert(at[1].len() == 0);
    }
}

/// A build file's label that is not `//pkg:file` is an error that quotes it, one for a label that
/// does not begin with two slashes and one for a label without a colon after them.
pub proof fn law_bad_build_file_labels(label: Seq<char>, rest: Seq<char>)
    ensures
        !"//"@.is_prefix_of(label) ==> label_rel(label) == Err::<Seq<char>, ErrorView>(
            ErrorView::Invalid {
                what: "build_file label"@,
                detail: "expected '//pkg:BUILD.bazel', got '"@ + label + "'"@,
            },
        ),
        label == "//"@ + rest && !rest.contains(':') ==> label_rel(label) == Err::<
            Seq<char>,
            ErrorView,
        >(
            ErrorView::Invalid {
                what: "build_file label"@,
                detail: "expected '//pkg:file', got '"@ + label + "'"@,
            },
        ),
{
    if label == "//"@ + rest && !rest.contains(':') {
        law_prefixes(label, "//"@, rest);
        rest.index_of_first_ensures(':');
    }
}

/// A toolchain label is an error that quotes it, if it is not `//pkg:name`.
pub proof fn law_bad_toolchain_labels(label: Seq<char>)
    ensures
        bad_toolchain_label(label) == (ErrorView::Invalid {
            what: "toolchain label"@,
            detail: "expected '//pkg:name', got '"@ + label + "'"@,
        }),
{
}

/// A label that begins with a colon is put behind the package it is written in, and any other is
/// taken as it is.
pub proof fn law_absolute_labels(pkg: Seq<char>, name: Seq<char>, rel: Seq<char>)
    ensures
        absolute(pkg, ":"@ + name) == "//"@ + pkg + ":"@ + name,
        !":"@.is_prefix_of(rel) ==> absolute(pkg, rel) == rel,
{
    law_prefixes(":"@ + name, ":"@, name);
}

/// Mounts and declarations correspond. Where mounting succeeds there is one mount for each
/// declaration, at its place and under its name. Its root is the declared path resolved against
/// the workspace root, with a build file or without. It has a build file exactly if the
/// declaration has one, which is the file in the package that the label names.
pub proof fn law_mounts_are_as_declared(
    decls: Seq<RepoDeclView>,
    root: Seq<char>,
    mounts: Seq<(Seq<char>, ExternalRepoView)>,
    i: int,
)
    requires
        mounts_of(decls, root, Ok(mounts)),
        0 <= i < decls.len(),
    ensures
        mounts.len() == decls.len(),
        mounts[i].0 == decls[i].name,
        mounts[i].1.root == repo_root(root, decls[i].path),
        mounts[i].1.build_file is Some <==> decls[i].build_file is Some,
        decls[i].build_file matches Some(label) ==> exists|pkg: Seq<char>, file: Seq<char>|
            {
                &&& label == #[trigger] ("//"@ + pkg + ":"@ + file)
                &&& !pkg.contains(':')
                &&& mounts[i].1.build_file == Some(
                    if pkg.len() == 0 {
                        file
                    } else {
                        pkg + "/"@ + file
                    },
                )
            },
{
    let m = mount(decls[i], root);
    assert(m == Ok::<(Seq<char>, ExternalRepoView), ErrorView>(mounts[i]));
    if let Some(label) = decls[i].build_file {
        let (pkg, file) = label_parts(label)->0;
        lemma_label_parts(label, pkg, file);
        assert(label == "//"@ + pkg + ":"@ + file);
    }
}

/// A repository declared at a plain relative path, without `.`, `..` or empty segments, is mounted
/// right there below the workspace root, with a build file or without.
pub proof fn law_plain_repositories_are_below_the_root(
    decls: Seq<RepoDeclView>,
    root: Seq<char>,
    mounts: Seq<(Seq<char>, ExternalRepoView)>,
    i: int,
    trimmed: Seq<char>,
    steps: Seq<Seq<char>>,
)
    requires
        mounts_of(decls, root, Ok(mounts)),
        0 <= i < decls.len(),
        trimmed.is_prefix_of(root),
        trimmed.len() > 0 ==> trimmed.last() != '/',
        forall|k: int| trimmed.len() <= k < root.len() ==> #[trigger] root[k] == '/',
        steps.len() > 0,
        decls[i].path == joined(steps, '/'),
        forall|k: int|
            0 <= k < steps.len() ==> !(#[trigger] steps[k]).contains('/') && steps[k] != ""@
                && steps[k] != "."@ && steps[k] != ".."@,
    ensures
        mounts[i].1.root == trimmed + "/"@ + decls[i].path,
{
    law_mounts_are_as_declared(decls, root, mounts, i);
    law_trimming(root, '/');
    let t = without_trailing(root, '/');
    if t.len() < trimmed.len() {
        assert(root[trimmed.len() - 1] == '/');
        assert(trimmed[trimmed.len() - 1] == root[trimmed.len() - 1]);
    } else if trimmed.len() < t.len() {
        assert(root[t.len() - 1] == '/');
        assert(t[t.len() - 1] == root[t.len() - 1]);
    }
    assert(t =~= trimmed);
    law_segments(decls[i].path, steps, '/');
    assert(segments(decls[i].path, '/') == steps);
    assert forall|k: int| 0 <= k < segments(decls[i].path, '/').len() implies #[trigger] segments(
        decls[i].path,
        '/',
    )[k] != ""@ && segments(decls[i].path, '/')[k] != "."@ && segments(decls[i].path, '/')[k]
        != ".."@ by {
        assert(steps[k] != ""@);
    }
    law_plain_path_is_under_the_root(root, decls[i].path);
}

/// Mounting succeeds exactly if every build file that is declared is named by a label
/// `//pkg:file`; otherwise the error is that of the first label that is not one.
pub proof fn law_mounting_fails_on_the_first_bad_label(
    decls: Seq<RepoDeclView>,
    root: Seq<char>,
    mounts: Result<Seq<(Seq<char>, ExternalRepoView)>, ErrorView>,
)
    requires
        mounts_of(decls, root, mounts),
    ensures
        mounts is Ok <==> (forall|i: int|
            0 <= i < decls.len() ==> ((#[trigger] decls[i]).build_file matches Some(label)
                ==> label_parts(label) is Some)),
        mounts matches Err(e) ==> exists|i: int|
            {
                &&& 0 <= i < decls.len()
                &&& (#[trigger] decls[i]).build_file matches Some(label)
                &&& label_parts(label) is None
                &&& label_rel(label) == Err::<Seq<char>, ErrorView>(e)
                &&& forall|j: int|
                    0 <= j < i ==> ((#[trigger] decls[j]).build_file matches Some(earlier)
                        ==> label_parts(earlier) is Some)
            },
{
    assert forall|i: int| 0 <= i < decls.len() implies (#[trigger] mount(decls[i], root) is Ok <==> (
    decls[i].build_file matches Some(label) ==> label_parts(label) is Some)) by {}
    match mounts {
        Ok(all) => {
            assert forall|i: int| 0 <= i < decls.len() implies ((#[trigger] decls[i]).build_file
                matches Some(label) ==> label_parts(label) is Some) by {
                assert(mount(decls[i], root) is Ok);
            }
        },
        Err(e) => {
            let i = choose|i: int|
                {
                    &&& 0 <= i < decls.len()
                    &&& #[trigger] mount(decls[i], root) == Err::<
                        (Seq<char>, ExternalRepoView),
                        ErrorView,
                    >(e)
                    &&& forall|j: int| 0 <= j < i ==> #[trigger] mount(decls[j], root) is Ok
                };
            assert(decls[i].build_file is Some);
            assert forall|j: int| 0 <= j < i implies ((#[trigger] decls[j]).build_file matches Some(
                earlier,
            ) ==> label_parts(earlier) is Some) by {
                assert(mount(decls[j], root) is Ok);
            }
        },
    }
}

/// What reading a module file comes to, answer by answer: which file is read, that its text is
/// evaluated if it has one, and each failure with its reason.
pub proof fn law_reading_goes_by_its_answers(
    root: Seq<char>,
    bytes: Seq<u8>,
    why: Seq<char>,
    module: ModuleFileView,
)
    ensures
        ({
            let start = ModuleReadView::begin(root);
            let read = ModuleReplyView::Bytes(bytes);
            &&& start.pending() == Some(ModuleRequestView::Read(root + "/MODULE.bazel"@))
            &&& start.next(ModuleReplyView::Failed(why)) == (ModuleReadView::Finished {
                module: Err(
                    ErrorView::Invalid {
                        what: "read MODULE.bazel"@,
                        detail: root + "/MODULE.bazel"@ + ": "@ + why,
                    },
                ),
            })
            &&& !valid_utf8(bytes) ==> start.next(read) == (ModuleReadView::Finished {
                module: Err(ErrorView::Invalid { what: "MODULE.bazel"@, detail: "non-utf8"@ }),
            })
            &&& valid_utf8(bytes) ==> {
                &&& start.next(read).pending() == Some(
                    ModuleRequestView::Evaluate(decode_utf8(bytes)),
                )
                &&& start.next(read).next(ModuleReplyView::Module(module)) == (
                ModuleReadView::Finished { module: Ok(module) })
                &&& start.next(read).next(ModuleReplyView::Failed(why)) == (
                ModuleReadView::Finished {
                    module: Err(ErrorView::Invalid { what: "evaluate MODULE.bazel"@, detail: why }),
                })
            }
        }),
{
    reveal_strlit("/");
    reveal_strlit("MODULE.bazel");
    reveal_strlit("/MODULE.bazel");
    assert(root + "/"@ + "MODULE.bazel"@ =~= root + "/MODULE.bazel"@);
}

/// Mounting reads the module file of the same root that it mounts below, and reads it as it is
/// read by itself.
pub proof fn law_mounting_reads_the_module_file(root: Seq<char>, replies: Seq<ModuleReplyView>)
    requires
        conversation(RepoMountingView::begin(root), replies),
    ensures
        conversation(ModuleReadView::begin(root), replies),
        after(RepoMountingView::begin(root), replies).root == root,
        after(RepoMountingView::begin(root), replies).reading == after(
            ModuleReadView::begin(root),
            replies,
        ),
        after(RepoMountingView::begin(root), replies).pending() == after(
            ModuleReadView::begin(root),
            replies,
        ).pending(),
{
    lemma_mounting_reads(root, replies);
}

/// Modules, declarations, mounts and what is asked and answered about them are seen whole.
pub proof fn law_module_values_are_seen_whole(
    decl: RepoDecl,
    module: ModuleFileValue,
    repo: ExternalRepo,
    mounts: Seq<(String, ExternalRepo)>,
    path: HostPath,
    text: String,
    bytes: Vec<u8>,
    e: Error,
    all: Vec<(String, ExternalRepo)>,
)
    ensures
        decl@.name == decl.name@,
        decl@.path == decl.path@,
        decl@.build_file == text_opt(decl.build_file),
        module@.repos == views(module.repos@),
        module@.registered_toolchains == texts(module.registered_toolchains@),
        repo@.root == repo.root@,
        repo@.build_file == rel_opt(repo.build_file),
        mount_views(mounts).len() == mounts.len(),
        forall|i: int|
            0 <= i < mounts.len() ==> #[trigger] mount_views(mounts)[i] == (
                mounts[i].0@,
                mounts[i].1@,
            ),
        mounts_view(Ok(all)) == Ok::<Seq<(Seq<char>, ExternalRepoView)>, ErrorView>(
            mount_views(all@),
        ),
        mounts_view(Err(e)) == Err::<Seq<(Seq<char>, ExternalRepoView)>, ErrorView>(e@),
        ModuleRequest::Read(path)@ == ModuleRequestView::Read(path@),
        ModuleRequest::Evaluate(text)@ == ModuleRequestView::Evaluate(text@),
        ModuleReply::Bytes(bytes)@ == ModuleReplyView::Bytes(bytes@),
        ModuleReply::Module(module)@ == ModuleReplyView::Module(module@),
        ModuleReply::Failed(text)@ == ModuleReplyView::Failed(text@),
{
}

/// Bytes or a failure answer the question for a file, and a module or a failure the question for a
/// value; an answer to another question, or after the end, changes nothing.
pub proof fn law_reading_takes_fitting_answers(
    state: ModuleReadView,
    mounting: RepoMountingView,
    text: Seq<char>,
    reply: ModuleReplyView,
)
    ensures
        ModuleReadView::answers(ModuleRequestView::Read(text), reply) <==> reply is Bytes
            || reply is Failed,
        ModuleReadView::answers(ModuleRequestView::Evaluate(text), reply) <==> reply is Module
            || reply is Failed,
        state.pending() is None ==> state.next(reply) == state,
        state.pending() matches Some(q) ==> (ModuleReadView::answers(q, reply) || state.next(reply)
            == state),
        forall|q: ModuleRequestView|
            RepoMountingView::answers(q, reply) == #[trigger] ModuleReadView::answers(q, reply),
        mounting.next(reply).root == mounting.root,
        mounting.next(reply).reading == mounting.reading.next(reply),
{
}

/// A path is resolved by a walk over segments. It begins at those of the root without the slashes
/// it ends in, takes the path's segments in order, and ends at what these come to, joined; from a
/// root that is not empty, at `/` where that would be nothing.
pub proof fn law_paths_are_walked(
    root: Seq<char>,
    trimmed: Seq<char>,
    base: Seq<Seq<char>>,
    steps: Seq<Seq<char>>,
)
    requires
        trimmed.is_prefix_of(root),
        trimmed.len() > 0 ==> trimmed.last() != '/',
        forall|i: int| trimmed.len() <= i < root.len() ==> #[trigger] root[i] == '/',
        base.len() > 0,
        steps.len() > 0,
        forall|i: int| 0 <= i < base.len() ==> !(#[trigger] base[i]).contains('/'),
        forall|i: int| 0 <= i < steps.len() ==> !(#[trigger] steps[i]).contains('/'),
        trimmed == joined(base, '/'),
    ensures
        repo_root(root, joined(steps, '/')) == if root.len() > 0 && walked(base, steps) == seq![
            Seq::<char>::empty(),
        ] {
            "/"@
        } else {
            joined(walked(base, steps), '/')
        },
{
    law_trimming(root, '/');
    let t = without_trailing(root, '/');
    if t.len() < trimmed.len() {
        assert(root[trimmed.len() - 1] == '/');
        assert(trimmed[trimmed.len() - 1] == root[trimmed.len() - 1]);
    } else if trimmed.len() < t.len() {
        assert(root[t.len() - 1] == '/');
        assert(t[t.len() - 1] == root[t.len() - 1]);
    }
    assert(t =~= trimmed);
    law_segments(t, base, '/');
    law_segments(t, steps, '/');
}

/// A walk takes its steps in order: an empty step and `.` stay, `..` goes up by one segment and
/// stays at the first, and every other step goes down by itself.
pub proof fn law_steps_of_a_walk(at: Seq<Seq<char>>, steps: Seq<Seq<char>>, seg: Seq<char>)
    ensures
        walked(at, Seq::empty()) == at,
        ({
            let here = walked(at, steps);
            let there = walked(at, steps.push(seg));
            &&& seg.len() == 0 || seg == "."@ ==> there == here
            &&& seg == ".."@ && here.len() > 1 ==> there == here.take(here.len() - 1)
            &&& seg == ".."@ && here.len() <= 1 ==> there == here
            &&& seg.len() > 0 && seg != "."@ && seg != ".."@ ==> there == here + seq![seg]
        }),
{
    reveal_strlit("");
    reveal_strlit(".");
    reveal_strlit("..");
    assert(".."@.len() == 2 && "."@.len() == 1 && ""@.len() == 0);
    let here = walked(at, steps);
    assert(steps.push(seg).drop_last() =~= steps);
    if seg.len() == 0 {
        assert(seg =~= ""@);
    }
    if here.len() > 0 {
        assert(here.drop_last() =~= here.take(here.len() - 1));
    }
    assert(here.push(seg) =~= here + seq![seg]);
}

} // verus!
