//! Build sessions: an engine, the toolchains it is seeded with, and where outputs go.

use vstd::prelude::*;

use crate::assembly::{
    build_execution_engine_with, build_execution_engine_with_toolchains, execution_layers,
    law_layers_of_the_engines, plain_host, platform_views, unconstrained_host, Blobs, EnginePlan,
    LayerView, Platform, Resolver, Strategy,
};
use crate::build_run::{configured, run_build_configured, BuildRun, BuildView};
use crate::error::{Error, ErrorView};
use crate::path::HostPath;
use crate::protocol::{after, asked, conversation, lemma_prefix, Protocol};
use crate::rust_toolchain::{
    discover_rustc, field_views, law_finds_the_right_rustc, right_rustc, rust_toolchain, rustc_info, truth,
    unconstrained, BzlValue, HostAnswer, HostAnswerView, HostQuery, HostQueryView, ProviderInstance,
    RegisteredToolchain, RustcSearch, RustcSearchView, HOST_CONFIG, RUST_TOOLCHAIN_TYPE,
};
use crate::target::{pattern_key, ConfiguredTargetKeyView};
use crate::text::{str_opt, text_opt, texts};

verus! {

/// A session that builds are run in.
#[derive(Debug, PartialEq, Eq)]
pub struct BuildSession {
    engine: EnginePlan,
    root: HostPath,
    configuration: Option<String>,
    toolchains: Vec<RegisteredToolchain<ProviderInstance>>,
}

/// [`BuildSession`] by what it holds.
#[verifier::ext_equal]
pub struct BuildSessionView {
    /// The layers of its engine.
    pub engine: Seq<LayerView>,
    /// The root that sources are read below and outputs written below.
    pub root: Seq<char>,
    /// The configuration every target is built in.
    pub configuration: Option<Seq<char>>,
    /// The toolchains registered under that configuration.
    pub toolchains: Seq<RegisteredToolchain<ProviderInstance>>,
}

impl View for BuildSession {
    type V = BuildSessionView;

    closed spec fn view(&self) -> BuildSessionView {
        BuildSessionView {
            engine: self.engine@,
            root: self.root@,
            configuration: text_opt(self.configuration),
            toolchains: self.toolchains@,
        }
    }
}

/// The session without toolchains that runs actions by `strategy`.
pub open spec fn plain_session(strategy: Strategy, root: Seq<char>) -> BuildSessionView {
    BuildSessionView {
        engine: execution_layers(
            strategy,
            Resolver::SameTargetOrSource,
            Blobs::InMemory,
            Seq::empty(),
            plain_host(),
        ),
        root,
        configuration: None,
        toolchains: Seq::empty(),
    }
}

/// Whether `session` builds with the compiler at `rustc`: its targets are built in the host
/// configuration, for which an unconstrained platform is defined and the compiler's toolchain is
/// registered.
pub open spec fn rust_session(session: BuildSessionView, root: Seq<char>, rustc: Seq<char>) -> bool {
    &&& session.engine == execution_layers(
        Strategy::Dispatch,
        Resolver::SameTargetOrSource,
        Blobs::InMemory,
        seq![(HOST_CONFIG@, Seq::<Seq<char>>::empty())],
        plain_host(),
    )
    &&& session.root == root
    &&& session.configuration == Some(HOST_CONFIG@)
    &&& session.toolchains.len() == 1
    &&& session.toolchains[0]@ == unconstrained(RUST_TOOLCHAIN_TYPE@, session.toolchains[0].info)
    &&& session.toolchains[0].info@ == rustc_info(rustc)
}

fn plain(strategy: Strategy, root: HostPath) -> (r: BuildSession)
    ensures
        r@ == plain_session(strategy, root@),
{
    let engine = build_execution_engine_with(
        strategy,
        Resolver::SameTargetOrSource,
        Blobs::InMemory,
    );
    BuildSession { engine, root, configuration: None, toolchains: Vec::new() }
}

impl BuildSession {
    /// A session that runs only actions that write declared content.
    pub fn new_write(root: HostPath) -> (r: BuildSession)
        ensures
            r@ == plain_session(Strategy::Write, root@),
    {
        plain(Strategy::Write, root)
    }

    /// A session that runs actions for real.
    pub fn new_local(root: HostPath) -> (r: BuildSession)
        ensures
            r@ == plain_session(Strategy::Dispatch, root@),
    {
        plain(Strategy::Dispatch, root)
    }

    /// Begins a session that runs actions for real, with the rust toolchain of the compiler that
    /// discovery finds. If it finds none there is no session.
    pub fn new_local_rust(root: HostPath) -> (r: RustSessionStart)
        ensures
            r@ == RustSessionStartView::begin(root@),
            r.wf(),
    {
        RustSessionStart { root, search: discover_rustc() }
    }

    /// The session that builds with the compiler at `rustc`.
    fn with_rustc(root: HostPath, rustc: &HostPath) -> (r: BuildSession)
        ensures
            rust_session(r@, root@, rustc@),
    {
        let mut platforms: Vec<(String, Platform)> = Vec::new();
        let unlimited = Platform { constraints: Vec::new() };
        assert(unlimited@ =~= Seq::<Seq<char>>::empty());
        platforms.push((HOST_CONFIG.to_owned(), unlimited));
        assert(platform_views(platforms@) =~= seq![(HOST_CONFIG@, Seq::<Seq<char>>::empty())]);
        let engine = build_execution_engine_with_toolchains(
            Strategy::Dispatch,
            Resolver::SameTargetOrSource,
            Blobs::InMemory,
            platforms,
            unconstrained_host(),
        );
        let mut toolchains: Vec<RegisteredToolchain<ProviderInstance>> = Vec::new();
        toolchains.push(rust_toolchain(rustc));
        BuildSession { engine, root, configuration: Some(HOST_CONFIG.to_owned()), toolchains }
    }

    /// Begins the build of the target that `pattern` names, in the session's configuration.
    pub fn build<D, E>(&self, pattern: &str) -> (r: Result<BuildRun<D, E>, Error>)
        ensures
            match r {
                Ok(run) => {
                    &&& configured(pattern@, self@.configuration) matches Ok(target)
                    &&& run@ == BuildView::<D, E>::begin(target, self@.root)
                    &&& run.wf()
                    &&& run@.root == self@.root
                    &&& run@.target.configuration == self@.configuration
                    &&& pattern@ == "//"@ + run@.target.package + ":"@ + run@.target.name
                },
                Err(e) => pattern_key(pattern@) == Err::<ConfiguredTargetKeyView, ErrorView>(e@),
            },
    {
        run_build_configured(&self.root, pattern, self.configuration())
    }

    /// The session's engine.
    pub fn engine(&self) -> (r: &EnginePlan)
        ensures
            r@ == self@.engine,
    {
        &self.engine
    }

    /// The configuration every target is built in.
    pub fn configuration(&self) -> (r: Option<&str>)
        ensures
            str_opt(r) == self@.configuration,
    {
        match &self.configuration {
            Some(c) => Some(c.as_str()),
            None => None,
        }
    }

    /// The toolchains to register under that configuration.
    pub fn toolchains(&self) -> (r: &Vec<RegisteredToolchain<ProviderInstance>>)
        ensures
            r@ == self@.toolchains,
    {
        &self.toolchains
    }
}

/// The start of a session with the rust toolchain in progress, over characters.
#[verifier::ext_equal]
pub struct RustSessionStartView {
    pub root: Seq<char>,
    pub search: RustcSearchView,
}

impl RustSessionStartView {
    /// The start that begins for the root `root`.
    pub open spec fn begin(root: Seq<char>) -> RustSessionStartView {
        RustSessionStartView { root, search: RustcSearchView::AskOverride }
    }
}

impl Protocol for RustSessionStartView {
    type Request = HostQueryView;

    type Reply = HostAnswerView;

    open spec fn pending(self) -> Option<HostQueryView> {
        self.search.pending()
    }

    open spec fn answers(request: HostQueryView, reply: HostAnswerView) -> bool {
        RustcSearchView::answers(request, reply)
    }

    open spec fn next(self, reply: HostAnswerView) -> RustSessionStartView {
        RustSessionStartView { root: self.root, search: self.search.next(reply) }
    }
}

/// The start of a session with the rust toolchain in progress.
#[derive(Debug)]
pub struct RustSessionStart {
    root: HostPath,
    search: RustcSearch,
}

impl View for RustSessionStart {
    type V = RustSessionStartView;

    closed spec fn view(&self) -> RustSessionStartView {
        RustSessionStartView { root: self.root@, search: self.search@ }
    }
}

impl RustSessionStart {
    /// Whether the start is at a point it can be at.
    pub open spec fn wf(self) -> bool {
        self@.search.wf()
    }

    /// What the start asks next; nothing once it is over.
    pub fn request(&self) -> (r: Option<HostQuery>)
        requires
            self.wf(),
        ensures
            match r {
                Some(q) => self@.pending() == Some(q@),
                None => self@.pending() is None,
            },
    {
        self.search.request()
    }

    /// Moves on with the host's answer.
    pub fn resume(self, reply: HostAnswer) -> (r: RustSessionStart)
        requires
            self.wf(),
        ensures
            r@ == self@.next(reply@),
            r.wf(),
    {
        RustSessionStart { root: self.root, search: self.search.resume(reply) }
    }

    /// The session, or why there is none, once the start is over.
    pub fn outcome(self) -> (r: Option<Result<BuildSession, Error>>)
        ensures
            match self@.search {
                RustcSearchView::Finished { found: Ok(rustc) } => r matches Some(Ok(session))
                    && rust_session(session@, self@.root, rustc),
                RustcSearchView::Finished { found: Err(why) } => r matches Some(Err(e)) && e@
                    == why,
                _ => r is None,
            },
    {
        match self.search.outcome() {
            Some(Ok(rustc)) => Some(Ok(BuildSession::with_rustc(self.root, &rustc))),
            Some(Err(e)) => Some(Err(e)),
            None => None,
        }
    }
}

proof fn lemma_start_searches(root: Seq<char>, replies: Seq<HostAnswerView>)
    requires
        conversation(RustSessionStartView::begin(root), replies),
    ensures
        conversation(RustcSearchView::AskOverride, replies),
        after(RustSessionStartView::begin(root), replies) == (RustSessionStartView {
            root,
            search: after(RustcSearchView::AskOverride, replies),
        }),
    decreases replies.len(),
{
    if replies.len() > 0 {
        lemma_start_searches(root, replies.drop_last());
    }
}

/// A session with the rust toolchain has the compiler that its host is to use, and there is no
/// session, but the error, where the host has none.
pub proof fn law_session_has_the_right_rustc(
    root: Seq<char>,
    env: spec_fn(Seq<char>) -> Option<Seq<char>>,
    absent: spec_fn(Seq<char>) -> Option<Seq<char>>,
    replies: Seq<HostAnswerView>,
)
    requires
        conversation(RustSessionStartView::begin(root), replies),
        forall|t: int|
            0 <= t < replies.len() ==> replies[t] == truth(
                env,
                absent,
                #[trigger] asked(RustSessionStartView::begin(root), replies, t),
            ),
        after(RustSessionStartView::begin(root), replies).search is Finished,
    ensures
        after(RustSessionStartView::begin(root), replies).root == root,
        right_rustc(
            env,
            absent,
            after(RustSessionStartView::begin(root), replies).search->found,
        ),
{
    let begin = RustSessionStartView::begin(root);
    lemma_start_searches(root, replies);
    assert forall|t: int| 0 <= t < replies.len() implies replies[t] == truth(
        env,
        absent,
        #[trigger] asked(RustcSearchView::AskOverride, replies, t),
    ) by {
        lemma_prefix(begin, replies, t);
        lemma_start_searches(root, replies.take(t));
        reveal(asked);
        assert(replies[t] == truth(env, absent, asked(begin, replies, t)));
    }
    law_finds_the_right_rustc(env, absent, replies);
}

/// A session with the rust toolchain builds in a configuration that its engine defines a platform
/// for, as toolchain resolution needs.
pub proof fn law_rust_session_has_its_platform(
    session: BuildSessionView,
    root: Seq<char>,
    rustc: Seq<char>,
)
    requires
        rust_session(session, root, rustc),
    ensures
        session.configuration matches Some(configuration) && session.engine[4] matches
            LayerView::Toolchain { platforms, .. } && platforms.contains(
            (configuration, Seq::<Seq<char>>::empty()),
        ),
{
    let platforms = seq![(HOST_CONFIG@, Seq::<Seq<char>>::empty())];
    assert(platforms[0] == (HOST_CONFIG@, Seq::<Seq<char>>::empty()));
}

/// Sessions without toolchains differ in how they run actions and in nothing else.
pub proof fn law_only_the_strategy_changes(a: Strategy, b: Strategy, root: Seq<char>)
    ensures
        ({
            let x = plain_session(a, root);
            let y = plain_session(b, root);
            &&& x.engine.drop_last() == y.engine.drop_last()
            &&& x.engine.last() matches LayerView::Action { strategy, resolver, blobs } && strategy
                == a && y.engine.last() == (LayerView::Action { strategy: b, resolver, blobs })
            &&& y == (BuildSessionView { engine: y.engine, ..x })
        }),
{
    let x = plain_session(a, root);
    let y = plain_session(b, root);
    assert(x.engine.drop_last() =~= y.engine.drop_last());
}

/// What a session without toolchains is made of: an engine with every layer, whose actions run by
/// the strategy given, find their inputs in the same target and the sources and keep their bytes
/// in memory; the root given; no configuration, no platform but the host's, and no toolchain.
pub proof fn law_plain_sessions(strategy: Strategy, root: Seq<char>)
    ensures
        ({
            let session = plain_session(strategy, root);
            &&& session.root == root
            &&& session.configuration is None
            &&& session.toolchains.len() == 0
            &&& session.engine == seq![
                LayerView::Source,
                LayerView::Load,
                LayerView::Package,
                LayerView::Analysis,
                LayerView::Toolchain { platforms: Seq::empty(), host_platform: plain_host() },
                LayerView::Action {
                    strategy,
                    resolver: Resolver::SameTargetOrSource,
                    blobs: Blobs::InMemory,
                },
            ]
        }),
{
    law_layers_of_the_engines(
        strategy,
        Resolver::SameTargetOrSource,
        Blobs::InMemory,
        Seq::empty(),
        plain_host(),
    );
}

/// What a session with the rust toolchain is made of: an engine with every layer that dispatches
/// its actions and defines one platform, the unconstrained `host`; the root given; the
/// configuration `host`; and one toolchain, of the rust type, limited to no platform, which
/// provides one field, `rustc`, with the path of the compiler.
pub proof fn law_rust_sessions(session: BuildSessionView, root: Seq<char>, rustc: Seq<char>)
    requires
        rust_session(session, root, rustc),
    ensures
        session.root == root,
        session.configuration == Some("host"@),
        session.engine == seq![
            LayerView::Source,
            LayerView::Load,
            LayerView::Package,
            LayerView::Analysis,
            LayerView::Toolchain {
                platforms: seq![("host"@, Seq::<Seq<char>>::empty())],
                host_platform: plain_host(),
            },
            LayerView::Action {
                strategy: Strategy::Dispatch,
                resolver: Resolver::SameTargetOrSource,
                blobs: Blobs::InMemory,
            },
        ],
        session.toolchains.len() == 1,
        session.toolchains[0].toolchain_type.0@ == "//rules/rust:toolchain_type"@,
        session.toolchains[0].target_compatible_with.len() == 0,
        session.toolchains[0].exec_compatible_with.len() == 0,
        session.toolchains[0].info.provider.0@ == "ToolchainInfo"@,
        session.toolchains[0].info.fields.len() == 1,
        session.toolchains[0].info.fields[0].0@ == "rustc"@,
        session.toolchains[0].info.fields[0].1 matches BzlValue::Str(path) && path@ == rustc,
{
    law_layers_of_the_engines(
        Strategy::Dispatch,
        Resolver::SameTargetOrSource,
        Blobs::InMemory,
        seq![(HOST_CONFIG@, Seq::<Seq<char>>::empty())],
        plain_host(),
    );
    let row = session.toolchains[0];
    assert(texts(row.target_compatible_with@).len() == 0);
    assert(texts(row.exec_compatible_with@).len() == 0);
    let fields = row.info@.fields;
    assert(field_views(row.info.fields@).len() == 1);
    assert(fields[0] == (row.info.fields[0].0@, row.info.fields[0].1@));
}

/// The start of a session with the rust toolchain is the discovery of the compiler, question by
/// question, for the root given.
pub proof fn law_start_is_the_discovery(root: Seq<char>, replies: Seq<HostAnswerView>)
    requires
        conversation(RustSessionStartView::begin(root), replies),
    ensures
        conversation(RustcSearchView::AskOverride, replies),
        after(RustSessionStartView::begin(root), replies).root == root,
        after(RustSessionStartView::begin(root), replies).search == after(
            RustcSearchView::AskOverride,
            replies,
        ),
        after(RustSessionStartView::begin(root), replies).pending() == after(
            RustcSearchView::AskOverride,
            replies,
        ).pending(),
{
    lemma_start_searches(root, replies);
}

/// The start of a session takes the answers that the discovery takes, as the discovery takes them.
pub proof fn law_start_takes_fitting_answers(
    state: RustSessionStartView,
    query: HostQueryView,
    reply: HostAnswerView,
)
    ensures
        RustSessionStartView::answers(query, reply) == RustcSearchView::answers(query, reply),
        state.next(reply).root == state.root,
        state.next(reply).search == state.search.next(reply),
{
}

} // verus!
