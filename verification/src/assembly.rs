//! What an engine is assembled from.
//!
//! An engine is a stack of layers, each a family of node kinds that builds on the layers below it:
//! source files, build-language modules, packages, configured targets, toolchains, actions. A plan
//! lists the layers to register, lowest first, with what each is given.

use vstd::prelude::*;

use crate::order::views;
use crate::text::texts;

verus! {

/// The name of the execution platform that is always there.
pub const HOST_PLATFORM: &'static str = "host";

/// A platform definition.
#[derive(Debug, PartialEq, Eq)]
pub struct Platform {
    pub constraints: Vec<String>,
}

impl View for Platform {
    type V = Seq<Seq<char>>;

    open spec fn view(&self) -> Seq<Seq<char>> {
        texts(self.constraints@)
    }
}

/// An execution platform.
#[derive(Debug, PartialEq, Eq)]
pub struct RegisteredExecPlatform {
    pub name: String,
    pub constraints: Vec<String>,
}

/// [`RegisteredExecPlatform`] over characters.
#[verifier::ext_equal]
pub struct ExecPlatformView {
    pub name: Seq<char>,
    pub constraints: Seq<Seq<char>>,
}

impl View for RegisteredExecPlatform {
    type V = ExecPlatformView;

    open spec fn view(&self) -> ExecPlatformView {
        ExecPlatformView { name: self.name@, constraints: texts(self.constraints@) }
    }
}

/// Platform definitions under their names, over characters.
pub open spec fn platform_views(v: Seq<(String, Platform)>) -> Seq<(Seq<char>, Seq<Seq<char>>)> {
    v.map_values(|p: (String, Platform)| (p.0@, p.1@))
}

/// How actions are run.
#[derive(Debug, PartialEq, Eq, Clone, Copy, Structural)]
pub enum Strategy {
    /// Only those that write declared content.
    Write,
    /// Those that write declared content without a process, all others in a local process.
    Dispatch,
    /// As the caller's own strategy has it.
    Injected,
}

/// How the inputs an action names are found.
#[derive(Debug, PartialEq, Eq, Clone, Copy, Structural)]
pub enum Resolver {
    /// Among the outputs of the same target and the source files.
    SameTargetOrSource,
    /// As the caller's own resolver has it.
    Injected,
}

/// Where the bytes of artifacts are kept.
#[derive(Debug, PartialEq, Eq, Clone, Copy, Structural)]
pub enum Blobs {
    /// In memory.
    InMemory,
    /// In the caller's own store.
    Injected,
}

/// A layer of an engine.
#[derive(Debug, PartialEq, Eq)]
pub enum Layer {
    /// Files, directory listings and globs.
    Source,
    /// Build-language modules.
    Load,
    /// Packages of targets.
    Package,
    /// Configured targets.
    Analysis,
    /// Registered toolchains and execution platforms, and what they resolve to.
    Toolchain { platforms: Vec<(String, Platform)>, host_platform: RegisteredExecPlatform },
    /// Actions, artifacts and target completion.
    Action { strategy: Strategy, resolver: Resolver, blobs: Blobs },
}

/// [`Layer`] over characters.
#[verifier::ext_equal]
pub enum LayerView {
    Source,
    Load,
    Package,
    Analysis,
    Toolchain { platforms: Seq<(Seq<char>, Seq<Seq<char>>)>, host_platform: ExecPlatformView },
    Action { strategy: Strategy, resolver: Resolver, blobs: Blobs },
}

impl View for Layer {
    type V = LayerView;

    open spec fn view(&self) -> LayerView {
        match self {
            Layer::Source => LayerView::Source,
            Layer::Load => LayerView::Load,
            Layer::Package => LayerView::Package,
            Layer::Analysis => LayerView::Analysis,
            Layer::Toolchain { platforms, host_platform } => LayerView::Toolchain {
                platforms: platform_views(platforms@),
                host_platform: host_platform@,
            },
            Layer::Action { strategy, resolver, blobs } => LayerView::Action {
                strategy: *strategy,
                resolver: *resolver,
                blobs: *blobs,
            },
        }
    }
}

impl LayerView {
    /// How many layers this one builds on.
    pub open spec fn height(self) -> int {
        match self {
            LayerView::Source => 0,
            LayerView::Load => 1,
            LayerView::Package => 2,
            LayerView::Analysis => 3,
            LayerView::Toolchain { .. } => 4,
            LayerView::Action { .. } => 5,
        }
    }
}

/// Whether each layer stands on all those it builds on, none left out and none there twice.
pub open spec fn stacked(layers: Seq<LayerView>) -> bool {
    forall|i: int| 0 <= i < layers.len() ==> (#[trigger] layers[i]).height() == i
}

/// The execution platform that is always there, without constraints.
pub open spec fn plain_host() -> ExecPlatformView {
    ExecPlatformView { name: HOST_PLATFORM@, constraints: Seq::empty() }
}

/// The layer of source files.
pub open spec fn source_layers() -> Seq<LayerView> {
    seq![LayerView::Source]
}

/// The layers up to packages.
pub open spec fn loading_layers() -> Seq<LayerView> {
    source_layers() + seq![LayerView::Load, LayerView::Package]
}

/// The layers up to toolchains.
pub open spec fn analysis_layers(
    platforms: Seq<(Seq<char>, Seq<Seq<char>>)>,
    host_platform: ExecPlatformView,
) -> Seq<LayerView> {
    loading_layers() + seq![
        LayerView::Analysis,
        LayerView::Toolchain { platforms, host_platform },
    ]
}

/// The layers up to actions.
pub open spec fn execution_layers(
    strategy: Strategy,
    resolver: Resolver,
    blobs: Blobs,
    platforms: Seq<(Seq<char>, Seq<Seq<char>>)>,
    host_platform: ExecPlatformView,
) -> Seq<LayerView> {
    analysis_layers(platforms, host_platform) + seq![
        LayerView::Action { strategy, resolver, blobs },
    ]
}

/// The layers of an engine, in the order they are registered.
#[derive(Debug, PartialEq, Eq)]
pub struct EnginePlan {
    layers: Vec<Layer>,
}

impl View for EnginePlan {
    type V = Seq<LayerView>;

    closed spec fn view(&self) -> Seq<LayerView> {
        views(self.layers@)
    }
}

impl EnginePlan {
    /// The layers, in the order they are registered.
    pub fn layers(&self) -> (r: &Vec<Layer>)
        ensures
            views(r@) == self@,
    {
        &self.layers
    }
}

/// The execution platform that is always there, without constraints.
pub(crate) fn unconstrained_host() -> (r: RegisteredExecPlatform)
    ensures
        r@ == plain_host(),
{
    let r = RegisteredExecPlatform { name: HOST_PLATFORM.to_owned(), constraints: Vec::new() };
    assert(r@ =~= plain_host());
    r
}

fn no_platforms() -> (r: Vec<(String, Platform)>)
    ensures
        platform_views(r@) == Seq::<(Seq<char>, Seq<Seq<char>>)>::empty(),
{
    let r: Vec<(String, Platform)> = Vec::new();
    assert(platform_views(r@) =~= Seq::<(Seq<char>, Seq<Seq<char>>)>::empty());
    r
}

/// An engine over source files alone.
pub fn build_source_engine() -> (r: EnginePlan)
    ensures
        r@ == source_layers(),
{
    let mut layers: Vec<Layer> = Vec::new();
    layers.push(Layer::Source);
    let r = EnginePlan { layers };
    assert(r@ =~= source_layers());
    r
}

/// An engine that loads packages.
pub fn build_loading_engine() -> (r: EnginePlan)
    ensures
        r@ == loading_layers(),
{
    let mut layers = build_source_engine().layers;
    let ghost below = views(layers@);
    layers.push(Layer::Load);
    layers.push(Layer::Package);
    let r = EnginePlan { layers };
    assert(r@ =~= below + seq![LayerView::Load, LayerView::Package]);
    r
}

/// An engine that analyzes targets, with no platform defined beyond the host's.
pub fn build_analysis_engine() -> (r: EnginePlan)
    ensures
        r@ == analysis_layers(Seq::empty(), plain_host()),
{
    build_analysis_engine_with_toolchains(no_platforms(), unconstrained_host())
}

/// An engine that analyzes targets, resolving toolchains among the `platforms` defined, with
/// `host_platform` the last execution platform considered.
pub fn build_analysis_engine_with_toolchains(
    platforms: Vec<(String, Platform)>,
    host_platform: RegisteredExecPlatform,
) -> (r: EnginePlan)
    ensures
        r@ == analysis_layers(platform_views(platforms@), host_platform@),
{
    let mut layers = build_loading_engine().layers;
    let ghost below = views(layers@);
    let top = Layer::Toolchain { platforms, host_platform };
    layers.push(Layer::Analysis);
    layers.push(top);
    let r = EnginePlan { layers };
    assert(r@ =~= below + seq![LayerView::Analysis, top@]);
    r
}

/// An engine that runs actions by `strategy`, finding inputs among the outputs of the same target
/// and the source files, and keeping bytes in memory.
pub fn build_execution_engine(strategy: Strategy) -> (r: EnginePlan)
    ensures
        r@ == execution_layers(
            strategy,
            Resolver::SameTargetOrSource,
            Blobs::InMemory,
            Seq::empty(),
            plain_host(),
        ),
{
    build_execution_engine_with(strategy, Resolver::SameTargetOrSource, Blobs::InMemory)
}

/// An engine that runs actions by `strategy`, with the inputs found by `resolver` and the bytes
/// kept in `blobs`.
pub fn build_execution_engine_with(
    strategy: Strategy,
    resolver: Resolver,
    blobs: Blobs,
) -> (r: EnginePlan)
    ensures
        r@ == execution_layers(strategy, resolver, blobs, Seq::empty(), plain_host()),
{
    build_execution_engine_with_toolchains(
        strategy,
        resolver,
        blobs,
        no_platforms(),
        unconstrained_host(),
    )
}

/// An engine that runs actions, with toolchains resolved among the `platforms` defined.
pub fn build_execution_engine_with_toolchains(
    strategy: Strategy,
    resolver: Resolver,
    blobs: Blobs,
    platforms: Vec<(String, Platform)>,
    host_platform: RegisteredExecPlatform,
) -> (r: EnginePlan)
    ensures
        r@ == execution_layers(
            strategy,
            resolver,
            blobs,
            platform_views(platforms@),
            host_platform@,
        ),
{
    let mut layers = build_analysis_engine_with_toolchains(platforms, host_platform).layers;
    let ghost below = views(layers@);
    let top = Layer::Action { strategy, resolver, blobs };
    layers.push(top);
    let r = EnginePlan { layers };
    assert(r@ =~= below + seq![top@]);
    r
}

/// Every engine is a stack without gaps, and each larger one only adds layers on top of the next
/// smaller one.
pub proof fn law_engines_are_stacked(
    strategy: Strategy,
    resolver: Resolver,
    blobs: Blobs,
    platforms: Seq<(Seq<char>, Seq<Seq<char>>)>,
    host_platform: ExecPlatformView,
)
    ensures
        stacked(execution_layers(strategy, resolver, blobs, platforms, host_platform)),
        stacked(analysis_layers(platforms, host_platform)),
        stacked(loading_layers()),
        stacked(source_layers()),
        analysis_layers(platforms, host_platform).is_prefix_of(
            execution_layers(strategy, resolver, blobs, platforms, host_platform),
        ),
        loading_layers().is_prefix_of(analysis_layers(platforms, host_platform)),
        source_layers().is_prefix_of(loading_layers()),
{
}

/// The layers of each engine, one by one: source files; modules and packages on top of them;
/// configured targets and toolchains on top of those, with the platforms and the host platform
/// given; and actions on top of all, run, fed and kept as given.
pub proof fn law_layers_of_the_engines(
    strategy: Strategy,
    resolver: Resolver,
    blobs: Blobs,
    platforms: Seq<(Seq<char>, Seq<Seq<char>>)>,
    host_platform: ExecPlatformView,
)
    ensures
        source_layers() == seq![LayerView::Source],
        loading_layers() == seq![LayerView::Source, LayerView::Load, LayerView::Package],
        analysis_layers(platforms, host_platform) == seq![
            LayerView::Source,
            LayerView::Load,
            LayerView::Package,
            LayerView::Analysis,
            LayerView::Toolchain { platforms, host_platform },
        ],
        execution_layers(strategy, resolver, blobs, platforms, host_platform) == seq![
            LayerView::Source,
            LayerView::Load,
            LayerView::Package,
            LayerView::Analysis,
            LayerView::Toolchain { platforms, host_platform },
            LayerView::Action { strategy, resolver, blobs },
        ],
        plain_host().name == "host"@,
        plain_host().constraints.len() == 0,
{
}

/// Layers and platforms are seen whole.
pub proof fn law_layers_are_seen_whole(
    platform: Platform,
    exec: RegisteredExecPlatform,
    platforms: Vec<(String, Platform)>,
    strategy: Strategy,
    resolver: Resolver,
    blobs: Blobs,
)
    ensures
        platform@ == texts(platform.constraints@),
        exec@.name == exec.name@,
        exec@.constraints == texts(exec.constraints@),
        platform_views(platforms@).len() == platforms.len(),
        forall|i: int|
            0 <= i < platforms.len() ==> #[trigger] platform_views(platforms@)[i] == (
                platforms[i].0@,
                platforms[i].1@,
            ),
        Layer::Source@ == LayerView::Source,
        Layer::Load@ == LayerView::Load,
        Layer::Package@ == LayerView::Package,
        Layer::Analysis@ == LayerView::Analysis,
        (Layer::Toolchain { platforms, host_platform: exec })@ == (LayerView::Toolchain {
            platforms: platform_views(platforms@),
            host_platform: exec@,
        }),
        (Layer::Action { strategy, resolver, blobs })@ == (LayerView::Action {
            strategy,
            resolver,
            blobs,
        }),
{
}

} // verus!
