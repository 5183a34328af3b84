//! Following the registered toolchains of a module through the build graph.
//!
//! Each registered label names a declaration target. Its package is loaded and the target's
//! `toolchain_type` and `toolchain` attributes are read; the implementation that the latter names
//! is analyzed, and the toolchain provider it returns becomes a registry row. Every missing link
//! is a typed error.

use vstd::prelude::*;

use crate::error::{Error, ErrorView, Fault, FaultView};
use crate::module_config::{
    abs_label, absolute, bad_toolchain_label, law_absolute_labels, split_label, ModuleFileValue,
};
use crate::order::views;
use crate::protocol::{after, asked, conversation, lemma_asked_kept, Protocol};
use crate::rust_toolchain::{
    any_platform, field_views, unconstrained, BzlValue, BzlValueView, RegisteredToolchain,
    RegisteredToolchainView, RUST_TOOLCHAIN_INFO, RUST_TOOLCHAIN_TYPE,
};
use crate::target::{
    label_parts, label_text, lemma_label_parts, write_label, ConfiguredTargetKey, ConfiguredTargetKeyView,
};
use crate::text::{copy_texts, same_text, texts};

verus! {

/// The value of the first field called `name`.
pub open spec fn first_named(
    fields: Seq<(Seq<char>, BzlValueView)>,
    name: Seq<char>,
) -> Option<BzlValueView>
    decreases fields.len(),
{
    if fields.len() == 0 {
        None
    } else if fields[0].0 == name {
        Some(fields[0].1)
    } else {
        first_named(fields.drop_first(), name)
    }
}

/// The label in the attribute `name` of a target declared in `package`, made absolute; none if the
/// attribute is missing or not a string.
pub open spec fn label_attr(
    attrs: Seq<(Seq<char>, BzlValueView)>,
    package: Seq<char>,
    name: Seq<char>,
) -> Option<Seq<char>> {
    match first_named(attrs, name) {
        Some(BzlValueView::Str(label)) => Some(absolute(package, label)),
        _ => None,
    }
}

/// What is asked of the build graph.
#[derive(Debug, PartialEq, Eq)]
pub enum GraphQuery {
    /// The attributes of the target `name` that `package` declares.
    Declaration { package: String, name: String },
    /// What the configured target returns of the provider called `provider`.
    Provider { target: ConfiguredTargetKey, provider: &'static str },
}

/// [`GraphQuery`] over characters.
#[verifier::ext_equal]
pub enum GraphQueryView {
    Declaration { package: Seq<char>, name: Seq<char> },
    Provider { target: ConfiguredTargetKeyView, provider: Seq<char> },
}

impl View for GraphQuery {
    type V = GraphQueryView;

    open spec fn view(&self) -> GraphQueryView {
        match self {
            GraphQuery::Declaration { package, name } => GraphQueryView::Declaration {
                package: package@,
                name: name@,
            },
            GraphQuery::Provider { target, provider } => GraphQueryView::Provider {
                target: target@,
                provider: provider@,
            },
        }
    }
}

/// What the build graph answers: a provider is an `I`, and its own failures are an `E`.
#[derive(Debug, PartialEq, Eq)]
pub enum GraphAnswer<I, E> {
    /// The attributes of the declared target, if the package declares it.
    Declared(Option<Vec<(String, BzlValue)>>),
    /// What the target returns of the provider, if anything.
    Returned(Option<I>),
    /// The node holds a value of another kind.
    WrongKind,
    /// The graph failed.
    Failed(E),
}

/// [`GraphAnswer`] over characters.
#[verifier::ext_equal]
pub enum GraphAnswerView<I, E> {
    Declared(Option<Seq<(Seq<char>, BzlValueView)>>),
    Returned(Option<I>),
    WrongKind,
    Failed(E),
}

impl<I, E> View for GraphAnswer<I, E> {
    type V = GraphAnswerView<I, E>;

    open spec fn view(&self) -> GraphAnswerView<I, E> {
        match self {
            GraphAnswer::Declared(Some(attrs)) => GraphAnswerView::Declared(
                Some(field_views(attrs@)),
            ),
            GraphAnswer::Declared(None) => GraphAnswerView::Declared(None),
            GraphAnswer::Returned(info) => GraphAnswerView::Returned(*info),
            GraphAnswer::WrongKind => GraphAnswerView::WrongKind,
            GraphAnswer::Failed(e) => GraphAnswerView::Failed(*e),
        }
    }
}

/// Where a resolution stands, with the rows of the labels already followed.
#[verifier::ext_equal]
pub enum ResolutionStepView<I, E> {
    Declaration {
        rows: Seq<RegisteredToolchainView<I>>,
        package: Seq<char>,
        name: Seq<char>,
    },
    Implementation {
        rows: Seq<RegisteredToolchainView<I>>,
        type_label: Seq<char>,
        impl_label: Seq<char>,
    },
    Finished { outcome: Result<Seq<RegisteredToolchainView<I>>, FaultView<E>> },
}

/// A resolution in progress, over characters.
#[verifier::ext_equal]
pub struct ResolutionView<I, E> {
    pub labels: Seq<Seq<char>>,
    pub configuration: Seq<char>,
    pub step: ResolutionStepView<I, E>,
}

impl<I, E> ResolutionView<I, E> {
    /// This resolution at another step.
    pub open spec fn at(self, step: ResolutionStepView<I, E>) -> ResolutionView<I, E> {
        ResolutionView { step, ..self }
    }

    /// This resolution, failed for a reason of its own.
    pub open spec fn failed(self, e: ErrorView) -> ResolutionView<I, E> {
        self.at(ResolutionStepView::Finished { outcome: Err(FaultView::Host(e)) })
    }

    /// This resolution with the rows of the first labels, about to follow the next.
    pub open spec fn following(self, rows: Seq<RegisteredToolchainView<I>>) -> ResolutionView<I, E> {
        if rows.len() < self.labels.len() {
            let label = self.labels[rows.len() as int];
            match label_parts(label) {
                Some((package, name)) => self.at(
                    ResolutionStepView::Declaration { rows, package, name },
                ),
                None => self.failed(bad_toolchain_label(label)),
            }
        } else {
            self.at(ResolutionStepView::Finished { outcome: Ok(rows) })
        }
    }

    /// The resolution of `labels` in `configuration` that begins.
    pub open spec fn begin(labels: Seq<Seq<char>>, configuration: Seq<char>) -> ResolutionView<I, E> {
        ResolutionView {
            labels,
            configuration,
            step: ResolutionStepView::Finished { outcome: Ok(Seq::empty()) },
        }.following(Seq::empty())
    }

    /// Whether the implementation about to be analyzed has a label, and its rows are of labels
    /// that there are.
    pub open spec fn wf(self) -> bool {
        match self.step {
            ResolutionStepView::Declaration { rows, .. } => rows.len() < self.labels.len(),
            ResolutionStepView::Implementation { rows, impl_label, .. } => rows.len()
                < self.labels.len() && label_parts(impl_label) is Some,
            ResolutionStepView::Finished { .. } => true,
        }
    }
}

/// The error that says `detail` of a declaration target.
pub open spec fn bad_declaration(detail: Seq<char>) -> ErrorView {
    ErrorView::Invalid { what: "toolchain target"@, detail }
}

impl<I, E> Protocol for ResolutionView<I, E> {
    type Request = GraphQueryView;

    type Reply = GraphAnswerView<I, E>;

    open spec fn pending(self) -> Option<GraphQueryView> {
        match self.step {
            ResolutionStepView::Declaration { package, name, .. } => Some(
                GraphQueryView::Declaration { package, name },
            ),
            ResolutionStepView::Implementation { impl_label, .. } => {
                let (package, name) = label_parts(impl_label)->0;
                Some(
                    GraphQueryView::Provider {
                        target: ConfiguredTargetKeyView {
                            package,
                            name,
                            configuration: Some(self.configuration),
                        },
                        provider: RUST_TOOLCHAIN_INFO@,
                    },
                )
            },
            ResolutionStepView::Finished { .. } => None,
        }
    }

    open spec fn answers(request: GraphQueryView, reply: GraphAnswerView<I, E>) -> bool {
        match request {
            GraphQueryView::Declaration { .. } => reply !is Returned,
            GraphQueryView::Provider { .. } => reply !is Declared,
        }
    }

    open spec fn next(self, reply: GraphAnswerView<I, E>) -> ResolutionView<I, E> {
        match (self.step, reply) {
            (ResolutionStepView::Finished { .. }, _) => self,
            (_, GraphAnswerView::Failed(e)) => self.at(
                ResolutionStepView::Finished { outcome: Err(FaultView::Graph(e)) },
            ),
            (
                ResolutionStepView::Declaration { package, .. },
                GraphAnswerView::WrongKind,
            ) => self.failed(
                ErrorView::Invalid {
                    what: "PACKAGE value"@,
                    detail: "package '"@ + package + "' did not analyze to a Package"@,
                },
            ),
            (
                ResolutionStepView::Declaration { package, name, .. },
                GraphAnswerView::Declared(None),
            ) => self.failed(
                ErrorView::NotFound {
                    what: "toolchain target"@,
                    detail: label_text(package, name) + " (from register_toolchains)"@,
                },
            ),
            (
                ResolutionStepView::Declaration { rows, package, name },
                GraphAnswerView::Declared(Some(attrs)),
            ) => match label_attr(attrs, package, "toolchain_type"@) {
                None => self.failed(
                    bad_declaration(
                        label_text(package, name) + " missing '"@ + "toolchain_type"@ + "'"@,
                    ),
                ),
                Some(type_label) => match label_attr(attrs, package, "toolchain"@) {
                    None => self.failed(
                        bad_declaration(
                            label_text(package, name) + " missing '"@ + "toolchain"@ + "'"@,
                        ),
                    ),
                    Some(impl_label) => if label_parts(impl_label) is None {
                        self.failed(bad_toolchain_label(impl_label))
                    } else {
                        self.at(ResolutionStepView::Implementation { rows, type_label, impl_label })
                    },
                },
            },
            (
                ResolutionStepView::Implementation { impl_label, .. },
                GraphAnswerView::WrongKind,
            ) => self.failed(
                ErrorView::Invalid {
                    what: "CONFIGURED_TARGET value"@,
                    detail: impl_label + " did not analyze to a ConfiguredTarget"@,
                },
            ),
            (
                ResolutionStepView::Implementation { impl_label, .. },
                GraphAnswerView::Returned(None),
            ) => self.failed(
                ErrorView::Invalid {
                    what: "toolchain impl"@,
                    detail: impl_label + " did not return platform_common.ToolchainInfo"@,
                },
            ),
            (
                ResolutionStepView::Implementation { rows, type_label, .. },
                GraphAnswerView::Returned(Some(info)),
            ) => self.following(rows.push(unconstrained(type_label, info))),
            _ => self,
        }
    }
}

#[derive(Debug)]
enum Step<I, E> {
    Declaration { rows: Vec<RegisteredToolchain<I>>, package: String, name: String },
    Implementation {
        rows: Vec<RegisteredToolchain<I>>,
        type_label: String,
        impl_label: String,
        target: ConfiguredTargetKey,
    },
    Finished { outcome: Result<Vec<RegisteredToolchain<I>>, Fault<E>> },
}

impl<I, E> Step<I, E> {
    spec fn seen(self) -> ResolutionStepView<I, E> {
        match self {
            Step::Declaration { rows, package, name } => ResolutionStepView::Declaration {
                rows: views(rows@),
                package: package@,
                name: name@,
            },
            Step::Implementation { rows, type_label, impl_label, .. } => {
                ResolutionStepView::Implementation {
                    rows: views(rows@),
                    type_label: type_label@,
                    impl_label: impl_label@,
                }
            },
            Step::Finished { outcome } => ResolutionStepView::Finished {
                outcome: match outcome {
                    Ok(all) => Ok(views(all@)),
                    Err(e) => Err(e@),
                },
            },
        }
    }

    fn host_fault(e: Error) -> (r: Step<I, E>)
        ensures
            r.seen() == (ResolutionStepView::<I, E>::Finished { outcome: Err(FaultView::Host(e@)) }),
    {
        Step::Finished { outcome: Err(Fault::Host(e)) }
    }
}

/// A resolution in progress.
#[derive(Debug)]
pub struct Resolution<I, E> {
    labels: Vec<String>,
    configuration: String,
    step: Step<I, E>,
}

impl<I, E> View for Resolution<I, E> {
    type V = ResolutionView<I, E>;

    closed spec fn view(&self) -> ResolutionView<I, E> {
        ResolutionView {
            labels: texts(self.labels@),
            configuration: self.configuration@,
            step: self.step.seen(),
        }
    }
}

/// Follows the label after the `rows` already resolved.
fn follow<I, E>(labels: &Vec<String>, rows: Vec<RegisteredToolchain<I>>) -> (r: Step<I, E>)
    ensures
        forall|v: ResolutionView<I, E>|
            v.labels == texts(labels@) ==> v.at(r.seen()) == #[trigger] v.following(views(rows@)),
{
    if rows.len() < labels.len() {
        let label = labels[rows.len()].as_str();
        match split_label(label) {
            Ok((package, name)) => Step::Declaration { rows, package, name },
            Err(e) => Step::host_fault(e),
        }
    } else {
        Step::Finished { outcome: Ok(rows) }
    }
}

/// The label in an attribute, made absolute.
fn attr(attrs: &Vec<(String, BzlValue)>, package: &str, name: &str) -> (r: Option<String>)
    ensures
        match r {
            Some(label) => label_attr(field_views(attrs@), package@, name@) == Some(label@),
            None => label_attr(field_views(attrs@), package@, name@) is None,
        },
{
    let ghost all = field_views(attrs@);
    let mut i: usize = 0;
    assert(all.skip(0) =~= all);
    while i < attrs.len()
        invariant
            i <= attrs.len(),
            all == field_views(attrs@),
            first_named(all, name@) == first_named(all.skip(i as int), name@),
        decreases attrs.len() - i,
    {
        assert(all.skip(i as int)[0] == (attrs[i as int].0@, attrs[i as int].1@));
        assert(all.skip(i as int).drop_first() =~= all.skip(i + 1));
        if same_text(attrs[i].0.as_str(), name) {
            return match &attrs[i].1 {
                BzlValue::Str(label) => Some(abs_label(package, label.as_str())),
                BzlValue::Other => None,
            };
        }
        i += 1;
    }
    None
}

/// The error of a declaration target without a usable attribute.
fn missing(package: &str, name: &str, attr: &str) -> (r: Error)
    ensures
        r@ == bad_declaration(label_text(package@, name@) + " missing '"@ + attr@ + "'"@),
{
    let detail = write_label(package, name).concat(" missing '").concat(attr).concat("'");
    Error::Invalid { what: "toolchain target".to_owned(), detail }
}

/// Begins to resolve the toolchains that `module` registers, in `configuration`.
pub fn resolve_module_toolchains<I, E>(module: &ModuleFileValue, configuration: &str) -> (r:
    Resolution<I, E>)
    ensures
        r@ == ResolutionView::<I, E>::begin(module@.registered_toolchains, configuration@),
        r.wf(),
{
    let labels = copy_texts(&module.registered_toolchains);
    let rows: Vec<RegisteredToolchain<I>> = Vec::new();
    assert(views(rows@) =~= Seq::<RegisteredToolchainView<I>>::empty());
    let step = follow(&labels, rows);
    let r = Resolution { labels, configuration: configuration.to_owned(), step };
    proof {
        let blank = ResolutionView::<I, E> {
            labels: texts(labels@),
            configuration: configuration@,
            step: ResolutionStepView::Finished { outcome: Ok(Seq::empty()) },
        };
        assert(blank.at(step.seen()) == blank.following(Seq::empty()));
        assert(r@ =~= blank.at(step.seen()));
    }
    r
}

impl<I, E> Resolution<I, E> {
    /// Whether the resolution is at a point it can be at.
    pub closed spec fn wf(self) -> bool {
        &&& self@.wf()
        &&& match self.step {
            Step::Implementation { impl_label, target, .. } => {
                let (package, name) = label_parts(impl_label@)->0;
                target@ == (ConfiguredTargetKeyView {
                    package,
                    name,
                    configuration: Some(self.configuration@),
                })
            },
            _ => true,
        }
    }

    /// What the resolution asks next; nothing once it is over.
    pub fn request(&self) -> (r: Option<GraphQuery>)
        requires
            self.wf(),
        ensures
            match r {
                Some(q) => self@.pending() == Some(q@),
                None => self@.pending() is None,
            },
    {
        match &self.step {
            Step::Declaration { package, name, .. } => Some(
                GraphQuery::Declaration { package: package.clone(), name: name.clone() },
            ),
            Step::Implementation { target, .. } => Some(
                GraphQuery::Provider { target: target.clone(), provider: RUST_TOOLCHAIN_INFO },
            ),
            Step::Finished { .. } => None,
        }
    }

    /// Moves on with the graph's answer.
    pub fn resume(self, reply: GraphAnswer<I, E>) -> (r: Resolution<I, E>)
        requires
            self.wf(),
        ensures
            r@ == self@.next(reply@),
            r.wf(),
    {
        let ghost before = self@;
        let Resolution { labels, configuration, step } = self;
        let next = match (step, reply) {
            (Step::Finished { outcome }, _) => Step::Finished { outcome },
            (_, GraphAnswer::Failed(e)) => Step::Finished { outcome: Err(Fault::Graph(e)) },
            (Step::Declaration { package, .. }, GraphAnswer::WrongKind) => {
                let detail = "package '".to_owned().concat(package.as_str()).concat(
                    "' did not analyze to a Package",
                );
                Step::host_fault(Error::Invalid { what: "PACKAGE value".to_owned(), detail })
            },
            (Step::Declaration { package, name, .. }, GraphAnswer::Declared(None)) => {
                let detail = write_label(package.as_str(), name.as_str()).concat(
                    " (from register_toolchains)",
                );
                Step::host_fault(Error::NotFound { what: "toolchain target".to_owned(), detail })
            },
            (Step::Declaration { rows, package, name }, GraphAnswer::Declared(Some(attrs))) => {
                let pkg = package.as_str();
                match (attr(&attrs, pkg, "toolchain_type"), attr(&attrs, pkg, "toolchain")) {
                    (None, _) => Step::host_fault(missing(pkg, name.as_str(), "toolchain_type")),
                    (_, None) => Step::host_fault(missing(pkg, name.as_str(), "toolchain")),
                    (Some(type_label), Some(impl_label)) => {
                        match split_label(impl_label.as_str()) {
                            Err(e) => Step::host_fault(e),
                            Ok((package, name)) => {
                                let target = ConfiguredTargetKey {
                                    package,
                                    name,
                                    configuration: Some(configuration.clone()),
                                };
                                Step::Implementation { rows, type_label, impl_label, target }
                            },
                        }
                    },
                }
            },
            (Step::Implementation { impl_label, .. }, GraphAnswer::WrongKind) => {
                let detail = impl_label.concat(" did not analyze to a ConfiguredTarget");
                let what = "CONFIGURED_TARGET value".to_owned();
                Step::host_fault(Error::Invalid { what, detail })
            },
            (Step::Implementation { impl_label, .. }, GraphAnswer::Returned(None)) => {
                let detail = impl_label.concat(" did not return platform_common.ToolchainInfo");
                Step::host_fault(Error::Invalid { what: "toolchain impl".to_owned(), detail })
            },
            (Step::Implementation { rows, type_label, .. }, GraphAnswer::Returned(Some(info))) => {
                let mut rows = rows;
                let ghost so_far = views(rows@);
                rows.push(any_platform(type_label, info));
                assert(views(rows@) =~= so_far.push(unconstrained(type_label@, info)));
                follow(&labels, rows)
            },
            (step, _) => step,
        };
        let r = Resolution { labels, configuration, step: next };
        assert(r@ =~= before.at(next.seen()));
        r
    }

    /// The rows, or why there are none, once the resolution is over.
    pub fn outcome(self) -> (r: Option<Result<Vec<RegisteredToolchain<I>>, Fault<E>>>)
        ensures
            match self@.step {
                ResolutionStepView::Finished { outcome } => match r {
                    Some(Ok(all)) => outcome == Ok::<Seq<RegisteredToolchainView<I>>, FaultView<E>>(
                        views(all@),
                    ),
                    Some(Err(e)) => outcome == Err::<Seq<RegisteredToolchainView<I>>, FaultView<E>>(e@),
                    None => false,
                },
                _ => r is None,
            },
    {
        match self.step {
            Step::Finished { outcome } => Some(outcome),
            _ => None,
        }
    }
}

/// Whether `row` is what following `label` gave, where replies `t` and `t + 1` were about it: the
/// first gave the attributes of the target it names, the second the provider that the
/// implementation named there returns in `configuration`.
pub open spec fn followed<I, E>(
    start: ResolutionView<I, E>,
    replies: Seq<GraphAnswerView<I, E>>,
    t: int,
    label: Seq<char>,
    row: RegisteredToolchainView<I>,
) -> bool {
    &&& label_parts(label) matches Some((package, name))
    &&& asked(start, replies, t) == (GraphQueryView::Declaration { package, name })
    &&& replies[t] matches GraphAnswerView::Declared(Some(attrs))
    &&& label_attr(attrs, package, "toolchain_type"@) matches Some(type_label)
    &&& label_attr(attrs, package, "toolchain"@) matches Some(impl_label)
    &&& label_parts(impl_label) matches Some((impl_package, impl_name))
    &&& asked(start, replies, t + 1) == (GraphQueryView::Provider {
        target: ConfiguredTargetKeyView {
            package: impl_package,
            name: impl_name,
            configuration: Some(start.configuration),
        },
        provider: RUST_TOOLCHAIN_INFO@,
    })
    &&& replies[t + 1] matches GraphAnswerView::Returned(Some(info))
    &&& row == unconstrained(type_label, info)
}

/// Whether every row is what following the label at its place gave.
pub open spec fn all_followed<I, E>(
    start: ResolutionView<I, E>,
    replies: Seq<GraphAnswerView<I, E>>,
    rows: Seq<RegisteredToolchainView<I>>,
) -> bool {
    forall|i: int|
        0 <= i < rows.len() ==> followed(start, replies, 2 * i, start.labels[i], #[trigger] rows[i])
}

/// Whether a reply carries what was asked for.
pub open spec fn delivers<I, E>(reply: GraphAnswerView<I, E>) -> bool {
    match reply {
        GraphAnswerView::Declared(attrs) => attrs is Some,
        GraphAnswerView::Returned(info) => info is Some,
        _ => false,
    }
}

/// What a resolution has at each point, from its first.
spec fn rows_so_far<I, E>(
    start: ResolutionView<I, E>,
    replies: Seq<GraphAnswerView<I, E>>,
) -> bool {
    let now = after(start, replies);
    &&& now.labels == start.labels
    &&& now.configuration == start.configuration
    &&& now.wf()
    &&& match now.step {
        ResolutionStepView::Declaration { rows, package, name } => {
            &&& replies.len() == 2 * rows.len()
            &&& label_parts(start.labels[rows.len() as int]) == Some((package, name))
            &&& all_followed(start, replies, rows)
        },
        ResolutionStepView::Implementation { rows, type_label, impl_label } => {
            let t = 2 * rows.len() as int;
            &&& replies.len() == t + 1
            &&& label_parts(start.labels[rows.len() as int]) matches Some((package, name))
            &&& asked(start, replies, t) == (GraphQueryView::Declaration { package, name })
            &&& replies[t] matches GraphAnswerView::Declared(Some(attrs))
            &&& label_attr(attrs, package, "toolchain_type"@) == Some(type_label)
            &&& label_attr(attrs, package, "toolchain"@) == Some(impl_label)
            &&& all_followed(start, replies, rows)
        },
        ResolutionStepView::Finished { outcome: Ok(rows) } => {
            &&& rows.len() == start.labels.len()
            &&& replies.len() == 2 * rows.len()
            &&& all_followed(start, replies, rows)
        },
        ResolutionStepView::Finished { outcome: Err(_) } => replies.len() <= 2 * start.labels.len(),
    }
}

proof fn lemma_still_followed<I, E>(
    start: ResolutionView<I, E>,
    replies: Seq<GraphAnswerView<I, E>>,
    rows: Seq<RegisteredToolchainView<I>>,
)
    requires
        replies.len() > 0,
        2 * rows.len() <= replies.len() - 1,
        all_followed(start, replies.drop_last(), rows),
    ensures
        all_followed(start, replies, rows),
{
    lemma_asked_kept(start, replies);
    assert forall|i: int| 0 <= i < rows.len() implies followed(
        start,
        replies,
        2 * i,
        start.labels[i],
        #[trigger] rows[i],
    ) by {
        let past = replies.drop_last();
        assert(followed(start, past, 2 * i, start.labels[i], rows[i]));
        assert(asked(start, replies, 2 * i) == asked(start, past, 2 * i));
        assert(asked(start, replies, 2 * i + 1) == asked(start, past, 2 * i + 1));
    }
}

proof fn lemma_rows_so_far<I, E>(
    labels: Seq<Seq<char>>,
    configuration: Seq<char>,
    replies: Seq<GraphAnswerView<I, E>>,
)
    requires
        conversation(ResolutionView::<I, E>::begin(labels, configuration), replies),
    ensures
        rows_so_far(ResolutionView::<I, E>::begin(labels, configuration), replies),
    decreases replies.len(),
{
    let start = ResolutionView::<I, E>::begin(labels, configuration);
    if replies.len() > 0 {
        let past = replies.drop_last();
        lemma_rows_so_far::<I, E>(labels, configuration, past);
        lemma_asked_kept(start, replies);
        let was = after(start, past);
        match (was.step, replies.last()) {
            (ResolutionStepView::Declaration { rows, .. }, _) => {
                lemma_still_followed(start, replies, rows);
            },
            (
                ResolutionStepView::Implementation { rows, type_label, .. },
                GraphAnswerView::Returned(Some(info)),
            ) => {
                lemma_still_followed(start, replies, rows);
                let t = 2 * rows.len() as int;
                assert(asked(start, replies, t) == asked(start, past, t));
                let more = rows.push(unconstrained(type_label, info));
                assert(followed(start, replies, t, start.labels[rows.len() as int], more.last()));
                assert forall|i: int| 0 <= i < more.len() implies followed(
                    start,
                    replies,
                    2 * i,
                    start.labels[i],
                    #[trigger] more[i],
                ) by {
                    if i < rows.len() {
                        assert(more[i] == rows[i]);
                    }
                }
            },
            _ => {},
        }
    }
}

/// A resolution that succeeds has one row per registered label, in the order of registration, and
/// each row is what following its label through the graph gave.
pub proof fn law_rows_come_from_the_graph<I, E>(
    labels: Seq<Seq<char>>,
    configuration: Seq<char>,
    replies: Seq<GraphAnswerView<I, E>>,
    rows: Seq<RegisteredToolchainView<I>>,
)
    requires
        conversation(ResolutionView::<I, E>::begin(labels, configuration), replies),
        after(ResolutionView::<I, E>::begin(labels, configuration), replies).step == (
        ResolutionStepView::<I, E>::Finished { outcome: Ok(rows) }),
    ensures
        rows.len() == labels.len(),
        replies.len() == 2 * labels.len(),
        forall|i: int|
            0 <= i < labels.len() ==> followed(
                ResolutionView::<I, E>::begin(labels, configuration),
                replies,
                2 * i,
                labels[i],
                #[trigger] rows[i],
            ),
{
    lemma_rows_so_far::<I, E>(labels, configuration, replies);
}

/// A reply that does not carry what was asked for ends the resolution with an error: no row is
/// made up and no label is passed over.
pub proof fn law_missing_links_fail_closed<I, E>(
    labels: Seq<Seq<char>>,
    configuration: Seq<char>,
    replies: Seq<GraphAnswerView<I, E>>,
    t: int,
)
    requires
        conversation(ResolutionView::<I, E>::begin(labels, configuration), replies),
        0 <= t < replies.len(),
        !delivers(replies[t]),
    ensures
        t == replies.len() - 1,
        after(ResolutionView::<I, E>::begin(labels, configuration), replies).step matches
            ResolutionStepView::Finished { outcome } && outcome is Err,
    decreases replies.len(),
{
    let start = ResolutionView::<I, E>::begin(labels, configuration);
    let past = replies.drop_last();
    if t < replies.len() - 1 {
        assert(past[t] == replies[t]);
        law_missing_links_fail_closed::<I, E>(labels, configuration, past, t);
    }
}

/// Whether a declaration of `package` names a type and an implementation that has a label.
pub open spec fn usable(
    attrs: Seq<(Seq<char>, BzlValueView)>,
    package: Seq<char>,
) -> bool {
    &&& label_attr(attrs, package, "toolchain_type"@) is Some
    &&& label_attr(attrs, package, "toolchain"@) matches Some(impl_label)
    &&& label_parts(impl_label) is Some
}

/// A resolution succeeds if no link is missing: every registered label has its parts, every reply
/// carries what was asked for, and every declaration is usable.
pub proof fn law_present_links_succeed<I, E>(
    labels: Seq<Seq<char>>,
    configuration: Seq<char>,
    replies: Seq<GraphAnswerView<I, E>>,
)
    requires
        conversation(ResolutionView::<I, E>::begin(labels, configuration), replies),
        forall|i: int| 0 <= i < labels.len() ==> label_parts(#[trigger] labels[i]) is Some,
        forall|t: int|
            0 <= t < replies.len() ==> {
                &&& delivers(#[trigger] replies[t])
                &&& asked(ResolutionView::<I, E>::begin(labels, configuration), replies, t) matches
                    GraphQueryView::Declaration { package, .. } ==> usable(
                    replies[t]->Declared_0->0,
                    package,
                )
            },
    ensures
        after(ResolutionView::<I, E>::begin(labels, configuration), replies).step matches
            ResolutionStepView::Finished { outcome } ==> outcome is Ok,
    decreases replies.len(),
{
    let start = ResolutionView::<I, E>::begin(labels, configuration);
    if replies.len() > 0 {
        let past = replies.drop_last();
        lemma_asked_kept(start, replies);
        assert forall|t: int| 0 <= t < past.len() implies {
            &&& delivers(#[trigger] past[t])
            &&& asked(start, past, t) matches GraphQueryView::Declaration { package, .. } ==> usable(
                past[t]->Declared_0->0,
                package,
            )
        } by {
            assert(past[t] == replies[t]);
            assert(asked(start, replies, t) == asked(start, past, t));
        }
        law_present_links_succeed::<I, E>(labels, configuration, past);
        lemma_rows_so_far::<I, E>(labels, configuration, past);
        assert(delivers(replies.last()));
        let was = after(start, past);
        assert(asked(start, replies, past.len() as int) == was.pending()->0);
        assert(replies[past.len() as int] == replies.last());
    }
}

/// A resolution comes to an end after at most two questions per registered label.
pub proof fn law_resolution_ends<I, E>(
    labels: Seq<Seq<char>>,
    configuration: Seq<char>,
    replies: Seq<GraphAnswerView<I, E>>,
)
    requires
        conversation(ResolutionView::<I, E>::begin(labels, configuration), replies),
    ensures
        replies.len() <= 2 * labels.len(),
{
    lemma_rows_so_far::<I, E>(labels, configuration, replies);
}

/// A toolchain of the package `rules/rust` that is declared for the package's own
/// `toolchain_type` has the same type as the row of a discovered compiler, however its attribute
/// writes the label.
pub proof fn law_declared_type_is_the_rust_type(
    attrs: Seq<(Seq<char>, BzlValueView)>,
    written: Seq<char>,
)
    requires
        first_named(attrs, "toolchain_type"@) == Some(BzlValueView::Str(written)),
        written == ":toolchain_type"@ || written == RUST_TOOLCHAIN_TYPE@,
    ensures
        label_attr(attrs, "rules/rust"@, "toolchain_type"@) == Some(RUST_TOOLCHAIN_TYPE@),
{
    reveal_strlit(":toolchain_type");
    reveal_strlit("toolchain_type");
    reveal_strlit("rules/rust");
    reveal_strlit("//rules/rust:toolchain_type");
    reveal_strlit("//");
    reveal_strlit(":");
    if written == ":toolchain_type"@ {
        assert(written.take(1) =~= ":"@);
        assert(written.skip(1) =~= "toolchain_type"@);
        assert(label_text("rules/rust"@, "toolchain_type"@) =~= RUST_TOOLCHAIN_TYPE@);
    } else {
        assert(written[0] != ":"@[0]);
    }
}

/// Whether the first attribute called `name` is the string `text`.
pub open spec fn attr_is(
    attrs: Seq<(Seq<char>, BzlValueView)>,
    name: Seq<char>,
    text: Seq<char>,
) -> bool {
    exists|j: int|
        {
            &&& 0 <= j < attrs.len()
            &&& (#[trigger] attrs[j]).0 == name
            &&& attrs[j].1 == BzlValueView::Str(text)
            &&& forall|k: int| 0 <= k < j ==> (#[trigger] attrs[k]).0 != name
        }
}

proof fn lemma_first_named(attrs: Seq<(Seq<char>, BzlValueView)>, name: Seq<char>)
    ensures
        first_named(attrs, name) is None <==> (forall|j: int|
            0 <= j < attrs.len() ==> (#[trigger] attrs[j]).0 != name),
        first_named(attrs, name) matches Some(value) ==> exists|j: int|
            {
                &&& 0 <= j < attrs.len()
                &&& (#[trigger] attrs[j]).0 == name
                &&& attrs[j].1 == value
                &&& forall|k: int| 0 <= k < j ==> (#[trigger] attrs[k]).0 != name
            },
    decreases attrs.len(),
{
    if attrs.len() > 0 {
        let rest = attrs.drop_first();
        lemma_first_named(rest, name);
        if attrs[0].0 != name {
            if let Some(value) = first_named(rest, name) {
                let j = choose|j: int|
                    {
                        &&& 0 <= j < rest.len()
                        &&& (#[trigger] rest[j]).0 == name
                        &&& rest[j].1 == value
                        &&& forall|k: int| 0 <= k < j ==> (#[trigger] rest[k]).0 != name
                    };
                assert(attrs[j + 1] == rest[j]);
                assert forall|k: int| 0 <= k < j + 1 implies (#[trigger] attrs[k]).0 != name by {
                    if k > 0 {
                        assert(rest[k - 1] == attrs[k]);
                    }
                }
            } else {
                assert forall|j: int| 0 <= j < attrs.len() implies (#[trigger] attrs[j]).0 != name by {
                    if j > 0 {
                        assert(rest[j - 1] == attrs[j]);
                    }
                }
            }
        }
    }
}

/// What the text of an attribute comes to, in words of the text itself. The first attribute of a
/// name decides, and only as a string. A text that begins with a colon names a target of the
/// declaring package, and any other text is taken as it is; an attribute that is missing or no
/// string comes to nothing.
pub proof fn law_attributes_are_labels(
    attrs: Seq<(Seq<char>, BzlValueView)>,
    package: Seq<char>,
    name: Seq<char>,
    text: Seq<char>,
    target: Seq<char>,
)
    ensures
        attr_is(attrs, name, text) && text == ":"@ + target ==> label_attr(attrs, package, name)
            == Some("//"@ + package + ":"@ + target),
        attr_is(attrs, name, text) && !":"@.is_prefix_of(text) ==> label_attr(attrs, package, name)
            == Some(text),
        label_attr(attrs, package, name) is Some <==> exists|t: Seq<char>|
            #[trigger] attr_is(attrs, name, t),
{
    lemma_first_named(attrs, name);
    law_absolute_labels(package, target, text);
    let found = first_named(attrs, name);
    assert forall|t: Seq<char>| #[trigger] attr_is(attrs, name, t) implies found == Some(
        BzlValueView::Str(t),
    ) by {
        let j = choose|j: int|
            {
                &&& 0 <= j < attrs.len()
                &&& (#[trigger] attrs[j]).0 == name
                &&& attrs[j].1 == BzlValueView::Str(t)
                &&& forall|k: int| 0 <= k < j ==> (#[trigger] attrs[k]).0 != name
            };
        assert(attrs[j].0 == name);
        let value = found->0;
        let i = choose|i: int|
            {
                &&& 0 <= i < attrs.len()
                &&& (#[trigger] attrs[i]).0 == name
                &&& attrs[i].1 == value
                &&& forall|k: int| 0 <= k < i ==> (#[trigger] attrs[k]).0 != name
            };
        if i < j {
            assert(attrs[i].0 != name);
        } else if j < i {
            assert(attrs[j].0 != name);
        }
    }
    if let Some(BzlValueView::Str(t)) = found {
        assert(attr_is(attrs, name, t));
    }
}

/// Whether `text`, written in `package`, names the target `target` of the package `of`: as
/// `//of:target`, or as `:target` if that is the package it is written in.
pub open spec fn names_target(
    text: Seq<char>,
    package: Seq<char>,
    of: Seq<char>,
    target: Seq<char>,
) -> bool {
    &&& !of.contains(':')
    &&& text == "//"@ + of + ":"@ + target || (text == ":"@ + target && of == package)
}

/// What each question to the graph is about, in every resolution, whatever comes of it. Even
/// questions are about the target that a registered label names. The odd one that follows is about
/// the implementation that this target's `toolchain` attribute names, in the configuration given:
/// the target of the label's own package if the label is absolute, wherever it is written, and of
/// the declaring package if it begins with a colon.
pub proof fn law_questions_follow_the_labels<I, E>(
    labels: Seq<Seq<char>>,
    configuration: Seq<char>,
    replies: Seq<GraphAnswerView<I, E>>,
    t: int,
)
    requires
        conversation(ResolutionView::<I, E>::begin(labels, configuration), replies),
        0 <= t < replies.len(),
    ensures
        t / 2 < labels.len(),
        t % 2 == 0 ==> (asked(ResolutionView::<I, E>::begin(labels, configuration), replies, t)
            matches GraphQueryView::Declaration { package, name } && labels[t / 2] == "//"@
            + package + ":"@ + name && !package.contains(':')),
        t % 2 == 1 ==> {
            let start = ResolutionView::<I, E>::begin(labels, configuration);
            &&& asked(start, replies, t - 1) matches GraphQueryView::Declaration { package, .. }
            &&& replies[t - 1] matches GraphAnswerView::Declared(Some(attrs))
            &&& asked(start, replies, t) matches GraphQueryView::Provider { target, provider }
            &&& provider == "ToolchainInfo"@
            &&& target.configuration == Some(configuration)
            &&& exists|text: Seq<char>|
                #[trigger] attr_is(attrs, "toolchain"@, text) && names_target(
                    text,
                    package,
                    target.package,
                    target.name,
                )
        },
    decreases replies.len(),
{
    let start = ResolutionView::<I, E>::begin(labels, configuration);
    let past = replies.drop_last();
    lemma_asked_kept(start, replies);
    if t < replies.len() - 1 {
        law_questions_follow_the_labels::<I, E>(labels, configuration, past, t);
        assert(asked(start, replies, t) == asked(start, past, t));
        if t % 2 == 1 {
            assert(asked(start, replies, t - 1) == asked(start, past, t - 1));
            assert(replies[t - 1] == past[t - 1]);
        }
    } else {
        lemma_rows_so_far::<I, E>(labels, configuration, past);
        let was = after(start, past);
        match was.step {
            ResolutionStepView::Declaration { rows, package, name } => {
                assert(t == 2 * rows.len());
                assert(t / 2 == rows.len());
                lemma_label_parts(labels[rows.len() as int], package, name);
            },
            ResolutionStepView::Implementation { rows, type_label, impl_label } => {
                let u = 2 * rows.len() as int;
                assert(t == u + 1);
                assert(t / 2 == rows.len());
                assert(t % 2 == 1);
                law_questions_follow_the_labels::<I, E>(labels, configuration, past, u);
                assert(asked(start, replies, u) == asked(start, past, u));
                assert(replies[u] == past[u]);
                let (package, name) = label_parts(labels[rows.len() as int])->0;
                lemma_label_parts(labels[rows.len() as int], package, name);
                let attrs = past[u]->Declared_0->0;
                let (p, n) = label_parts(impl_label)->0;
                lemma_label_parts(impl_label, p, n);
                let empty = Seq::<char>::empty();
                law_attributes_are_labels(attrs, package, "toolchain"@, empty, empty);
                let text = choose|text: Seq<char>| #[trigger] attr_is(attrs, "toolchain"@, text);
                lemma_named_by(attrs, package, "toolchain"@, text, p, n);
            },
            _ => {},
        }
    }
}

proof fn lemma_named_by(
    attrs: Seq<(Seq<char>, BzlValueView)>,
    package: Seq<char>,
    name: Seq<char>,
    text: Seq<char>,
    p: Seq<char>,
    n: Seq<char>,
)
    requires
        attr_is(attrs, name, text),
        !package.contains(':'),
        label_attr(attrs, package, name) is Some,
        label_parts(label_attr(attrs, package, name)->0) == Some((p, n)),
    ensures
        names_target(text, package, p, n),
{
    let label = label_attr(attrs, package, name)->0;
    lemma_label_parts(label, p, n);
    if ":"@.is_prefix_of(text) {
        let target = text.skip(":"@.len() as int);
        assert(text =~= ":"@ + target);
        law_attributes_are_labels(attrs, package, name, text, target);
        lemma_label_parts(label, package, target);
    } else {
        law_attributes_are_labels(attrs, package, name, text, text);
    }
}

/// What a row of a resolution that succeeds is. Its type is the text of the declaration's
/// `toolchain_type` attribute, as it stands if it is absolute and put behind the declaring package
/// if it begins with a colon. It provides what the graph returned, and is limited to no platform.
pub proof fn law_rows_are_as_declared<I, E>(
    labels: Seq<Seq<char>>,
    configuration: Seq<char>,
    replies: Seq<GraphAnswerView<I, E>>,
    rows: Seq<RegisteredToolchainView<I>>,
    i: int,
)
    requires
        conversation(ResolutionView::<I, E>::begin(labels, configuration), replies),
        after(ResolutionView::<I, E>::begin(labels, configuration), replies).step == (
        ResolutionStepView::<I, E>::Finished { outcome: Ok(rows) }),
        0 <= i < labels.len(),
    ensures
        rows.len() == labels.len(),
        replies.len() == 2 * labels.len(),
        replies[2 * i + 1] == GraphAnswerView::<I, E>::Returned(Some(rows[i].info)),
        rows[i].target_compatible_with.len() == 0,
        rows[i].exec_compatible_with.len() == 0,
        ({
            let start = ResolutionView::<I, E>::begin(labels, configuration);
            &&& asked(start, replies, 2 * i) matches GraphQueryView::Declaration { package, .. }
            &&& replies[2 * i] matches GraphAnswerView::Declared(Some(attrs))
            &&& exists|text: Seq<char>|
                #[trigger] attr_is(attrs, "toolchain_type"@, text) && (if ":"@.is_prefix_of(text) {
                    rows[i].toolchain_type == "//"@ + package + text
                } else {
                    rows[i].toolchain_type == text
                })
        }),
{
    let start = ResolutionView::<I, E>::begin(labels, configuration);
    law_rows_come_from_the_graph::<I, E>(labels, configuration, replies, rows);
    assert(followed(start, replies, 2 * i, labels[i], rows[i]));
    let attrs = replies[2 * i]->Declared_0->0;
    let (package, name) = label_parts(labels[i])->0;
    let empty = Seq::<char>::empty();
    law_attributes_are_labels(attrs, package, "toolchain_type"@, empty, empty);
    let text = choose|text: Seq<char>| #[trigger] attr_is(attrs, "toolchain_type"@, text);
    let target = text.skip(":"@.len() as int);
    if ":"@.is_prefix_of(text) {
        assert(text =~= ":"@ + target);
        assert("//"@ + package + ":"@ + target =~= "//"@ + package + text);
    }
    law_attributes_are_labels(attrs, package, "toolchain_type"@, text, target);
}

/// The resolution that begins is of the labels and in the configuration given. Without labels it
/// is over, with no rows; with a first label that is not `//pkg:name` it is over, with the error
/// that quotes it.
pub proof fn law_resolution_begins<I, E>(labels: Seq<Seq<char>>, configuration: Seq<char>)
    ensures
        ({
            let start = ResolutionView::<I, E>::begin(labels, configuration);
            &&& start.labels == labels
            &&& start.configuration == configuration
            &&& labels.len() == 0 ==> start.step == (ResolutionStepView::<I, E>::Finished {
                outcome: Ok(Seq::empty()),
            })
            &&& labels.len() > 0 && label_parts(labels[0]) is None ==> start.step == (
            ResolutionStepView::<I, E>::Finished {
                outcome: Err(
                    FaultView::Host(
                        ErrorView::Invalid {
                            what: "toolchain label"@,
                            detail: "expected '//pkg:name', got '"@ + labels[0] + "'"@,
                        },
                    ),
                ),
            })
            &&& labels.len() > 0 && label_parts(labels[0]) is Some ==> start.pending() is Some
        }),
{
}

/// The error that a resolution ends in when a link is missing, by the last question and its
/// answer: a failure of the graph is passed on, a node of another kind, a target that is not
/// declared, an attribute that is missing (the type first), a label that is not `//pkg:name` and a
/// provider that is not returned are each named.
pub proof fn law_missing_links_are_named<I, E>(
    labels: Seq<Seq<char>>,
    configuration: Seq<char>,
    replies: Seq<GraphAnswerView<I, E>>,
)
    requires
        conversation(ResolutionView::<I, E>::begin(labels, configuration), replies),
        replies.len() > 0,
    ensures
        ({
            let start = ResolutionView::<I, E>::begin(labels, configuration);
            let now = after(start, replies).step;
            match (asked(start, replies, replies.len() - 1), replies.last()) {
                (_, GraphAnswerView::Failed(e)) => now == (ResolutionStepView::<I, E>::Finished {
                    outcome: Err(FaultView::Graph(e)),
                }),
                (GraphQueryView::Declaration { package, .. }, GraphAnswerView::WrongKind) => now
                    == (ResolutionStepView::<I, E>::Finished {
                    outcome: Err(
                        FaultView::Host(
                            ErrorView::Invalid {
                                what: "PACKAGE value"@,
                                detail: "package '"@ + package + "' did not analyze to a Package"@,
                            },
                        ),
                    ),
                }),
                (
                    GraphQueryView::Declaration { package, name },
                    GraphAnswerView::Declared(None),
                ) => now == (ResolutionStepView::<I, E>::Finished {
                    outcome: Err(
                        FaultView::Host(
                            ErrorView::NotFound {
                                what: "toolchain target"@,
                                detail: "//"@ + package + ":"@ + name
                                    + " (from register_toolchains)"@,
                            },
                        ),
                    ),
                }),
                (
                    GraphQueryView::Declaration { package, name },
                    GraphAnswerView::Declared(Some(attrs)),
                ) => {
                    &&& !(exists|t: Seq<char>| #[trigger] attr_is(attrs, "toolchain_type"@, t))
                        ==> now == (ResolutionStepView::<I, E>::Finished {
                        outcome: Err(
                            FaultView::Host(
                                ErrorView::Invalid {
                                    what: "toolchain target"@,
                                    detail: "//"@ + package + ":"@ + name + " missing '"@
                                        + "toolchain_type"@ + "'"@,
                                },
                            ),
                        ),
                    })
                    &&& (exists|t: Seq<char>| #[trigger] attr_is(attrs, "toolchain_type"@, t))
                        && !(exists|t: Seq<char>| #[trigger] attr_is(attrs, "toolchain"@, t)) ==> now
                        == (ResolutionStepView::<I, E>::Finished {
                        outcome: Err(
                            FaultView::Host(
                                ErrorView::Invalid {
                                    what: "toolchain target"@,
                                    detail: "//"@ + package + ":"@ + name + " missing '"@
                                        + "toolchain"@ + "'"@,
                                },
                            ),
                        ),
                    })
                    &&& forall|text: Seq<char>|
                        (exists|t: Seq<char>| #[trigger] attr_is(attrs, "toolchain_type"@, t))
                            && #[trigger] attr_is(attrs, "toolchain"@, text) && !":"@.is_prefix_of(
                            text,
                        ) && label_parts(text) is None ==> now == (
                        ResolutionStepView::<I, E>::Finished {
                            outcome: Err(
                                FaultView::Host(
                                    ErrorView::Invalid {
                                        what: "toolchain label"@,
                                        detail: "expected '//pkg:name', got '"@ + text + "'"@,
                                    },
                                ),
                            ),
                        })
                },
                (GraphQueryView::Provider { .. }, GraphAnswerView::WrongKind) => {
                    &&& now matches ResolutionStepView::Finished { outcome: Err(FaultView::Host(e)) }
                    &&& exists|label: Seq<char>|
                        e == (ErrorView::Invalid {
                            what: "CONFIGURED_TARGET value"@,
                            detail: #[trigger] (label + " did not analyze to a ConfiguredTarget"@),
                        }) && label_parts(label) == Some(
                            (
                                asked(start, replies, replies.len() - 1)->target.package,
                                asked(start, replies, replies.len() - 1)->target.name,
                            ),
                        )
                },
                (GraphQueryView::Provider { .. }, GraphAnswerView::Returned(None)) => {
                    &&& now matches ResolutionStepView::Finished { outcome: Err(FaultView::Host(e)) }
                    &&& exists|label: Seq<char>|
                        e == (ErrorView::Invalid {
                            what: "toolchain impl"@,
                            detail: #[trigger] (label
                                + " did not return platform_common.ToolchainInfo"@),
                        }) && label_parts(label) == Some(
                            (
                                asked(start, replies, replies.len() - 1)->target.package,
                                asked(start, replies, replies.len() - 1)->target.name,
                            ),
                        )
                },
                (GraphQueryView::Provider { .. }, GraphAnswerView::Returned(Some(_))) => {
                    let done = replies.len() as int / 2;
                    &&& replies.len() == 2 * done
                    &&& done == labels.len() ==> (now matches ResolutionStepView::Finished {
                        outcome,
                    } && outcome is Ok)
                    &&& done < labels.len() && label_parts(labels[done]) is None ==> now == (
                    ResolutionStepView::<I, E>::Finished {
                        outcome: Err(
                            FaultView::Host(
                                ErrorView::Invalid {
                                    what: "toolchain label"@,
                                    detail: "expected '//pkg:name', got '"@ + labels[done] + "'"@,
                                },
                            ),
                        ),
                    })
                    &&& done < labels.len() && label_parts(labels[done]) is Some ==> after(
                        start,
                        replies,
                    ).pending() is Some
                },
                _ => false,
            }
        }),
{
    let start = ResolutionView::<I, E>::begin(labels, configuration);
    let past = replies.drop_last();
    lemma_asked_kept(start, replies);
    lemma_rows_so_far::<I, E>(labels, configuration, past);
    let was = after(start, past);
    let empty = Seq::<char>::empty();
    match (was.step, replies.last()) {
        (
            ResolutionStepView::Declaration { package, .. },
            GraphAnswerView::Declared(Some(attrs)),
        ) => {
            law_attributes_are_labels(attrs, package, "toolchain_type"@, empty, empty);
            law_attributes_are_labels(attrs, package, "toolchain"@, empty, empty);
            assert forall|text: Seq<char>| #[trigger] attr_is(attrs, "toolchain"@, text) && !":"@.is_prefix_of(
                text,
            ) implies label_attr(attrs, package, "toolchain"@) == Some(text) by {
                law_attributes_are_labels(attrs, package, "toolchain"@, text, empty);
            }
        },
        (ResolutionStepView::Implementation { rows, impl_label, .. }, _) => {
            assert(replies.len() == 2 * (rows.len() + 1));
            assert(replies.len() as int / 2 == rows.len() + 1);
            assert(impl_label + " did not analyze to a ConfiguredTarget"@ == impl_label
                + " did not analyze to a ConfiguredTarget"@);
            assert(impl_label + " did not return platform_common.ToolchainInfo"@ == impl_label
                + " did not return platform_common.ToolchainInfo"@);
        },
        _ => {},
    }
}

/// Queries and answers are seen whole.
pub proof fn law_graph_values_are_seen_whole<I, E>(
    package: String,
    name: String,
    target: ConfiguredTargetKey,
    provider: &'static str,
    attrs: Vec<(String, BzlValue)>,
    info: Option<I>,
    e: E,
)
    ensures
        (GraphQuery::Declaration { package, name })@ == (GraphQueryView::Declaration {
            package: package@,
            name: name@,
        }),
        (GraphQuery::Provider { target, provider })@ == (GraphQueryView::Provider {
            target: target@,
            provider: provider@,
        }),
        GraphAnswer::<I, E>::Declared(Some(attrs))@ == GraphAnswerView::<I, E>::Declared(
            Some(field_views(attrs@)),
        ),
        GraphAnswer::<I, E>::Declared(None)@ == GraphAnswerView::<I, E>::Declared(None),
        GraphAnswer::<I, E>::Returned(info)@ == GraphAnswerView::<I, E>::Returned(info),
        GraphAnswer::<I, E>::WrongKind@ == GraphAnswerView::<I, E>::WrongKind,
        GraphAnswer::<I, E>::Failed(e)@ == GraphAnswerView::<I, E>::Failed(e),
{
}

/// Which answers fit which questions: attributes that of a declaration, a provider that of one,
/// and a node of another kind or a failure either. An answer that does not fit, or that comes after
/// the end, changes nothing.
pub proof fn law_resolution_takes_fitting_answers<I, E>(
    state: ResolutionView<I, E>,
    query: GraphQueryView,
    reply: GraphAnswerView<I, E>,
)
    ensures
        ResolutionView::<I, E>::answers(query, reply) <==> {
            ||| reply is WrongKind
            ||| reply is Failed
            ||| query is Declaration && reply is Declared
            ||| query is Provider && reply is Returned
        },
        state.pending() is None ==> state.next(reply) == state,
        state.pending() matches Some(q) ==> (ResolutionView::<I, E>::answers(q, reply)
            || state.next(reply) == state),
{
}

} // verus!
