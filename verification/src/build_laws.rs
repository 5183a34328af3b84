//! What holds of every build, whatever the graph, the store and the disk answer.

use vstd::prelude::*;

use crate::build_run::{
    configured, BuildReplyView, BuildRequestView, BuildStepView, BuildView, BuiltOutputView,
};
use crate::error::{ErrorView, FaultView};
use crate::order::{by_name, in_name_order, lemma_by_name, sorted_by_name};
use crate::protocol::{after, asked, conversation, lemma_asked_kept, Protocol};
use crate::target::{law_patterns_are_labels, pattern_key, ConfiguredTargetKeyView};

verus! {

/// The place of the first reply about the output at `k`. The three before the outputs are about
/// the target; each output then takes four.
pub open spec fn slot(k: int) -> int {
    3 + 4 * k
}

/// Whether the build was asked of the graph and done.
pub open spec fn completed<D, E>(
    start: BuildView<D, E>,
    replies: Seq<BuildReplyView<D, E>>,
) -> bool {
    &&& asked(start, replies, 0) == (BuildRequestView::<D>::Complete { target: start.target })
    &&& replies[0] is Done
}

/// Whether the target was then analyzed.
pub open spec fn analyzed<D, E>(
    start: BuildView<D, E>,
    replies: Seq<BuildReplyView<D, E>>,
) -> bool {
    &&& completed(start, replies)
    &&& asked(start, replies, 1) == (BuildRequestView::<D>::Analyze { target: start.target })
    &&& replies[1] is Done
}

/// Whether its outputs were then listed as `paths`.
pub open spec fn listed<D, E>(
    start: BuildView<D, E>,
    replies: Seq<BuildReplyView<D, E>>,
    paths: Seq<Seq<char>>,
) -> bool {
    &&& analyzed(start, replies)
    &&& asked(start, replies, 2) == (BuildRequestView::<D>::DeriveOutputs { target: start.target })
    &&& replies[2] == BuildReplyView::<D, E>::Outputs(paths)
}

/// Whether the output at `k` was looked up.
pub open spec fn projected<D, E>(
    start: BuildView<D, E>,
    replies: Seq<BuildReplyView<D, E>>,
    k: int,
) -> bool {
    &&& asked(start, replies, slot(k)) == (BuildRequestView::<D>::Project { index: k })
    &&& replies[slot(k)] is Artifact
}

/// Whether the bytes of the output at `k` were then fetched, by the digest looked up.
pub open spec fn fetched<D, E>(
    start: BuildView<D, E>,
    replies: Seq<BuildReplyView<D, E>>,
    k: int,
) -> bool {
    &&& projected(start, replies, k)
    &&& asked(start, replies, slot(k) + 1) == (BuildRequestView::<D>::Fetch {
        digest: replies[slot(k)]->digest,
    })
    &&& replies[slot(k) + 1] is Bytes
}

/// Whether the place of the output at `k` below the output root was then found.
pub open spec fn located<D, E>(
    start: BuildView<D, E>,
    replies: Seq<BuildReplyView<D, E>>,
    k: int,
) -> bool {
    &&& fetched(start, replies, k)
    &&& asked(start, replies, slot(k) + 2) == (BuildRequestView::<D>::Locate {
        root: start.root,
        rel: replies[slot(k)]->exec_path,
    })
    &&& replies[slot(k) + 2] is Path
}

/// Whether the bytes of the output at `k` were then written to its place.
pub open spec fn emitted<D, E>(
    start: BuildView<D, E>,
    replies: Seq<BuildReplyView<D, E>>,
    k: int,
) -> bool {
    &&& located(start, replies, k)
    &&& asked(start, replies, slot(k) + 3) == (BuildRequestView::<D>::WriteAtomic {
        path: replies[slot(k) + 2]->Path_0,
        bytes: replies[slot(k) + 1]->Bytes_0,
    })
    &&& replies[slot(k) + 3] is Done
}

/// The output at `k`, by what the replies about it say.
pub open spec fn output_at<D, E>(replies: Seq<BuildReplyView<D, E>>, k: int) -> BuiltOutputView {
    BuiltOutputView {
        exec_path: replies[slot(k)]->exec_path,
        host_path: replies[slot(k) + 2]->Path_0,
    }
}

/// The first `n` outputs, by what the replies about them say.
pub open spec fn outputs<D, E>(
    replies: Seq<BuildReplyView<D, E>>,
    n: nat,
) -> Seq<BuiltOutputView> {
    Seq::new(n, |k: int| output_at(replies, k))
}

/// Whether the first `n` outputs were written.
pub open spec fn all_emitted<D, E>(
    start: BuildView<D, E>,
    replies: Seq<BuildReplyView<D, E>>,
    n: nat,
) -> bool {
    forall|k: int| 0 <= k < n ==> #[trigger] emitted(start, replies, k)
}

/// What has happened when `built` of the outputs at `paths` are written.
spec fn under_way<D, E>(
    start: BuildView<D, E>,
    replies: Seq<BuildReplyView<D, E>>,
    paths: Seq<Seq<char>>,
    built: Seq<BuiltOutputView>,
) -> bool {
    &&& replies.len() >= slot(built.len() as int)
    &&& built.len() <= paths.len()
    &&& listed(start, replies, paths)
    &&& all_emitted(start, replies, built.len())
    &&& built == outputs(replies, built.len())
}

/// What a build has behind it at each point, from its first.
spec fn so_far<D, E>(start: BuildView<D, E>, replies: Seq<BuildReplyView<D, E>>) -> bool {
    let now = after(start, replies);
    let n = replies.len() as int;
    &&& now.target == start.target
    &&& now.root == start.root
    &&& match now.step {
        BuildStepView::Complete => n == 0,
        BuildStepView::Analyze => n == 1 && completed(start, replies),
        BuildStepView::Derive => n == 2 && analyzed(start, replies),
        BuildStepView::Project { paths, built } => {
            &&& n == slot(built.len() as int)
            &&& built.len() < paths.len()
            &&& under_way(start, replies, paths, built)
        },
        BuildStepView::Fetch { paths, built, exec_path, digest } => {
            let t = slot(built.len() as int);
            &&& n == t + 1
            &&& built.len() < paths.len()
            &&& under_way(start, replies, paths, built)
            &&& projected(start, replies, built.len() as int)
            &&& replies[t] == (BuildReplyView::<D, E>::Artifact { exec_path, digest })
        },
        BuildStepView::Locate { paths, built, exec_path, bytes } => {
            let t = slot(built.len() as int);
            &&& n == t + 2
            &&& built.len() < paths.len()
            &&& under_way(start, replies, paths, built)
            &&& fetched(start, replies, built.len() as int)
            &&& replies[t]->exec_path == exec_path
            &&& replies[t + 1] == BuildReplyView::<D, E>::Bytes(bytes)
        },
        BuildStepView::Write { paths, built, exec_path, bytes, path } => {
            let t = slot(built.len() as int);
            &&& n == t + 3
            &&& built.len() < paths.len()
            &&& under_way(start, replies, paths, built)
            &&& located(start, replies, built.len() as int)
            &&& replies[t]->exec_path == exec_path
            &&& replies[t + 1] == BuildReplyView::<D, E>::Bytes(bytes)
            &&& replies[t + 2] == BuildReplyView::<D, E>::Path(path)
        },
        BuildStepView::Finished { outcome: Ok(built) } => {
            &&& n >= 3
            &&& replies[2] is Outputs
            &&& listed(start, replies, replies[2]->Outputs_0)
            &&& n == slot(replies[2]->Outputs_0.len() as int)
            &&& all_emitted(start, replies, replies[2]->Outputs_0.len())
            &&& built == by_name(outputs(replies, replies[2]->Outputs_0.len()))
        },
        BuildStepView::Finished { outcome: Err(_) } => {
            &&& n <= 3 || (replies[2] is Outputs && n <= slot(replies[2]->Outputs_0.len() as int))
        },
    }
}

proof fn lemma_emitted_kept<D, E>(
    start: BuildView<D, E>,
    replies: Seq<BuildReplyView<D, E>>,
    k: int,
)
    requires
        replies.len() > 0,
        k >= 0,
    ensures
        slot(k) <= replies.len() - 2 ==> projected(start, replies, k) == projected(
            start,
            replies.drop_last(),
            k,
        ),
        slot(k) + 1 <= replies.len() - 2 ==> fetched(start, replies, k) == fetched(
            start,
            replies.drop_last(),
            k,
        ),
        slot(k) + 2 <= replies.len() - 2 ==> located(start, replies, k) == located(
            start,
            replies.drop_last(),
            k,
        ),
        slot(k) + 3 <= replies.len() - 2 ==> emitted(start, replies, k) == emitted(
            start,
            replies.drop_last(),
            k,
        ),
{
    let past = replies.drop_last();
    let t = slot(k);
    lemma_asked_kept(start, replies);
    if t <= replies.len() - 2 {
        assert(asked(start, replies, t) == asked(start, past, t));
    }
    if t + 1 <= replies.len() - 2 {
        assert(asked(start, replies, t + 1) == asked(start, past, t + 1));
    }
    if t + 2 <= replies.len() - 2 {
        assert(asked(start, replies, t + 2) == asked(start, past, t + 2));
    }
    if t + 3 <= replies.len() - 2 {
        assert(asked(start, replies, t + 3) == asked(start, past, t + 3));
    }
}

proof fn lemma_under_way<D, E>(
    start: BuildView<D, E>,
    replies: Seq<BuildReplyView<D, E>>,
    paths: Seq<Seq<char>>,
    built: Seq<BuiltOutputView>,
)
    requires
        replies.len() > 0,
        under_way(start, replies.drop_last(), paths, built),
    ensures
        under_way(start, replies, paths, built),
{
    let past = replies.drop_last();
    lemma_asked_kept(start, replies);
    assert(asked(start, replies, 0) == asked(start, past, 0));
    assert(asked(start, replies, 1) == asked(start, past, 1));
    assert(asked(start, replies, 2) == asked(start, past, 2));
    assert forall|k: int| 0 <= k < built.len() implies #[trigger] emitted(start, replies, k) by {
        assert(emitted(start, past, k));
        lemma_emitted_kept(start, replies, k);
    }
    assert(outputs(replies, built.len()) =~= outputs(past, built.len()));
}

proof fn lemma_one_more<D, E>(
    start: BuildView<D, E>,
    replies: Seq<BuildReplyView<D, E>>,
    paths: Seq<Seq<char>>,
    built: Seq<BuiltOutputView>,
)
    requires
        replies.len() == slot(built.len() as int) + 4,
        built.len() < paths.len(),
        under_way(start, replies, paths, built),
        emitted(start, replies, built.len() as int),
    ensures
        under_way(start, replies, paths, built.push(output_at(replies, built.len() as int))),
{
    let more = built.push(output_at(replies, built.len() as int));
    assert(more =~= outputs(replies, more.len()));
}

proof fn lemma_so_far<D, E>(
    target: ConfiguredTargetKeyView,
    root: Seq<char>,
    replies: Seq<BuildReplyView<D, E>>,
)
    requires
        conversation(BuildView::<D, E>::begin(target, root), replies),
    ensures
        so_far(BuildView::<D, E>::begin(target, root), replies),
    decreases replies.len(),
{
    let start = BuildView::<D, E>::begin(target, root);
    if replies.len() > 0 {
        let past = replies.drop_last();
        lemma_so_far::<D, E>(target, root, past);
        lemma_asked_kept(start, replies);
        let was = after(start, past);
        match was.step {
            BuildStepView::Complete => {},
            BuildStepView::Analyze => {
                assert(asked(start, replies, 0) == asked(start, past, 0));
            },
            BuildStepView::Derive => {
                assert(asked(start, replies, 0) == asked(start, past, 0));
                assert(asked(start, replies, 1) == asked(start, past, 1));
                if let BuildReplyView::Outputs(paths) = replies.last() {
                    assert(outputs(replies, 0) =~= Seq::<BuiltOutputView>::empty());
                    assert(under_way(start, replies, paths, Seq::empty()));
                }
            },
            BuildStepView::Project { paths, built } => {
                lemma_under_way(start, replies, paths, built);
            },
            BuildStepView::Fetch { paths, built, .. } => {
                lemma_under_way(start, replies, paths, built);
                lemma_emitted_kept(start, replies, built.len() as int);
            },
            BuildStepView::Locate { paths, built, .. } => {
                lemma_under_way(start, replies, paths, built);
                lemma_emitted_kept(start, replies, built.len() as int);
            },
            BuildStepView::Write { paths, built, .. } => {
                lemma_under_way(start, replies, paths, built);
                lemma_emitted_kept(start, replies, built.len() as int);
                if replies.last() is Done {
                    lemma_one_more(start, replies, paths, built);
                }
            },
            BuildStepView::Finished { .. } => {},
        }
    }
}

/// A build that succeeds has brought its target to completion, in the configuration it was given,
/// and has written every output of the target: the bytes fetched under the digest that the graph
/// holds for it, at its place below the output root. It hands out those outputs and no others.
pub proof fn law_build_writes_every_output<D, E>(
    target: ConfiguredTargetKeyView,
    root: Seq<char>,
    replies: Seq<BuildReplyView<D, E>>,
    built: Seq<BuiltOutputView>,
)
    requires
        conversation(BuildView::<D, E>::begin(target, root), replies),
        after(BuildView::<D, E>::begin(target, root), replies).step == (
        BuildStepView::<D, E>::Finished { outcome: Ok(built) }),
    ensures
        ({
            let start = BuildView::<D, E>::begin(target, root);
            &&& replies.len() >= 3
            &&& replies[2] matches BuildReplyView::Outputs(paths)
            &&& listed(start, replies, paths)
            &&& replies.len() == slot(paths.len() as int)
            &&& all_emitted(start, replies, paths.len())
            &&& built == by_name(outputs(replies, paths.len()))
        }),
{
    lemma_so_far::<D, E>(target, root, replies);
}

/// A build that succeeds hands out its outputs in the order of their exec-relative paths, those of
/// one path in the order the graph listed them, as many as it listed.
pub proof fn law_outputs_are_sorted<D, E>(
    target: ConfiguredTargetKeyView,
    root: Seq<char>,
    replies: Seq<BuildReplyView<D, E>>,
    built: Seq<BuiltOutputView>,
)
    requires
        conversation(BuildView::<D, E>::begin(target, root), replies),
        after(BuildView::<D, E>::begin(target, root), replies).step == (
        BuildStepView::<D, E>::Finished { outcome: Ok(built) }),
    ensures
        in_name_order(built),
        replies[2] matches BuildReplyView::Outputs(paths) && built.len() == paths.len()
            && sorted_by_name(outputs(replies, paths.len()), built),
{
    lemma_so_far::<D, E>(target, root, replies);
    lemma_by_name(outputs(replies, replies[2]->Outputs_0.len()));
}

/// Whatever becomes of a build, it writes only after the target was brought to completion, only
/// bytes it has just fetched, and only to where their output belongs.
pub proof fn law_only_fetched_bytes_are_written<D, E>(
    target: ConfiguredTargetKeyView,
    root: Seq<char>,
    replies: Seq<BuildReplyView<D, E>>,
    t: int,
)
    requires
        conversation(BuildView::<D, E>::begin(target, root), replies),
        0 <= t < replies.len(),
        asked(BuildView::<D, E>::begin(target, root), replies, t) is WriteAtomic,
    ensures
        ({
            let start = BuildView::<D, E>::begin(target, root);
            let k = (t - 6) / 4;
            &&& t == slot(k) + 3
            &&& k >= 0
            &&& completed(start, replies)
            &&& located(start, replies, k)
            &&& asked(start, replies, t) == (BuildRequestView::<D>::WriteAtomic {
                path: replies[t - 1]->Path_0,
                bytes: replies[t - 2]->Bytes_0,
            })
        }),
    decreases replies.len(),
{
    let start = BuildView::<D, E>::begin(target, root);
    let past = replies.drop_last();
    lemma_asked_kept(start, replies);
    if t < replies.len() - 1 {
        assert(asked(start, replies, t) == asked(start, past, t));
        law_only_fetched_bytes_are_written::<D, E>(target, root, past, t);
        assert(asked(start, replies, 0) == asked(start, past, 0));
        lemma_emitted_kept(start, replies, (t - 6) / 4);
    } else {
        lemma_so_far::<D, E>(target, root, past);
        if let BuildStepView::Write { paths, built, .. } = after(start, past).step {
            assert((t - 6) / 4 == built.len());
            lemma_under_way(start, replies, paths, built);
            lemma_emitted_kept(start, replies, built.len() as int);
        }
    }
}

/// Whether a reply carries what was asked for.
pub open spec fn delivers<D, E>(reply: BuildReplyView<D, E>) -> bool {
    !(reply is WrongKind || reply is Refused || reply is Failed)
}

/// A reply that does not carry what was asked for ends the build with an error.
pub proof fn law_build_fails_closed<D, E>(
    target: ConfiguredTargetKeyView,
    root: Seq<char>,
    replies: Seq<BuildReplyView<D, E>>,
    t: int,
)
    requires
        conversation(BuildView::<D, E>::begin(target, root), replies),
        0 <= t < replies.len(),
        !delivers(replies[t]),
    ensures
        t == replies.len() - 1,
        after(BuildView::<D, E>::begin(target, root), replies).step matches
            BuildStepView::Finished { outcome } && outcome is Err,
    decreases replies.len(),
{
    if t < replies.len() - 1 {
        assert(replies.drop_last()[t] == replies[t]);
        law_build_fails_closed::<D, E>(target, root, replies.drop_last(), t);
    }
}

/// A build to which every question was answered in kind fails in no other way: it is either still
/// asking or has succeeded.
pub proof fn law_build_succeeds_when_served<D, E>(
    target: ConfiguredTargetKeyView,
    root: Seq<char>,
    replies: Seq<BuildReplyView<D, E>>,
)
    requires
        conversation(BuildView::<D, E>::begin(target, root), replies),
        forall|t: int| 0 <= t < replies.len() ==> delivers(#[trigger] replies[t]),
    ensures
        after(BuildView::<D, E>::begin(target, root), replies).step matches
            BuildStepView::Finished { outcome } ==> outcome is Ok,
    decreases replies.len(),
{
    if replies.len() > 0 {
        let past = replies.drop_last();
        assert forall|t: int| 0 <= t < past.len() implies delivers(#[trigger] past[t]) by {
            assert(past[t] == replies[t]);
        }
        law_build_succeeds_when_served::<D, E>(target, root, past);
        assert(delivers(replies.last()));
    }
}

/// A build comes to an end: after three questions about the target at most, and four about each
/// output that the graph listed.
pub proof fn law_build_ends<D, E>(
    target: ConfiguredTargetKeyView,
    root: Seq<char>,
    replies: Seq<BuildReplyView<D, E>>,
)
    requires
        conversation(BuildView::<D, E>::begin(target, root), replies),
    ensures
        replies.len() > 3 ==> (replies[2] matches BuildReplyView::Outputs(paths) && replies.len()
            <= slot(paths.len() as int)),
{
    lemma_so_far::<D, E>(target, root, replies);
}

/// A build without a configuration is the build in no configuration.
pub proof fn law_unconfigured_builds(pattern: Seq<char>)
    ensures
        configured(pattern, None) == pattern_key(pattern),
{
}

/// A build is of the target that its pattern names, in exactly the configuration it was given:
/// whatever the package, the name and the configuration are, and whether or not there is one.
pub proof fn law_builds_keep_their_configuration(
    package: Seq<char>,
    name: Seq<char>,
    pattern: Seq<char>,
    configuration: Option<Seq<char>>,
)
    ensures
        configured(pattern, configuration) == Ok::<ConfiguredTargetKeyView, ErrorView>(
            ConfiguredTargetKeyView { package, name, configuration },
        ) <==> {
            &&& pattern == "//"@ + package + ":"@ + name
            &&& !package.contains(':')
            &&& name.len() > 0
            &&& forall|a: Seq<char>, b: Seq<char>| package != #[trigger] (a + "..."@ + b)
            &&& forall|a: Seq<char>, b: Seq<char>| name != #[trigger] (a + "..."@ + b)
        },
        configured(pattern, configuration) matches Ok(target) ==> target.configuration
            == configuration,
        configured(pattern, configuration) is Ok <==> pattern_key(pattern) is Ok,
        pattern_key(pattern) matches Err(e) ==> configured(pattern, configuration) == Err::<
            ConfiguredTargetKeyView,
            ErrorView,
        >(e),
{
    law_patterns_are_labels(pattern, package, name);
    if let Ok(key) = pattern_key(pattern) {
        assert(key =~= ConfiguredTargetKeyView {
            package: key.package,
            name: key.name,
            configuration: None,
        });
    }
}

/// What a build asks, in every run, whatever comes of it: first to complete the target it is of,
/// next to analyze it, next for its outputs, all in the configuration of the target; and after
/// that, for one output after the other, its artifact, the bytes under the artifact's digest, the
/// place of the artifact's path below the output root, and to write those bytes there.
pub proof fn law_questions_of_a_build<D, E>(
    target: ConfiguredTargetKeyView,
    root: Seq<char>,
    replies: Seq<BuildReplyView<D, E>>,
    t: int,
)
    requires
        conversation(BuildView::<D, E>::begin(target, root), replies),
        0 <= t < replies.len(),
    ensures
        ({
            let q = asked(BuildView::<D, E>::begin(target, root), replies, t);
            if t == 0 {
                q == (BuildRequestView::<D>::Complete { target })
            } else if t == 1 {
                q == (BuildRequestView::<D>::Analyze { target })
            } else if t == 2 {
                q == (BuildRequestView::<D>::DeriveOutputs { target })
            } else if (t - 3) % 4 == 0 {
                q == (BuildRequestView::<D>::Project { index: (t - 3) / 4 })
            } else if (t - 3) % 4 == 1 {
                replies[t - 1] matches BuildReplyView::Artifact { digest, .. } && q == (
                BuildRequestView::<D>::Fetch { digest })
            } else if (t - 3) % 4 == 2 {
                replies[t - 2] matches BuildReplyView::Artifact { exec_path, .. } && q == (
                BuildRequestView::<D>::Locate { root, rel: exec_path })
            } else {
                &&& replies[t - 1] matches BuildReplyView::Path(path)
                &&& replies[t - 2] matches BuildReplyView::Bytes(bytes)
                &&& q == (BuildRequestView::<D>::WriteAtomic { path, bytes })
            }
        }),
    decreases replies.len(),
{
    let start = BuildView::<D, E>::begin(target, root);
    let past = replies.drop_last();
    lemma_asked_kept(start, replies);
    if t < replies.len() - 1 {
        law_questions_of_a_build::<D, E>(target, root, past, t);
        assert(asked(start, replies, t) == asked(start, past, t));
    } else {
        lemma_so_far::<D, E>(target, root, past);
        match after(start, past).step {
            BuildStepView::Project { built, .. } => {
                assert((t - 3) / 4 == built.len() && (t - 3) % 4 == 0);
            },
            BuildStepView::Fetch { built, .. } => {
                assert((t - 3) / 4 == built.len() && (t - 3) % 4 == 1);
            },
            BuildStepView::Locate { built, .. } => {
                assert((t - 3) / 4 == built.len() && (t - 3) % 4 == 2);
            },
            BuildStepView::Write { built, .. } => {
                assert((t - 3) / 4 == built.len() && (t - 3) % 4 == 3);
            },
            _ => {},
        }
    }
}

/// What a build that succeeds hands out: for each output that the graph listed, the path of its
/// artifact and the place that this path was found to have, sorted by path.
pub proof fn law_outputs_handed_out<D, E>(
    target: ConfiguredTargetKeyView,
    root: Seq<char>,
    replies: Seq<BuildReplyView<D, E>>,
    built: Seq<BuiltOutputView>,
)
    requires
        conversation(BuildView::<D, E>::begin(target, root), replies),
        after(BuildView::<D, E>::begin(target, root), replies).step == (
        BuildStepView::<D, E>::Finished { outcome: Ok(built) }),
    ensures
        replies[2] matches BuildReplyView::Outputs(paths) && {
            &&& replies.len() == 3 + 4 * paths.len()
            &&& built == by_name(
                Seq::new(
                    paths.len(),
                    |k: int|
                        BuiltOutputView {
                            exec_path: replies[3 + 4 * k]->exec_path,
                            host_path: replies[3 + 4 * k + 2]->Path_0,
                        },
                ),
            )
        },
{
    law_build_writes_every_output::<D, E>(target, root, replies, built);
    let n = replies[2]->Outputs_0.len();
    assert(outputs(replies, n) =~= Seq::new(
        n,
        |k: int|
            BuiltOutputView {
                exec_path: replies[3 + 4 * k]->exec_path,
                host_path: replies[3 + 4 * k + 2]->Path_0,
            },
    ));
}

/// The error that a build ends in, by the last question and its answer: a failure of the graph or
/// the store is passed on, and a node of another kind and a refused write are each named, with the
/// target or the output they are about.
pub proof fn law_build_failures_are_named<D, E>(
    target: ConfiguredTargetKeyView,
    root: Seq<char>,
    replies: Seq<BuildReplyView<D, E>>,
)
    requires
        conversation(BuildView::<D, E>::begin(target, root), replies),
        replies.len() > 0,
    ensures
        ({
            let start = BuildView::<D, E>::begin(target, root);
            let now = after(start, replies).step;
            match (asked(start, replies, replies.len() - 1), replies.last()) {
                (_, BuildReplyView::Failed(e)) => now == (BuildStepView::<D, E>::Finished {
                    outcome: Err(FaultView::Graph(e)),
                }),
                (BuildRequestView::Analyze { .. }, BuildReplyView::WrongKind) => now == (
                BuildStepView::<D, E>::Finished {
                    outcome: Err(
                        FaultView::Host(
                            ErrorView::Invalid {
                                what: "CONFIGURED_TARGET value"@,
                                detail: "//"@ + target.package + ":"@ + target.name
                                    + " did not analyze to a ConfiguredTarget"@,
                            },
                        ),
                    ),
                }),
                (BuildRequestView::Project { index }, BuildReplyView::WrongKind) => {
                    &&& replies[2] matches BuildReplyView::Outputs(paths)
                    &&& 0 <= index < paths.len()
                    &&& now == (BuildStepView::<D, E>::Finished {
                        outcome: Err(
                            FaultView::Host(
                                ErrorView::Invalid {
                                    what: "ARTIFACT value"@,
                                    detail: "output '"@ + paths[index]
                                        + "' did not project to an ArtifactValue"@,
                                },
                            ),
                        ),
                    })
                },
                (BuildRequestView::WriteAtomic { .. }, BuildReplyView::Refused(why)) => {
                    &&& replies[replies.len() - 4] matches BuildReplyView::Artifact { exec_path, .. }
                    &&& now == (BuildStepView::<D, E>::Finished {
                        outcome: Err(
                            FaultView::Host(
                                ErrorView::Invalid {
                                    what: "emit build output"@,
                                    detail: exec_path + ": "@ + why,
                                },
                            ),
                        ),
                    })
                },
                (BuildRequestView::DeriveOutputs { .. }, BuildReplyView::Outputs(paths)) => paths.len()
                    > 0 ==> after(start, replies).pending() is Some,
                (BuildRequestView::WriteAtomic { .. }, BuildReplyView::Done) => {
                    &&& replies[2] matches BuildReplyView::Outputs(paths)
                    &&& after(start, replies).pending() is None <==> replies.len() == 3 + 4
                        * paths.len()
                },
                _ => after(start, replies).pending() is Some,
            }
        }),
{
    let start = BuildView::<D, E>::begin(target, root);
    let past = replies.drop_last();
    lemma_asked_kept(start, replies);
    lemma_so_far::<D, E>(target, root, past);
    lemma_so_far::<D, E>(target, root, replies);
    if past.len() > 2 {
        assert(replies[2] == past[2]);
    }
    if let BuildStepView::Write { built, .. } = after(start, past).step {
        assert(replies[replies.len() - 4] == past[slot(built.len() as int)]);
    }
}

/// A build that begins is of the target and below the root given, and has asked nothing.
pub proof fn law_build_begins<D, E>(target: ConfiguredTargetKeyView, root: Seq<char>)
    ensures
        BuildView::<D, E>::begin(target, root).target == target,
        BuildView::<D, E>::begin(target, root).root == root,
        BuildView::<D, E>::begin(target, root).pending() == Some(
            BuildRequestView::<D>::Complete { target },
        ),
{
}

/// Which answers fit which questions. An answer that does not fit changes nothing, unless it is a
/// failure, which always ends the build; and one that comes after the end changes nothing.
pub proof fn law_build_takes_fitting_answers<D, E>(
    state: BuildView<D, E>,
    request: BuildRequestView<D>,
    reply: BuildReplyView<D, E>,
)
    ensures
        BuildView::<D, E>::answers(request, reply) <==> match request {
            BuildRequestView::Complete { .. } => reply is Done || reply is Failed,
            BuildRequestView::Analyze { .. } => reply is Done || reply is WrongKind
                || reply is Failed,
            BuildRequestView::DeriveOutputs { .. } => reply is Outputs || reply is Failed,
            BuildRequestView::Project { .. } => reply is Artifact || reply is WrongKind
                || reply is Failed,
            BuildRequestView::Fetch { .. } => reply is Bytes || reply is Failed,
            BuildRequestView::Locate { .. } => reply is Path,
            BuildRequestView::WriteAtomic { .. } => reply is Done || reply is Refused,
        },
        state.pending() is None ==> state.next(reply) == state,
        state.pending() matches Some(q) ==> (BuildView::<D, E>::answers(q, reply) || (
        if let BuildReplyView::Failed(e) = reply {
            state.next(reply) == (BuildView::<D, E> {
                target: state.target,
                root: state.root,
                step: BuildStepView::Finished { outcome: Err(FaultView::Graph(e)) },
            })
        } else {
            state.next(reply) == state
        })),
{
}

} // verus!
