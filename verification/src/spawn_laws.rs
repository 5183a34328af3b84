//! What holds of every local spawn, whatever the host answers.

use vstd::prelude::*;

use crate::local_exec::{
    parent_text, process_of, ArtifactView, ExecErrorView, LocalSpawnView, OutcomeView,
    ProcessSpecView, SpawnRequestView, StageView, SysReplyView, SysRequestView,
};
use crate::order::by_name;
use crate::protocol::{
    after, asked, conversation, lemma_asked_earlier, lemma_asked_kept, lemma_asked_last, Protocol,
};
use crate::text::decimal;

verus! {

/// Whether the exchange `t` of the conversation was `request`, answered `reply`.
pub open spec fn exchange(
    start: LocalSpawnView,
    replies: Seq<SysReplyView>,
    t: int,
    request: SysRequestView,
    reply: SysReplyView,
) -> bool {
    &&& 0 <= t < replies.len()
    &&& asked(start, replies, t) == request
    &&& replies[t] == reply
}

/// Whether the exec root was allocated, at `root`, before anything else.
pub open spec fn allocated(start: LocalSpawnView, replies: Seq<SysReplyView>, root: Seq<char>) -> bool {
    exchange(start, replies, 0, SysRequestView::TempDir, SysReplyView::Path(root))
}

/// Whether input `i` was put at `host` in exchange `t`: the place the host gave for it in
/// exchange `u`, in a directory made first.
pub open spec fn staged(
    start: LocalSpawnView,
    replies: Seq<SysReplyView>,
    root: Seq<char>,
    i: int,
    host: Seq<char>,
    u: int,
    t: int,
) -> bool {
    let input = start.req.inputs[i];
    &&& u < t
    &&& exchange(
        start,
        replies,
        u,
        SysRequestView::Locate { root, rel: input.path },
        SysReplyView::Path(host),
    )
    &&& parent_text(host) is Some ==> u < t - 1 && exchange(
        start,
        replies,
        t - 1,
        SysRequestView::CreateDirAll(parent_text(host)->0),
        SysReplyView::Done,
    )
    &&& exchange(
        start,
        replies,
        t,
        SysRequestView::WriteAtomic { path: host, bytes: input.content },
        SysReplyView::Done,
    )
}

/// Whether input `i` was staged before exchange `before`.
pub open spec fn input_staged(
    start: LocalSpawnView,
    replies: Seq<SysReplyView>,
    root: Seq<char>,
    i: int,
    before: int,
) -> bool {
    exists|host: Seq<char>, u: int, t: int|
        t < before && #[trigger] staged(start, replies, root, i, host, u, t)
}

/// Whether the inputs before `n` were staged, all before exchange `before`.
pub open spec fn inputs_staged(
    start: LocalSpawnView,
    replies: Seq<SysReplyView>,
    root: Seq<char>,
    n: int,
    before: int,
) -> bool {
    forall|i: int| 0 <= i < n ==> #[trigger] input_staged(start, replies, root, i, before)
}

/// Whether the directory of output `i` was made: that of the place `host` the host gave for it
/// in exchange `u`.
pub open spec fn dir_made(
    start: LocalSpawnView,
    replies: Seq<SysReplyView>,
    root: Seq<char>,
    i: int,
    host: Seq<char>,
    u: int,
) -> bool {
    &&& exchange(
        start,
        replies,
        u,
        SysRequestView::Locate { root, rel: start.req.outputs[i] },
        SysReplyView::Path(host),
    )
    &&& parent_text(host) is Some ==> exchange(
        start,
        replies,
        u + 1,
        SysRequestView::CreateDirAll(parent_text(host)->0),
        SysReplyView::Done,
    )
}

/// Whether the directory of output `i` was made before exchange `before`.
pub open spec fn output_dir_made(
    start: LocalSpawnView,
    replies: Seq<SysReplyView>,
    root: Seq<char>,
    i: int,
    before: int,
) -> bool {
    exists|host: Seq<char>, u: int|
        u < before && (parent_text(host) is Some ==> u + 1 < before) && #[trigger] dir_made(
            start,
            replies,
            root,
            i,
            host,
            u,
        )
}

/// Whether the directories of the outputs before `n` were made, all before exchange `before`.
pub open spec fn dirs_made(
    start: LocalSpawnView,
    replies: Seq<SysReplyView>,
    root: Seq<char>,
    n: int,
    before: int,
) -> bool {
    forall|i: int| 0 <= i < n ==> #[trigger] output_dir_made(start, replies, root, i, before)
}

/// Whether the program ran in exchange `r` and exited with zero, with every input staged and
/// every output directory made by then.
pub open spec fn ran(
    start: LocalSpawnView,
    replies: Seq<SysReplyView>,
    root: Seq<char>,
    r: int,
) -> bool {
    &&& exchange(
        start,
        replies,
        r,
        SysRequestView::Spawn(process_of(start.req, root)),
        SysReplyView::Exit(0),
    )
    &&& inputs_staged(start, replies, root, start.req.inputs.len() as int, r)
    &&& dirs_made(start, replies, root, start.req.outputs.len() as int, r)
}

/// Whether `content` was read in exchange `t`, after exchange `r`, from the place the host gave
/// for output `i`.
pub open spec fn read_back(
    start: LocalSpawnView,
    replies: Seq<SysReplyView>,
    root: Seq<char>,
    r: int,
    i: int,
    host: Seq<char>,
    t: int,
    content: Seq<u8>,
) -> bool {
    &&& r < t - 1
    &&& exchange(
        start,
        replies,
        t - 1,
        SysRequestView::Locate { root, rel: start.req.outputs[i] },
        SysReplyView::Path(host),
    )
    &&& exchange(start, replies, t, SysRequestView::Read(host), SysReplyView::Bytes(content))
}

/// Whether `content` was read back for output `i` after exchange `r`.
pub open spec fn output_read_back(
    start: LocalSpawnView,
    replies: Seq<SysReplyView>,
    root: Seq<char>,
    r: int,
    i: int,
    content: Seq<u8>,
) -> bool {
    exists|host: Seq<char>, t: int|
        #[trigger] read_back(start, replies, root, r, i, host, t, content)
}

/// Whether `done` are the first declared outputs, each with the bytes read back for it after
/// exchange `r`.
pub open spec fn collected(
    start: LocalSpawnView,
    replies: Seq<SysReplyView>,
    root: Seq<char>,
    r: int,
    done: Seq<ArtifactView>,
) -> bool {
    &&& done.len() <= start.req.outputs.len()
    &&& forall|i: int|
        #![trigger done[i]]
        0 <= i < done.len() ==> done[i].path == start.req.outputs[i] && output_read_back(
            start,
            replies,
            root,
            r,
            i,
            done[i].content,
        )
}

/// Whether the result consists of what the program produced: it ran in exchange `r`, and `done`
/// was read back from every declared output.
pub open spec fn produced(
    start: LocalSpawnView,
    replies: Seq<SysReplyView>,
    root: Seq<char>,
    r: int,
    done: Seq<ArtifactView>,
) -> bool {
    &&& allocated(start, replies, root)
    &&& ran(start, replies, root, r)
    &&& collected(start, replies, root, r, done)
    &&& done.len() == start.req.outputs.len()
}

/// What has happened by the time a spawn is at its stage.
spec fn history(start: LocalSpawnView, replies: Seq<SysReplyView>) -> bool {
    let now = after(start, replies);
    let n = replies.len() as int;
    let ins = start.req.inputs.len() as int;
    &&& now.req == start.req
    &&& now.keep_on_failure == start.keep_on_failure
    &&& now.wf()
    &&& match now.stage {
        StageView::Allocate => n == 0,
        StageView::LocateInput { root, i } => allocated(start, replies, root) && inputs_staged(
            start,
            replies,
            root,
            i,
            n,
        ),
        StageView::InputDir { root, i, host } => {
            &&& allocated(start, replies, root)
            &&& inputs_staged(start, replies, root, i, n)
            &&& exchange(
                start,
                replies,
                n - 1,
                SysRequestView::Locate { root, rel: start.req.inputs[i].path },
                SysReplyView::Path(host),
            )
        },
        StageView::WriteInput { root, i, host } => {
            &&& allocated(start, replies, root)
            &&& inputs_staged(start, replies, root, i, n)
            &&& if parent_text(host) is Some {
                &&& exchange(
                    start,
                    replies,
                    n - 2,
                    SysRequestView::Locate { root, rel: start.req.inputs[i].path },
                    SysReplyView::Path(host),
                )
                &&& exchange(
                    start,
                    replies,
                    n - 1,
                    SysRequestView::CreateDirAll(parent_text(host)->0),
                    SysReplyView::Done,
                )
            } else {
                exchange(
                    start,
                    replies,
                    n - 1,
                    SysRequestView::Locate { root, rel: start.req.inputs[i].path },
                    SysReplyView::Path(host),
                )
            }
        },
        StageView::LocateOutput { root, i } => {
            &&& allocated(start, replies, root)
            &&& inputs_staged(start, replies, root, ins, n)
            &&& dirs_made(start, replies, root, i, n)
        },
        StageView::OutputDir { root, i, host } => {
            &&& allocated(start, replies, root)
            &&& inputs_staged(start, replies, root, ins, n)
            &&& dirs_made(start, replies, root, i, n)
            &&& exchange(
                start,
                replies,
                n - 1,
                SysRequestView::Locate { root, rel: start.req.outputs[i] },
                SysReplyView::Path(host),
            )
        },
        StageView::Run { root } => {
            &&& allocated(start, replies, root)
            &&& inputs_staged(start, replies, root, ins, n)
            &&& dirs_made(start, replies, root, start.req.outputs.len() as int, n)
        },
        StageView::LocateResult { root, done } => {
            &&& allocated(start, replies, root)
            &&& exists|r: int|
                #[trigger] ran(start, replies, root, r) && r < n && collected(
                    start,
                    replies,
                    root,
                    r,
                    done,
                )
        },
        StageView::ReadResult { root, host, done } => {
            &&& allocated(start, replies, root)
            &&& exchange(
                start,
                replies,
                n - 1,
                SysRequestView::Locate { root, rel: start.req.outputs[done.len() as int] },
                SysReplyView::Path(host),
            )
            &&& exists|r: int|
                #[trigger] ran(start, replies, root, r) && r < n - 1 && collected(
                    start,
                    replies,
                    root,
                    r,
                    done,
                )
        },
        StageView::Teardown { root, outcome } => {
            &&& allocated(start, replies, root)
            &&& outcome is Ok || !start.keep_on_failure
            &&& outcome is Ok ==> exists|r: int, done: Seq<ArtifactView>|
                #[trigger] produced(start, replies, root, r, done) && outcome->Ok_0.code == 0
                    && outcome->Ok_0.outputs == by_name(done)
        },
        StageView::Finished { outcome } => {
            &&& outcome is Ok ==> exists|root: Seq<char>, r: int, done: Seq<ArtifactView>|
                #[trigger] produced(start, replies, root, r, done) && outcome->Ok_0.code == 0
                    && outcome->Ok_0.outputs == by_name(done)
            &&& n > 0 && replies[0] is Path && (outcome is Ok || !start.keep_on_failure)
                ==> asked(start, replies, n - 1) == SysRequestView::RemoveDirAll(replies[0]->Path_0)
        },
    }
}

/// Exchanges stay what they were as the conversation goes on.
proof fn lemma_exchanges_kept(start: LocalSpawnView, replies: Seq<SysReplyView>)
    requires
        replies.len() > 0,
    ensures
        forall|t: int, q: SysRequestView, a: SysReplyView|
            exchange(start, replies.drop_last(), t, q, a) ==> #[trigger] exchange(
                start,
                replies,
                t,
                q,
                a,
            ),
        exchange(
            start,
            replies,
            replies.len() - 1,
            after(start, replies.drop_last()).pending()->0,
            replies.last(),
        ),
{
    assert forall|t: int, q: SysRequestView, a: SysReplyView|
        exchange(start, replies.drop_last(), t, q, a) implies #[trigger] exchange(
        start,
        replies,
        t,
        q,
        a,
    ) by {
        lemma_asked_earlier(start, replies, t);
    }
    lemma_asked_last(start, replies);
}

/// So do the facts made of them.
proof fn lemma_facts_kept(start: LocalSpawnView, replies: Seq<SysReplyView>)
    requires
        replies.len() > 0,
    ensures
        forall|root: Seq<char>, n: int, before: int|
            inputs_staged(start, replies.drop_last(), root, n, before)
                ==> #[trigger] inputs_staged(start, replies, root, n, before),
        forall|root: Seq<char>, n: int, before: int|
            dirs_made(start, replies.drop_last(), root, n, before) ==> #[trigger] dirs_made(
                start,
                replies,
                root,
                n,
                before,
            ),
        forall|root: Seq<char>, r: int|
            ran(start, replies.drop_last(), root, r) ==> #[trigger] ran(start, replies, root, r),
        forall|root: Seq<char>, r: int, done: Seq<ArtifactView>|
            collected(start, replies.drop_last(), root, r, done) ==> #[trigger] collected(
                start,
                replies,
                root,
                r,
                done,
            ),
        forall|root: Seq<char>, r: int, done: Seq<ArtifactView>|
            produced(start, replies.drop_last(), root, r, done) ==> #[trigger] produced(
                start,
                replies,
                root,
                r,
                done,
            ),
{
    let past = replies.drop_last();
    lemma_exchanges_kept(start, replies);
    assert forall|root: Seq<char>, n: int, before: int|
        inputs_staged(start, past, root, n, before) implies #[trigger] inputs_staged(
        start,
        replies,
        root,
        n,
        before,
    ) by {
        assert forall|i: int| 0 <= i < n implies #[trigger] input_staged(
            start,
            replies,
            root,
            i,
            before,
        ) by {
            assert(input_staged(start, past, root, i, before));
            let (host, u, t) = choose|host: Seq<char>, u: int, t: int|
                t < before && #[trigger] staged(start, past, root, i, host, u, t);
            assert(staged(start, replies, root, i, host, u, t));
        }
    }
    assert forall|root: Seq<char>, n: int, before: int|
        dirs_made(start, past, root, n, before) implies #[trigger] dirs_made(
        start,
        replies,
        root,
        n,
        before,
    ) by {
        assert forall|i: int| 0 <= i < n implies #[trigger] output_dir_made(
            start,
            replies,
            root,
            i,
            before,
        ) by {
            assert(output_dir_made(start, past, root, i, before));
            let (host, u) = choose|host: Seq<char>, u: int|
                u < before && (parent_text(host) is Some ==> u + 1 < before) && #[trigger] dir_made(
                    start,
                    past,
                    root,
                    i,
                    host,
                    u,
                );
            assert(dir_made(start, replies, root, i, host, u));
        }
    }
    assert forall|root: Seq<char>, r: int, done: Seq<ArtifactView>|
        collected(start, past, root, r, done) implies #[trigger] collected(
        start,
        replies,
        root,
        r,
        done,
    ) by {
        assert forall|i: int| #![trigger done[i]] 0 <= i < done.len() implies done[i].path
            == start.req.outputs[i] && output_read_back(
            start,
            replies,
            root,
            r,
            i,
            done[i].content,
        ) by {
            assert(output_read_back(start, past, root, r, i, done[i].content));
            let (host, t) = choose|host: Seq<char>, t: int|
                #[trigger] read_back(start, past, root, r, i, host, t, done[i].content);
            assert(read_back(start, replies, root, r, i, host, t, done[i].content));
        }
    }
}

proof fn lemma_more_time(
    start: LocalSpawnView,
    replies: Seq<SysReplyView>,
    root: Seq<char>,
    n: int,
    before: int,
    later: int,
)
    requires
        before <= later,
    ensures
        inputs_staged(start, replies, root, n, before) ==> inputs_staged(
            start,
            replies,
            root,
            n,
            later,
        ),
        dirs_made(start, replies, root, n, before) ==> dirs_made(start, replies, root, n, later),
{
    if inputs_staged(start, replies, root, n, before) {
        assert forall|i: int| 0 <= i < n implies #[trigger] input_staged(
            start,
            replies,
            root,
            i,
            later,
        ) by {
            assert(input_staged(start, replies, root, i, before));
        }
    }
    if dirs_made(start, replies, root, n, before) {
        assert forall|i: int| 0 <= i < n implies #[trigger] output_dir_made(
            start,
            replies,
            root,
            i,
            later,
        ) by {
            assert(output_dir_made(start, replies, root, i, before));
        }
    }
}

/// One more exchange, after a history.
spec fn one_more(start: LocalSpawnView, replies: Seq<SysReplyView>) -> bool {
    let past = replies.drop_last();
    &&& replies.len() > 0
    &&& history(start, past)
    &&& after(start, past).pending() is Some
    &&& LocalSpawnView::answers(after(start, past).pending()->0, replies.last())
    &&& start.stage is Finished || start.stage is Allocate
}

proof fn lemma_step_inputs(start: LocalSpawnView, replies: Seq<SysReplyView>)
    requires
        one_more(start, replies),
        ({
            let was = after(start, replies.drop_last()).stage;
            was is Allocate || was is LocateInput || was is InputDir || was is WriteInput
        }),
    ensures
        history(start, replies),
{
    let past = replies.drop_last();
    let reply = replies.last();
    let was = after(start, past);
    let n = replies.len() as int;
    was.lemma_wf_kept(reply);
    lemma_exchanges_kept(start, replies);
    lemma_facts_kept(start, replies);
    if past.len() > 0 {
        assert(replies[0] == past[0]);
    }
    match was.stage {
        StageView::Allocate => {
            if reply is Path {
                let root = reply->Path_0;
                assert(allocated(start, replies, root));
                assert(inputs_staged(start, replies, root, 0, n));
                assert(dirs_made(start, replies, root, 0, n));
            }
        },
        StageView::LocateInput { root, i } => {
            lemma_more_time(start, replies, root, i, n - 1, n);
        },
        StageView::InputDir { root, i, host } => {
            lemma_more_time(start, replies, root, i, n - 1, n);
        },
        StageView::WriteInput { root, i, host } => {
            lemma_more_time(start, replies, root, i, n - 1, n);
            if reply is Done {
                let u = if parent_text(host) is Some {
                    n - 3
                } else {
                    n - 2
                };
                assert(staged(start, replies, root, i, host, u, n - 1));
                assert(input_staged(start, replies, root, i, n));
                assert(inputs_staged(start, replies, root, i + 1, n));
                assert(dirs_made(start, replies, root, 0, n));
            }
        },
        _ => {},
    }
}

proof fn lemma_step_dirs(start: LocalSpawnView, replies: Seq<SysReplyView>)
    requires
        one_more(start, replies),
        ({
            let was = after(start, replies.drop_last()).stage;
            was is LocateOutput || was is OutputDir
        }),
    ensures
        history(start, replies),
{
    let past = replies.drop_last();
    let reply = replies.last();
    let was = after(start, past);
    let n = replies.len() as int;
    let ins = start.req.inputs.len() as int;
    was.lemma_wf_kept(reply);
    lemma_exchanges_kept(start, replies);
    lemma_facts_kept(start, replies);
    if past.len() > 0 {
        assert(replies[0] == past[0]);
    }
    match was.stage {
        StageView::LocateOutput { root, i } => {
            lemma_more_time(start, replies, root, ins, n - 1, n);
            lemma_more_time(start, replies, root, i, n - 1, n);
            let host = reply->Path_0;
            if parent_text(host) is None {
                assert(dir_made(start, replies, root, i, host, n - 1));
                assert(output_dir_made(start, replies, root, i, n));
                assert(dirs_made(start, replies, root, i + 1, n));
            }
        },
        StageView::OutputDir { root, i, host } => {
            lemma_more_time(start, replies, root, ins, n - 1, n);
            lemma_more_time(start, replies, root, i, n - 1, n);
            if reply is Done {
                assert(dir_made(start, replies, root, i, host, n - 2));
                assert(output_dir_made(start, replies, root, i, n));
                assert(dirs_made(start, replies, root, i + 1, n));
            }
        },
        _ => {},
    }
}

proof fn lemma_step_run(start: LocalSpawnView, replies: Seq<SysReplyView>)
    requires
        one_more(start, replies),
        after(start, replies.drop_last()).stage is Run,
    ensures
        history(start, replies),
{
    let past = replies.drop_last();
    let reply = replies.last();
    let was = after(start, past);
    let n = replies.len() as int;
    was.lemma_wf_kept(reply);
    lemma_exchanges_kept(start, replies);
    lemma_facts_kept(start, replies);
    assert(past.len() > 0);
    assert(replies[0] == past[0]);
    let root = was.stage->Run_root;
    assert(allocated(start, replies, root));
    if reply == SysReplyView::Exit(0) {
        assert(ran(start, replies, root, n - 1));
        let done = Seq::<ArtifactView>::empty();
        assert(collected(start, replies, root, n - 1, done));
        if start.req.outputs.len() == 0 {
            assert(produced(start, replies, root, n - 1, done));
        }
    }
}

proof fn lemma_step_results(start: LocalSpawnView, replies: Seq<SysReplyView>)
    requires
        one_more(start, replies),
        ({
            let was = after(start, replies.drop_last()).stage;
            was is LocateResult || was is ReadResult
        }),
    ensures
        history(start, replies),
{
    let past = replies.drop_last();
    let reply = replies.last();
    let was = after(start, past);
    let n = replies.len() as int;
    was.lemma_wf_kept(reply);
    lemma_exchanges_kept(start, replies);
    lemma_facts_kept(start, replies);
    assert(past.len() > 0);
    assert(replies[0] == past[0]);
    match was.stage {
        StageView::LocateResult { root, done } => {
            assert(allocated(start, replies, root));
            let r = choose|r: int|
                #[trigger] ran(start, past, root, r) && r < n - 1 && collected(
                    start,
                    past,
                    root,
                    r,
                    done,
                );
            assert(ran(start, replies, root, r));
            assert(collected(start, replies, root, r, done));
        },
        StageView::ReadResult { root, host, done } => {
            assert(allocated(start, replies, root));
            let r = choose|r: int|
                #[trigger] ran(start, past, root, r) && r < n - 2 && collected(
                    start,
                    past,
                    root,
                    r,
                    done,
                );
            assert(ran(start, replies, root, r));
            assert(collected(start, replies, root, r, done));
            if reply is Bytes {
                let content = reply->Bytes_0;
                let k = done.len() as int;
                let more = done.push(ArtifactView { path: start.req.outputs[k], content });
                assert(read_back(start, replies, root, r, k, host, n - 1, content));
                assert(output_read_back(start, replies, root, r, k, content));
                assert(collected(start, replies, root, r, more)) by {
                    assert forall|i: int| #![trigger more[i]] 0 <= i < more.len() implies more[i].path
                        == start.req.outputs[i] && output_read_back(
                        start,
                        replies,
                        root,
                        r,
                        i,
                        more[i].content,
                    ) by {
                        if i < k {
                            assert(more[i] == done[i]);
                        }
                    }
                }
                if more.len() == start.req.outputs.len() {
                    assert(produced(start, replies, root, r, more));
                }
            }
        },
        _ => {},
    }
}

proof fn lemma_step_teardown(start: LocalSpawnView, replies: Seq<SysReplyView>)
    requires
        one_more(start, replies),
        after(start, replies.drop_last()).stage is Teardown,
    ensures
        history(start, replies),
{
    let past = replies.drop_last();
    let was = after(start, past);
    was.lemma_wf_kept(replies.last());
    lemma_exchanges_kept(start, replies);
    lemma_facts_kept(start, replies);
    assert(past.len() > 0);
    assert(replies[0] == past[0]);
    if let StageView::Teardown { root, outcome } = was.stage {
        if outcome is Ok {
            let (r, done) = choose|r: int, done: Seq<ArtifactView>|
                #[trigger] produced(start, past, root, r, done) && outcome->Ok_0.code == 0
                    && outcome->Ok_0.outputs == by_name(done);
            assert(produced(start, replies, root, r, done));
        }
    }
}

/// The history of a spawn, by induction over its replies.
proof fn lemma_history(keep: bool, req: SpawnRequestView, replies: Seq<SysReplyView>)
    requires
        conversation(LocalSpawnView::begin(keep, req), replies),
    ensures
        history(LocalSpawnView::begin(keep, req), replies),
    decreases replies.len(),
{
    let start = LocalSpawnView::begin(keep, req);
    if replies.len() > 0 {
        let past = replies.drop_last();
        lemma_history(keep, req, past);
        assert(one_more(start, replies));
        match after(start, past).stage {
            StageView::LocateOutput { .. } => lemma_step_dirs(start, replies),
            StageView::OutputDir { .. } => lemma_step_dirs(start, replies),
            StageView::Run { .. } => lemma_step_run(start, replies),
            StageView::LocateResult { .. } => lemma_step_results(start, replies),
            StageView::ReadResult { .. } => lemma_step_results(start, replies),
            StageView::Teardown { .. } => lemma_step_teardown(start, replies),
            StageView::Finished { .. } => {},
            _ => lemma_step_inputs(start, replies),
        }
    }
}

/// A spawn that succeeds has done all of it: the exec root was allocated, every input was staged
/// with its own bytes in a directory made for it, the directories of the declared outputs were
/// made, and only after that the program ran, in exactly the declared environment and in the exec
/// root, and exited with zero. The result holds every declared output with the bytes read back
/// for it after the run, sorted by path, and nothing else. Last, the exec root was removed.
pub proof fn law_success_is_earned(keep: bool, req: SpawnRequestView, replies: Seq<SysReplyView>)
    requires
        conversation(LocalSpawnView::begin(keep, req), replies),
        after(LocalSpawnView::begin(keep, req), replies).stage is Finished,
        after(LocalSpawnView::begin(keep, req), replies).stage->Finished_outcome is Ok,
    ensures
        ({
            let start = LocalSpawnView::begin(keep, req);
            let result = after(start, replies).stage->Finished_outcome->Ok_0;
            &&& start.req == req
            &&& exists|root: Seq<char>, r: int, done: Seq<ArtifactView>|
                {
                    &&& #[trigger] produced(start, replies, root, r, done)
                    &&& replies[0] == SysReplyView::Path(root)
                    &&& asked(start, replies, r) matches SysRequestView::Spawn(process)
                    &&& process.program == req.argv[0]
                    &&& process.args.len() == req.argv.len() - 1
                    &&& forall|k: int|
                        0 <= k < process.args.len() ==> #[trigger] process.args[k] == req.argv[k + 1]
                    &&& process.env == req.env
                    &&& process.cwd == root
                    &&& replies[r] == SysReplyView::Exit(0)
                    &&& result.code == 0
                    &&& result.outputs == by_name(done)
                    &&& asked(start, replies, replies.len() - 1) == SysRequestView::RemoveDirAll(
                        root,
                    )
                }
        }),
{
    lemma_history(keep, req, replies);
    let start = LocalSpawnView::begin(keep, req);
    let outcome = after(start, replies).stage->Finished_outcome;
    let (root, r, done) = choose|root: Seq<char>, r: int, done: Seq<ArtifactView>|
        #[trigger] produced(start, replies, root, r, done) && outcome->Ok_0.code == 0
            && outcome->Ok_0.outputs == by_name(done);
    assert(allocated(start, replies, root));
    law_questions_of_a_spawn(keep, req, replies, r);
}

/// Whether `process` is the program that `req` declares, to be run in `root`: its first word is
/// the program, every other word an argument at its place, the environment is the declared one
/// and nothing else, and the working directory is `root`.
pub open spec fn runs_as_declared(
    req: SpawnRequestView,
    root: Seq<char>,
    process: ProcessSpecView,
) -> bool {
    &&& req.argv.len() > 0
    &&& process.program == req.argv[0]
    &&& process.args.len() == req.argv.len() - 1
    &&& forall|k: int| 0 <= k < process.args.len() ==> #[trigger] process.args[k] == req.argv[k + 1]
    &&& process.env == req.env
    &&& process.cwd == root
}

/// What a spawn asks of the host, in every run, whatever comes of it. It first asks for an exec
/// root. It asks only for places below that root, of the inputs and outputs declared. It makes the
/// directory of a place it was just given. It writes an input's own bytes, and to the place given
/// for that input. It runs the declared program. It reads at the place just given for a declared
/// output. It removes the exec root.
pub proof fn law_questions_of_a_spawn(
    keep: bool,
    req: SpawnRequestView,
    replies: Seq<SysReplyView>,
    t: int,
)
    requires
        conversation(LocalSpawnView::begin(keep, req), replies),
        0 <= t < replies.len(),
    ensures
        ({
            let start = LocalSpawnView::begin(keep, req);
            &&& asked(start, replies, 0) == SysRequestView::TempDir
            &&& t > 0 <==> asked(start, replies, t) !is TempDir
            &&& t > 0 ==> replies[0] is Path
            &&& match asked(start, replies, t) {
                SysRequestView::TempDir => t == 0,
                SysRequestView::Locate { root, rel } => {
                    &&& replies[0] == SysReplyView::Path(root)
                    &&& req.outputs.contains(rel) || exists|i: int|
                        0 <= i < req.inputs.len() && (#[trigger] req.inputs[i]).path == rel
                },
                SysRequestView::CreateDirAll(dir) => {
                    &&& asked(start, replies, t - 1) is Locate
                    &&& replies[t - 1] matches SysReplyView::Path(host)
                    &&& parent_text(host) == Some(dir)
                },
                SysRequestView::WriteAtomic { path, bytes } => exists|i: int|
                    {
                        &&& 0 <= i < req.inputs.len()
                        &&& bytes == (#[trigger] req.inputs[i]).content
                        &&& if parent_text(path) is Some {
                            &&& t > 1
                            &&& asked(start, replies, t - 2) == (SysRequestView::Locate {
                                root: replies[0]->Path_0,
                                rel: req.inputs[i].path,
                            })
                            &&& replies[t - 2] == SysReplyView::Path(path)
                            &&& asked(start, replies, t - 1) == SysRequestView::CreateDirAll(
                                parent_text(path)->0,
                            )
                            &&& replies[t - 1] is Done
                        } else {
                            &&& asked(start, replies, t - 1) == (SysRequestView::Locate {
                                root: replies[0]->Path_0,
                                rel: req.inputs[i].path,
                            })
                            &&& replies[t - 1] == SysReplyView::Path(path)
                        }
                    },
                SysRequestView::Spawn(process) => {
                    &&& replies[0] matches SysReplyView::Path(root)
                    &&& runs_as_declared(req, root, process)
                    &&& inputs_staged(start, replies, root, req.inputs.len() as int, t)
                    &&& dirs_made(start, replies, root, req.outputs.len() as int, t)
                },
                SysRequestView::Read(host) => {
                    &&& asked(start, replies, t - 1) matches SysRequestView::Locate { rel, .. }
                    &&& req.outputs.contains(rel)
                    &&& replies[t - 1] == SysReplyView::Path(host)
                },
                SysRequestView::RemoveDirAll(root) => replies[0] == SysReplyView::Path(root),
            }
        }),
    decreases replies.len(),
{
    let start = LocalSpawnView::begin(keep, req);
    let past = replies.drop_last();
    lemma_asked_kept(start, replies);
    lemma_exchanges_kept(start, replies);
    lemma_facts_kept(start, replies);
    if past.len() > 0 {
        assert(asked(start, replies, 0) == asked(start, past, 0));
        assert(replies[0] == past[0]);
    }
    if t < replies.len() - 1 {
        law_questions_of_a_spawn(keep, req, past, t);
        assert(asked(start, replies, t) == asked(start, past, t));
        if t > 0 {
            assert(asked(start, replies, t - 1) == asked(start, past, t - 1));
        }
        if t > 1 {
            assert(asked(start, replies, t - 2) == asked(start, past, t - 2));
        }
        if let SysRequestView::WriteAtomic { path, bytes } = asked(start, replies, t) {
            let i = choose|i: int|
                {
                    &&& 0 <= i < req.inputs.len()
                    &&& bytes == (#[trigger] req.inputs[i]).content
                    &&& if parent_text(path) is Some {
                        &&& t > 1
                        &&& asked(start, past, t - 2) == (SysRequestView::Locate {
                            root: past[0]->Path_0,
                            rel: req.inputs[i].path,
                        })
                        &&& past[t - 2] == SysReplyView::Path(path)
                        &&& asked(start, past, t - 1) == SysRequestView::CreateDirAll(
                            parent_text(path)->0,
                        )
                        &&& past[t - 1] is Done
                    } else {
                        &&& asked(start, past, t - 1) == (SysRequestView::Locate {
                            root: past[0]->Path_0,
                            rel: req.inputs[i].path,
                        })
                        &&& past[t - 1] == SysReplyView::Path(path)
                    }
                };
            assert(req.inputs[i].content == bytes);
        }
    } else {
        lemma_history(keep, req, past);
        let was = after(start, past);
        if past.len() > 0 {
            law_questions_of_a_spawn(keep, req, past, 0);
        }
        lemma_failures(keep, req, past);
        match was.stage {
            StageView::LocateInput { root, i } => {
                assert(req.inputs[i].path == req.inputs[i].path);
            },
            StageView::LocateOutput { root, i } => {
                assert(req.outputs[i] == req.outputs[i]);
            },
            StageView::WriteInput { root, i, host } => {
                assert(exchange(start, past, 0, SysRequestView::TempDir, SysReplyView::Path(root)));
                assert(req.inputs[i].content == req.inputs[i].content);
            },
            StageView::LocateResult { root, done } => {
                assert(req.outputs[done.len() as int] == req.outputs[done.len() as int]);
            },
            StageView::ReadResult { root, done, .. } => {
                assert(req.outputs[done.len() as int] == req.outputs[done.len() as int]);
            },
            _ => {},
        }
    }
}

/// Whether `reply` reports that `request` went wrong.
pub open spec fn went_wrong(request: SysRequestView, reply: SysReplyView) -> bool {
    ||| reply is Failed
    ||| request is Spawn && reply != SysReplyView::Exit(0)
}

proof fn lemma_failures(keep: bool, req: SpawnRequestView, replies: Seq<SysReplyView>)
    requires
        conversation(LocalSpawnView::begin(keep, req), replies),
    ensures
        ({
            let start = LocalSpawnView::begin(keep, req);
            let now = after(start, replies);
            &&& match now.stage {
                StageView::Teardown { outcome, .. } => outcome is Ok,
                StageView::Finished { outcome } => outcome is Ok,
                _ => true,
            } ==> forall|t: int|
                0 <= t < replies.len() && #[trigger] asked(start, replies, t) !is RemoveDirAll
                    ==> !went_wrong(asked(start, replies, t), replies[t])
            &&& now.stage !is Finished ==> forall|t: int|
                #![trigger asked(start, replies, t)]
                0 <= t < replies.len() ==> asked(start, replies, t) !is RemoveDirAll
            &&& now.stage !is Finished && now.stage !is Teardown && replies.len() > 0
                ==> replies[0] is Path
        }),
    decreases replies.len(),
{
    let start = LocalSpawnView::begin(keep, req);
    if replies.len() > 0 {
        let past = replies.drop_last();
        lemma_failures(keep, req, past);
        lemma_asked_kept(start, replies);
        if past.len() > 0 {
            assert(replies[0] == past[0]);
        }
    }
}

/// Nothing that goes wrong is passed over: if any operation before the removal of the exec root
/// failed, or the program exited with another code than zero, the spawn does not succeed.
pub proof fn law_fail_closed(
    keep: bool,
    req: SpawnRequestView,
    replies: Seq<SysReplyView>,
    t: int,
)
    requires
        conversation(LocalSpawnView::begin(keep, req), replies),
        0 <= t < replies.len(),
        asked(LocalSpawnView::begin(keep, req), replies, t) !is RemoveDirAll,
        went_wrong(asked(LocalSpawnView::begin(keep, req), replies, t), replies[t]),
    ensures
        match after(LocalSpawnView::begin(keep, req), replies).stage {
            StageView::Teardown { outcome, .. } => outcome is Err,
            StageView::Finished { outcome } => outcome is Err,
            _ => false,
        },
{
    lemma_failures(keep, req, replies);
}

/// A spawn with a program to run succeeds if nothing goes wrong: every operation before the removal
/// of the exec root is done and the program exits with zero. What becomes of the removal does not
/// matter.
pub proof fn law_success_is_owed(keep: bool, req: SpawnRequestView, replies: Seq<SysReplyView>)
    requires
        req.argv.len() > 0,
        conversation(LocalSpawnView::begin(keep, req), replies),
        forall|t: int|
            0 <= t < replies.len() && #[trigger] asked(
                LocalSpawnView::begin(keep, req),
                replies,
                t,
            ) !is RemoveDirAll ==> !went_wrong(
                asked(LocalSpawnView::begin(keep, req), replies, t),
                replies[t],
            ),
    ensures
        match after(LocalSpawnView::begin(keep, req), replies).stage {
            StageView::Teardown { outcome, .. } => outcome is Ok,
            StageView::Finished { outcome } => outcome is Ok,
            _ => true,
        },
    decreases replies.len(),
{
    let start = LocalSpawnView::begin(keep, req);
    if replies.len() > 0 {
        let past = replies.drop_last();
        lemma_asked_kept(start, replies);
        assert forall|t: int|
            0 <= t < past.len() && #[trigger] asked(start, past, t) !is RemoveDirAll implies !went_wrong(
            asked(start, past, t),
            past[t],
        ) by {
            assert(asked(start, replies, t) == asked(start, past, t));
        }
        law_success_is_owed(keep, req, past);
        assert(asked(start, replies, past.len() as int) == after(start, past).pending()->0);
    }
}

proof fn lemma_roots(keep: bool, req: SpawnRequestView, replies: Seq<SysReplyView>)
    requires
        conversation(LocalSpawnView::begin(keep, req), replies),
    ensures
        ({
            let start = LocalSpawnView::begin(keep, req);
            match after(start, replies).stage {
                StageView::Finished { outcome } => {
                    &&& forall|t: int|
                        #![trigger asked(start, replies, t)]
                        0 <= t < replies.len() && asked(start, replies, t) is RemoveDirAll ==> {
                            &&& t == replies.len() - 1
                            &&& replies[0] is Path
                            &&& asked(start, replies, t) == SysRequestView::RemoveDirAll(
                                replies[0]->Path_0,
                            )
                            &&& outcome is Ok || !keep
                        }
                    &&& replies.len() > 0 && replies[0] is Path && (outcome is Ok || !keep)
                        ==> asked(start, replies, replies.len() - 1) is RemoveDirAll
                },
                _ => true,
            }
        }),
{
    let start = LocalSpawnView::begin(keep, req);
    lemma_history(keep, req, replies);
    if replies.len() > 0 && after(start, replies).stage is Finished {
        let past = replies.drop_last();
        lemma_failures(keep, req, past);
        lemma_history(keep, req, past);
        lemma_asked_kept(start, replies);
        if past.len() > 0 {
            assert(replies[0] == past[0]);
        }
    }
}

/// What becomes of the exec root. When a spawn is over, the exec root it was given has been
/// removed if and only if the spawn succeeded or failures are not kept; the removal was the last
/// thing asked, and nothing else was ever removed.
pub proof fn law_exec_root_fate(keep: bool, req: SpawnRequestView, replies: Seq<SysReplyView>)
    requires
        conversation(LocalSpawnView::begin(keep, req), replies),
        after(LocalSpawnView::begin(keep, req), replies).stage is Finished,
    ensures
        ({
            let start = LocalSpawnView::begin(keep, req);
            let outcome = after(start, replies).stage->Finished_outcome;
            let given = replies.len() > 0 && replies[0] is Path;
            &&& forall|t: int|
                #![trigger asked(start, replies, t)]
                0 <= t < replies.len() && asked(start, replies, t) is RemoveDirAll ==> {
                    &&& given
                    &&& t == replies.len() - 1
                    &&& asked(start, replies, t) == SysRequestView::RemoveDirAll(replies[0]->Path_0)
                    &&& outcome is Ok || !keep
                }
            &&& given && (outcome is Ok || !keep) ==> asked(start, replies, replies.len() - 1)
                == SysRequestView::RemoveDirAll(replies[0]->Path_0)
        }),
{
    lemma_roots(keep, req, replies);
}

proof fn lemma_runs(keep: bool, req: SpawnRequestView, replies: Seq<SysReplyView>)
    requires
        conversation(LocalSpawnView::begin(keep, req), replies),
    ensures
        ({
            let start = LocalSpawnView::begin(keep, req);
            let stage = after(start, replies).stage;
            &&& stage is Allocate || stage is LocateInput || stage is InputDir || stage is WriteInput
                || stage is LocateOutput || stage is OutputDir || stage is Run ==> forall|t: int|
                #![trigger asked(start, replies, t)]
                0 <= t < replies.len() ==> asked(start, replies, t) !is Spawn
            &&& forall|t: int, u: int|
                #![trigger asked(start, replies, t), asked(start, replies, u)]
                0 <= t < replies.len() && 0 <= u < replies.len() && asked(start, replies, t) is Spawn
                    && asked(start, replies, u) is Spawn ==> t == u
        }),
    decreases replies.len(),
{
    let start = LocalSpawnView::begin(keep, req);
    if replies.len() > 0 {
        let past = replies.drop_last();
        lemma_runs(keep, req, past);
        lemma_asked_kept(start, replies);
    }
}

/// One spawn runs at most one subprocess.
pub proof fn law_runs_at_most_once(
    keep: bool,
    req: SpawnRequestView,
    replies: Seq<SysReplyView>,
    t: int,
    u: int,
)
    requires
        conversation(LocalSpawnView::begin(keep, req), replies),
        0 <= t < replies.len(),
        0 <= u < replies.len(),
        asked(LocalSpawnView::begin(keep, req), replies, t) is Spawn,
        asked(LocalSpawnView::begin(keep, req), replies, u) is Spawn,
    ensures
        t == u,
{
    lemma_runs(keep, req, replies);
}

/// How many operations a spawn may still ask for.
pub open spec fn remaining(now: LocalSpawnView) -> int {
    let ins = now.req.inputs.len() as int;
    let outs = now.req.outputs.len() as int;
    match now.stage {
        StageView::Allocate => 3 * ins + 4 * outs + 3,
        StageView::LocateInput { i, .. } => 3 * (ins - i) + 4 * outs + 2,
        StageView::InputDir { i, .. } => 3 * (ins - i) - 1 + 4 * outs + 2,
        StageView::WriteInput { i, .. } => 3 * (ins - i) - 2 + 4 * outs + 2,
        StageView::LocateOutput { i, .. } => 2 * (outs - i) + 2 * outs + 2,
        StageView::OutputDir { i, .. } => 2 * (outs - i) - 1 + 2 * outs + 2,
        StageView::Run { .. } => 2 * outs + 2,
        StageView::LocateResult { done, .. } => 2 * (outs - done.len()) + 1,
        StageView::ReadResult { done, .. } => 2 * (outs - done.len()),
        StageView::Teardown { .. } => 1,
        StageView::Finished { .. } => 0,
    }
}

/// Every spawn comes to an end: each answer brings it closer, and it asks for at most three
/// operations per input and four per output, besides allocating the exec root, running the
/// program and removing the exec root.
pub proof fn law_spawn_ends(keep: bool, req: SpawnRequestView, replies: Seq<SysReplyView>)
    requires
        conversation(LocalSpawnView::begin(keep, req), replies),
    ensures
        ({
            let now = after(LocalSpawnView::begin(keep, req), replies);
            &&& replies.len() + remaining(now) <= 3 * req.inputs.len() + 4 * req.outputs.len() + 3
            &&& remaining(now) >= 0
            &&& remaining(now) == 0 <==> now.stage is Finished
        }),
    decreases replies.len(),
{
    let start = LocalSpawnView::begin(keep, req);
    lemma_history(keep, req, replies);
    if replies.len() > 0 {
        law_spawn_ends(keep, req, replies.drop_last());
        lemma_history(keep, req, replies.drop_last());
    }
}

/// A spawn that begins is of the request given and under the policy given, and asks for an exec
/// root; one without a program is over at once, with the error that says so.
pub proof fn law_spawn_begins(keep: bool, req: SpawnRequestView)
    ensures
        LocalSpawnView::begin(keep, req).req == req,
        LocalSpawnView::begin(keep, req).keep_on_failure == keep,
        req.argv.len() > 0 ==> LocalSpawnView::begin(keep, req).pending() == Some(
            SysRequestView::TempDir,
        ),
        req.argv.len() == 0 ==> LocalSpawnView::begin(keep, req).stage == (StageView::Finished {
            outcome: Err(
                ExecErrorView::SpawnFailed {
                    mnemonic: req.mnemonic,
                    detail: "empty argv: no program to run"@,
                },
            ),
        }),
{
}

/// Whether a spawn has come to `outcome` and has nothing left but to remove the exec root, if that
/// is to be removed.
pub open spec fn comes_to(
    now: LocalSpawnView,
    keep: bool,
    root: Seq<char>,
    outcome: OutcomeView,
) -> bool {
    if outcome is Ok || !keep {
        now.stage == (StageView::Teardown { root, outcome })
    } else {
        now.stage == (StageView::Finished { outcome })
    }
}

/// The error that a spawn comes to, by the last question and its answer: the step that failed is
/// named with what it was about and why, a program that exits with another code than zero with
/// that code, and an output that is not there by its path. Removing the exec root changes nothing
/// of it.
pub proof fn law_spawn_failures_are_named(
    keep: bool,
    req: SpawnRequestView,
    replies: Seq<SysReplyView>,
)
    requires
        conversation(LocalSpawnView::begin(keep, req), replies),
        replies.len() > 0,
    ensures
        ({
            let start = LocalSpawnView::begin(keep, req);
            let n = replies.len() as int;
            let was = after(start, replies.drop_last());
            let now = after(start, replies);
            let root = replies[0]->Path_0;
            match (asked(start, replies, n - 1), replies.last()) {
                (SysRequestView::TempDir, SysReplyView::Failed(why)) => now.stage == (
                StageView::Finished {
                    outcome: Err(
                        ExecErrorView::SpawnFailed {
                            mnemonic: req.mnemonic,
                            detail: "allocate exec root: "@ + why,
                        },
                    ),
                }),
                (SysRequestView::CreateDirAll(_), SysReplyView::Failed(why)) => {
                    &&& replies[n - 2] matches SysReplyView::Path(host)
                    &&& was.stage is InputDir || was.stage is OutputDir
                    &&& was.stage is InputDir ==> comes_to(
                        now,
                        keep,
                        root,
                        Err(
                            ExecErrorView::SpawnFailed {
                                mnemonic: req.mnemonic,
                                detail: "stage input '"@ + host + "': "@ + why,
                            },
                        ),
                    )
                    &&& was.stage is OutputDir ==> comes_to(
                        now,
                        keep,
                        root,
                        Err(
                            ExecErrorView::SpawnFailed {
                                mnemonic: req.mnemonic,
                                detail: "create output dir '"@ + host + "': "@ + why,
                            },
                        ),
                    )
                },
                (SysRequestView::WriteAtomic { bytes, .. }, SysReplyView::Failed(why)) => exists|
                    i: int,
                |
                    {
                        &&& 0 <= i < req.inputs.len()
                        &&& bytes == (#[trigger] req.inputs[i]).content
                        &&& comes_to(
                            now,
                            keep,
                            root,
                            Err(
                                ExecErrorView::SpawnFailed {
                                    mnemonic: req.mnemonic,
                                    detail: "stage input '"@ + req.inputs[i].path + "': "@ + why,
                                },
                            ),
                        )
                    },
                (SysRequestView::Spawn(_), SysReplyView::Failed(why)) => comes_to(
                    now,
                    keep,
                    root,
                    Err(ExecErrorView::SpawnFailed { mnemonic: req.mnemonic, detail: why }),
                ),
                (SysRequestView::Spawn(_), SysReplyView::Exit(code)) => code != 0 ==> comes_to(
                    now,
                    keep,
                    root,
                    Err(
                        ExecErrorView::SpawnFailed {
                            mnemonic: req.mnemonic,
                            detail: "subprocess exited with code "@ + decimal(code),
                        },
                    ),
                ),
                (SysRequestView::Read(_), SysReplyView::Failed(_)) => {
                    &&& asked(start, replies, n - 2) matches SysRequestView::Locate { rel, .. }
                    &&& comes_to(
                        now,
                        keep,
                        root,
                        Err(
                            ExecErrorView::OutputNotProduced { mnemonic: req.mnemonic, path: rel },
                        ),
                    )
                },
                (SysRequestView::RemoveDirAll(_), _) => {
                    &&& was.stage matches StageView::Teardown { outcome, .. }
                    &&& now.stage == (StageView::Finished { outcome })
                },
                _ => now.pending() is Some,
            }
        }),
{
    let start = LocalSpawnView::begin(keep, req);
    let past = replies.drop_last();
    let n = replies.len() as int;
    lemma_asked_kept(start, replies);
    lemma_history(keep, req, past);
    let was = after(start, past);
    if past.len() > 0 {
        assert(replies[0] == past[0]);
        assert(asked(start, replies, n - 2) == asked(start, past, n - 2));
        assert(replies[n - 2] == past[n - 2]);
    }
    reveal_strlit("stage input");
    reveal_strlit("create output dir");
    reveal_strlit(" '");
    reveal_strlit("stage input '");
    reveal_strlit("create output dir '");
    assert("stage input"@ + " '"@ =~= "stage input '"@);
    assert("create output dir"@ + " '"@ =~= "create output dir '"@);
    if let StageView::WriteInput { i, .. } = was.stage {
        assert(req.inputs[i].content == req.inputs[i].content);
    }
}

/// Which answers fit which questions. Whatever is said of the removal of the exec root, the spawn
/// is over after it. Any other answer that does not fit changes nothing, and neither does one that
/// comes after the end.
pub proof fn law_spawn_takes_fitting_answers(
    state: LocalSpawnView,
    request: SysRequestView,
    reply: SysReplyView,
)
    ensures
        LocalSpawnView::answers(request, reply) <==> match request {
            SysRequestView::TempDir => reply is Path || reply is Failed,
            SysRequestView::Locate { .. } => reply is Path,
            SysRequestView::CreateDirAll(_) => reply is Done || reply is Failed,
            SysRequestView::WriteAtomic { .. } => reply is Done || reply is Failed,
            SysRequestView::Spawn(_) => reply is Exit || reply is Failed,
            SysRequestView::Read(_) => reply is Bytes || reply is Failed,
            SysRequestView::RemoveDirAll(_) => reply is Done || reply is Failed,
        },
        state.pending() is None ==> state.next(reply) == state,
        state.stage matches StageView::Teardown { outcome, .. } ==> state.next(reply) == (
        LocalSpawnView {
            keep_on_failure: state.keep_on_failure,
            req: state.req,
            stage: StageView::Finished { outcome },
        }),
        state.stage !is Teardown ==> (state.pending() matches Some(q) ==> (LocalSpawnView::answers(
            q,
            reply,
        ) || state.next(reply) == state)),
{
}

} // verus!
