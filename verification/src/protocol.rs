//! Conversations: a state asks one thing of the outside at a time and moves on
//! with the answer. The outside may answer as it likes, within what fits the question.

use vstd::prelude::*;

verus! {

/// A state that is either asking something or at its end.
pub trait Protocol: Sized {
    /// What is asked.
    type Request;

    /// What is answered.
    type Reply;

    /// The pending question; none at the end.
    spec fn pending(self) -> Option<Self::Request>;

    /// Whether `reply` is of a kind that answers `request`.
    spec fn answers(request: Self::Request, reply: Self::Reply) -> bool;

    /// The state after `reply` to the pending question.
    spec fn next(self, reply: Self::Reply) -> Self;
}

/// The state reached from `start` through `replies`, in order.
pub open spec fn after<P: Protocol>(start: P, replies: Seq<P::Reply>) -> P
    decreases replies.len(),
{
    if replies.len() == 0 {
        start
    } else {
        after(start, replies.drop_last()).next(replies.last())
    }
}

/// The question that `replies[t]` answered.
#[verifier::opaque]
pub open spec fn asked<P: Protocol>(start: P, replies: Seq<P::Reply>, t: int) -> P::Request {
    after(start, replies.take(t)).pending()->0
}

/// Whether each reply answers a question that was then pending.
pub open spec fn conversation<P: Protocol>(start: P, replies: Seq<P::Reply>) -> bool
    decreases replies.len(),
{
    replies.len() > 0 ==> {
        let before = after(start, replies.drop_last());
        &&& conversation(start, replies.drop_last())
        &&& before.pending() is Some
        &&& P::answers(before.pending()->0, replies.last())
    }
}

/// The beginning of a conversation is a conversation.
pub proof fn lemma_prefix<P: Protocol>(start: P, replies: Seq<P::Reply>, t: int)
    requires
        conversation(start, replies),
        0 <= t <= replies.len(),
    ensures
        conversation(start, replies.take(t)),
        t < replies.len() ==> after(start, replies.take(t)).pending() is Some && P::answers(
            after(start, replies.take(t)).pending()->0,
            replies[t],
        ),
    decreases replies.len(),
{
    if t == replies.len() {
        assert(replies.take(t) =~= replies);
    } else {
        let past = replies.drop_last();
        assert(past.take(t) =~= replies.take(t));
        lemma_prefix(start, past, t);
        if t == past.len() {
            assert(replies.take(t) =~= past);
        } else {
            assert(past[t] == replies[t]);
        }
    }
}

/// What was asked earlier does not change as the conversation goes on.
pub proof fn lemma_asked_earlier<P: Protocol>(start: P, replies: Seq<P::Reply>, t: int)
    requires
        0 <= t < replies.len() - 1,
    ensures
        asked(start, replies, t) == asked(start, replies.drop_last(), t),
        replies[t] == replies.drop_last()[t],
{
    reveal(asked);
    assert(replies.drop_last().take(t) =~= replies.take(t));
}

/// What was asked earlier does not change, at any point.
pub proof fn lemma_asked_kept<P: Protocol>(start: P, replies: Seq<P::Reply>)
    requires
        replies.len() > 0,
    ensures
        forall|t: int|
            0 <= t < replies.len() - 1 ==> #[trigger] asked(start, replies, t) == asked(
                start,
                replies.drop_last(),
                t,
            ) && replies[t] == replies.drop_last()[t],
        asked(start, replies, replies.len() - 1) == after(start, replies.drop_last()).pending()->0,
{
    assert forall|t: int| 0 <= t < replies.len() - 1 implies #[trigger] asked(start, replies, t)
        == asked(start, replies.drop_last(), t) && replies[t] == replies.drop_last()[t] by {
        lemma_asked_earlier(start, replies, t);
    }
    lemma_asked_last(start, replies);
}

/// The last question is the one pending before the last reply.
pub proof fn lemma_asked_last<P: Protocol>(start: P, replies: Seq<P::Reply>)
    requires
        replies.len() > 0,
    ensures
        asked(start, replies, replies.len() - 1) == after(start, replies.drop_last()).pending()->0,
{
    reveal(asked);
    assert(replies.take(replies.len() - 1) =~= replies.drop_last());
}

/// What conversations are. Nothing said is one; one reply more makes another exactly if it answers
/// what is pending, and moves the state on; and a question is what was pending before its reply.
pub proof fn law_conversations<P: Protocol>(
    start: P,
    replies: Seq<P::Reply>,
    reply: P::Reply,
    t: int,
)
    ensures
        conversation(start, Seq::empty()),
        after(start, Seq::empty()) == start,
        conversation(start, replies.push(reply)) <==> {
            &&& conversation(start, replies)
            &&& after(start, replies).pending() is Some
            &&& P::answers(after(start, replies).pending()->0, reply)
        },
        after(start, replies.push(reply)) == after(start, replies).next(reply),
        asked(start, replies, t) == after(start, replies.take(t)).pending()->0,
{
    reveal(asked);
    assert(replies.push(reply).drop_last() =~= replies);
}

} // verus!
