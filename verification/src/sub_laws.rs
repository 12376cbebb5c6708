//! What holds of receiving, whatever the streams do.
use crate::merge::{Arrival, MergeCall};
use crate::promise::{paired, reply_comes_through_its_promise, Error, QPromise, Request};
use crate::stream::PatternStream;
use crate::sub_impl::{Phase, SubRunView};
use crate::task::Step;
use core::task::Poll;
use vstd::prelude::*;

verus! {

/// The streams that were gone, by this record, the oldest first.
pub open spec fn closings<M, E>(calls: Seq<MergeCall<M, E>>) -> Seq<Option<E>>
    decreases calls.len(),
{
    if calls.len() == 0 {
        Seq::empty()
    } else {
        match calls.last() {
            MergeCall::Next(Poll::Ready(Some(Arrival::Closed(done)))) => closings(
                calls.drop_last(),
            ).push(done),
            _ => closings(calls.drop_last()),
        }
    }
}

/// The messages that came, by this record, the oldest first.
pub open spec fn items<M, E>(calls: Seq<MergeCall<M, E>>) -> Seq<M>
    decreases calls.len(),
{
    if calls.len() == 0 {
        Seq::empty()
    } else {
        match calls.last() {
            MergeCall::Next(Poll::Ready(Some(Arrival::Item(msg)))) => items(calls.drop_last()).push(
                msg,
            ),
            _ => items(calls.drop_last()),
        }
    }
}

/// The messages of these jobs.
pub open spec fn messages<M, T>(jobs: Seq<(M, QPromise<T>)>) -> Seq<M> {
    jobs.map_values(|job: (M, QPromise<T>)| job.0)
}

/// One more call adds its message, if one came.
proof fn items_push<M, E>(calls: Seq<MergeCall<M, E>>, call: MergeCall<M, E>)
    ensures
        items(calls.push(call)) == match call {
            MergeCall::Next(Poll::Ready(Some(Arrival::Item(msg)))) => items(calls).push(msg),
            _ => items(calls),
        },
{
    assert(calls.push(call).drop_last() =~= calls);
}

/// One more call adds its stream, if one was gone.
proof fn closings_push<M, E>(calls: Seq<MergeCall<M, E>>, call: MergeCall<M, E>)
    ensures
        closings(calls.push(call)) == match call {
            MergeCall::Next(Poll::Ready(Some(Arrival::Closed(done)))) => closings(calls).push(done),
            _ => closings(calls),
        },
{
    assert(calls.push(call).drop_last() =~= calls);
}

impl<'a, S: PatternStream> SubRunView<'a, S> {
    /// What was reported is what was gone. Until it is over, what was handed on are the messages that
    /// came, each once, in order. The one at work is the last of them, and waits at the other end of the
    /// promise that went with it.
    pub open spec fn sound(self) -> bool {
        &&& self.done.handed() == closings(self.merge.calls())
        &&& self.phase is Next || self.phase is Requesting || self.phase is Closing ==> messages(
            self.asked,
        ) == items(self.merge.calls())
        &&& self.phase matches Phase::Requesting(request) ==> {
            &&& request.sender() == self.msg_s
            &&& paired(request.item().1, request.future())
            &&& self.asked.len() > 0
            &&& self.asked.last() == request.item()
        }
    }
}

impl<'a, S: PatternStream> SubRunView<'a, S> {
    /// The machine was just made.
    pub open spec fn begins(self) -> bool {
        &&& self.merge.calls().len() == 0
        &&& self.done.handed().len() == 0
        &&& self.phase is Next
        &&& self.asked.len() == 0
    }

    /// `after` is what may come of one poll.
    pub open spec fn leads_to(self, after: Self) -> bool {
        exists|step: Step<()>| #[trigger] self.polled(step, after)
    }
}

/// A machine that was just made is in order.
pub proof fn sub_starts_sound<'a, S: PatternStream>(run: SubRunView<'a, S>)
    requires
        run.begins(),
    ensures
        run.sound(),
{
    assert(run.done.handed() =~= Seq::empty());
    assert(messages(run.asked) =~= items(run.merge.calls()));
}

/// **Messages are handed on one at a time.** Each message that comes is handed on once, in order, and
/// nothing else is. Each stream that is gone is reported, in order, and
/// nothing else is. A message that has come is at work until it is done with; nothing is asked of
/// the streams meanwhile. Messages are asked for as long as the last one was done with.
pub proof fn sub_step<'a, S: PatternStream>(
    before: SubRunView<'a, S>,
    step: Step<()>,
    after: SubRunView<'a, S>,
)
    requires
        before.sound(),
        before.polled(step, after),
    ensures
        after.sound(),
        after.merge.origin() == before.merge.origin(),
        !(before.phase is Next && after.phase is Requesting) ==> after.asked == before.asked,
        match (before.phase, after.phase) {
            (Phase::Next, Phase::Requesting(request)) => before.merge.called(
                MergeCall::Next(Poll::Ready(Some(Arrival::Item(request.item().0)))),
                after.merge,
            ),
            (Phase::Requesting(request), Phase::Requesting(later)) => {
                &&& later.item() == request.item()
                &&& after.merge == before.merge
            },
            (Phase::Requesting(request), _) => {
                &&& after.phase is Next || after.phase is Closing
                &&& after.merge == before.merge
                &&& exists|asked: Request<'a, S::Msg, ()>, answer: Result<(), Error>| #[trigger]
                    request.polled(Poll::Ready(answer), asked) && (answer is Ok
                        <==> after.phase is Next)
            },
            _ => true,
        },
        step is Ready <==> after.phase is Finished,
{
    match before.phase {
        Phase::Next => {
            let answer = choose|answer: Poll<Option<Arrival<S::Msg, S::Err>>>| #[trigger]
                before.merge.called(MergeCall::Next(answer), after.merge) && before.received(
                    answer,
                    step,
                    after,
                );
            closings_push(before.merge.calls(), MergeCall::Next(answer));
            items_push(before.merge.calls(), MergeCall::Next(answer));
            assert(after.done.handed() =~= closings(after.merge.calls()));
            if after.phase is Requesting {
                assert(messages(after.asked) =~= messages(before.asked).push(
                    after.asked.last().0,
                ));
            }
        },
        Phase::Requesting(request) => {
            let (answer, asked) = choose|
                answer: Poll<Result<(), Error>>,
                asked: Request<'a, S::Msg, ()>,
            | #[trigger]
                request.polled(answer, asked) && match answer {
                    Poll::Pending => {
                        &&& after == SubRunView { phase: Phase::Requesting(asked), ..before }
                        &&& step is Pending
                    },
                    Poll::Ready(Ok(())) => {
                        &&& after == SubRunView { phase: Phase::Next, ..before }
                        &&& step is Again
                    },
                    Poll::Ready(Err(_)) => {
                        &&& after == SubRunView { phase: Phase::Closing, ..before }
                        &&& step is Again
                    },
                };
            reply_comes_through_its_promise(request, answer, asked);
        },
        Phase::Closing => {
            let closed = choose|closed: Poll<()>| #[trigger]
                before.merge.called(MergeCall::Close(closed), after.merge) && match closed {
                    Poll::Ready(()) => {
                        &&& after == SubRunView {
                            merge: after.merge,
                            phase: Phase::Draining,
                            ..before
                        }
                        &&& step is Again
                    },
                    Poll::Pending => {
                        &&& after == SubRunView { merge: after.merge, ..before }
                        &&& step is Pending
                    },
                };
            closings_push(before.merge.calls(), MergeCall::Close(closed));
            items_push(before.merge.calls(), MergeCall::Close(closed));
        },
        Phase::Draining => {
            let answer = choose|answer: Poll<Option<Arrival<S::Msg, S::Err>>>| #[trigger]
                before.merge.called(MergeCall::Next(answer), after.merge) && before.drained(
                    answer,
                    step,
                    after,
                );
            closings_push(before.merge.calls(), MergeCall::Next(answer));
            assert(after.done.handed() =~= closings(after.merge.calls()));
        },
        Phase::Finished => {},
    }
}

/// The next of these may come of one poll.
pub open spec fn moves_on<'a, S: PatternStream>(history: Seq<SubRunView<'a, S>>, i: int) -> bool {
    history[i].leads_to(history[i + 1])
}

/// **All this holds at all times.** However often a machine is polled after it was made, and whatever
/// the streams and channels answer, the streams that were reported are those that were gone, in order.
pub proof fn sub_always<'a, S: PatternStream>(history: Seq<SubRunView<'a, S>>, n: int)
    requires
        0 <= n < history.len(),
        history[0].begins(),
        forall|i: int| 0 <= i < history.len() - 1 ==> #[trigger] moves_on(history, i),
    ensures
        history[n].sound(),
    decreases n,
{
    if n == 0 {
        sub_starts_sound(history[0]);
    } else {
        sub_always(history, n - 1);
        assert(moves_on(history, n - 1));
        let step = choose|step: Step<()>| #[trigger] history[n - 1].polled(step, history[n]);
        sub_step(history[n - 1], step, history[n]);
    }
}

} // verus!
