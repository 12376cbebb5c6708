//! When receiving and replying end, and what they wait for until then.
use crate::channel::{Delivery, Receipt, Refused};
use crate::merge::{Arrival, MergeCall};
use crate::promise::{outcome_spec, Error, QFuture, QPromise, Request};
use crate::pub_laws::said_closed;
use crate::push_stream::{endings, Round};
use crate::rep_impl::{Phase as RepPhase, RepRunView, RepView};
use crate::rep_laws;
use crate::stream::{Done, PatternStream, Peer};
use crate::sub_impl::{Phase as SubPhase, SubRunView};
use crate::sub_laws;
use crate::task::Step;
use core::task::Poll;
use vstd::prelude::*;

verus! {

/// **A future says what came through its channel.** It is asked once for each answer: the value is
/// what came, there is an error exactly if nothing can come any more, and else it has yet to come.
pub proof fn future_says_what_came<T>(
    before: QFuture<T>,
    answer: Poll<Result<T, Error>>,
    after: QFuture<T>,
)
    requires
        before.answered(answer, after),
    ensures
        after.inbox().origin() == before.inbox().origin(),
        after.inbox().receipts().len() == before.inbox().receipts().len() + 1,
        after.inbox().receipts().drop_last() == before.inbox().receipts(),
        match after.inbox().receipts().last() {
            Receipt::Polled(Poll::Ready(Some(value))) => answer == Poll::<
                Result<T, Error>,
            >::Ready(Ok(value)),
            Receipt::Polled(Poll::Ready(None)) => answer matches Poll::Ready(Err(_)),
            Receipt::Polled(Poll::Pending) => answer is Pending,
            Receipt::Closed(_) => false,
        },
{
    assert(after.inbox().receipts().drop_last() =~= before.inbox().receipts());
}

/// **A delivery is over exactly when it was answered.** It carries the same item, through the same sender.
pub proof fn a_delivery_is_over_when_answered<'a, T>(
    before: Delivery<'a, T>,
    answer: Poll<Result<(), Refused>>,
    after: Delivery<'a, T>,
)
    requires
        before.asked(answer, after),
    ensures
        after.item() == before.item(),
        after.sender() == before.sender(),
        after.answers() == before.answers().push(answer),
        after.is_over() <==> after.answers().last() is Ready,
{
}

/// One thing more was asked of the channel that the reply is waited for at, and this came.
pub open spec fn heard<'a, T, U>(
    before: Request<'a, T, U>,
    received: Poll<Option<U>>,
    after: Request<'a, T, U>,
) -> bool {
    after.future().inbox().receipts() == before.future().inbox().receipts().push(
        Receipt::Polled(received),
    )
}

/// It was tried once more to deliver the message, and it went like this.
pub open spec fn tried<'a, T, U>(
    before: Request<'a, T, U>,
    sent: Poll<Result<(), Refused>>,
    after: Request<'a, T, U>,
) -> bool {
    after.delivery().answers() == before.delivery().answers().push(sent)
}

/// **A request goes as its channels say.** It waits as long as the message waits for room, or no
/// reply has come. It fails exactly if the channel refuses the message, or no reply can come any
/// more. The reply is what has come. It is not waited for before the message is delivered, and the
/// message is not delivered again.
pub proof fn request_goes_as_its_channels_say<'a, T, U>(
    before: Request<'a, T, U>,
    answer: Poll<Result<U, Error>>,
    after: Request<'a, T, U>,
)
    requires
        before.polled(answer, after),
    ensures
        answer is Pending <==> tried(before, Poll::Pending, after) || heard(
            before,
            Poll::Pending,
            after,
        ),
        answer matches Poll::Ready(Err(_)) <==> tried(before, Poll::Ready(Err(Refused)), after)
            || heard(before, Poll::Ready(None), after),
        forall|reply: U|
            answer == Poll::<Result<U, Error>>::Ready(Ok(reply)) <==> #[trigger] heard(
                before,
                Poll::Ready(Some(reply)),
                after,
            ),
        after.future().inbox().receipts() != before.future().inbox().receipts() ==> {
            ||| before.delivery().is_over()
            ||| tried(before, Poll::Ready(Ok(())), after)
        },
        before.delivery().is_over() ==> after.delivery() == before.delivery(),
{
    let known = before.delivery().answers();
    let asked = before.future().inbox().receipts();
    assert forall|one: Receipt<U>| #[trigger] asked.push(one) != asked by {
        assert(asked.push(one).len() == asked.len() + 1);
    }
    assert forall|one: Poll<Result<(), Refused>>| #[trigger] known.push(one) != known by {
        assert(known.push(one).len() == known.len() + 1);
    }
    let last = after.future().inbox().receipts().last();
    let sent = after.delivery().answers().last();
    assert forall|received: Poll<Option<U>>| #[trigger] heard(before, received, after) implies last
        == Receipt::Polled(received) by {}
    assert forall|way: Poll<Result<(), Refused>>| #[trigger] tried(before, way, after) implies sent
        == way by {}
    if before.waited(answer, after) {
        let received = choose|received: Poll<Option<U>>| #[trigger]
            before.future().polled(received, after.future()) && answer
                == outcome_spec(received);
        assert(heard(before, received, after));
    }
    if !before.delivery().is_over() {
        let way = choose|way: Poll<Result<(), Refused>>| #[trigger]
            before.delivery().asked(way, after.delivery()) && match way {
                Poll::Pending => {
                    &&& after.future() == before.future()
                    &&& answer == Poll::<Result<U, Error>>::Pending
                },
                Poll::Ready(Err(_)) => {
                    &&& after.future() == before.future()
                    &&& answer == Poll::<Result<U, Error>>::Ready(Err(Error))
                },
                Poll::Ready(Ok(())) => before.waited(answer, after),
            };
        assert(tried(before, way, after));
        match way {
            Poll::Ready(Err(refused)) => {
                assert(refused == Refused);
            },
            Poll::Ready(Ok(nothing)) => {
                assert(nothing == ());
            },
            _ => {},
        }
    }
}

/// A message came.
pub open spec fn is_item<M, E>(call: MergeCall<M, E>) -> bool {
    call matches MergeCall::Next(Poll::Ready(Some(Arrival::Item(_))))
}

/// A stream was gone.
pub open spec fn is_loss<M, E>(call: MergeCall<M, E>) -> bool {
    call matches MergeCall::Next(Poll::Ready(Some(Arrival::Closed(_))))
}

/// **Receiving goes as the streams and the channel say.** While it waits for a message, one thing
/// is asked of the streams in each poll. It turns to closing exactly if they say that nothing will
/// come any more. A message is handed on, and that a stream is gone ends nothing. A message that
/// was handed on is waited for until it is done with; only if that fails it turns to closing.
pub proof fn sub_ends_for_cause<'a, S: PatternStream>(
    before: SubRunView<'a, S>,
    step: Step<()>,
    after: SubRunView<'a, S>,
)
    requires
        before.polled(step, after),
    ensures
        before.phase is Next ==> {
            let calls = after.merge.calls();
            &&& calls.len() == before.merge.calls().len() + 1
            &&& calls.drop_last() == before.merge.calls()
            &&& after.phase is Closing <==> calls.last() == MergeCall::<S::Msg, S::Err>::Next(
                Poll::Ready(None),
            )
            &&& after.phase is Requesting <==> is_item(calls.last())
            &&& after.phase is Next <==> is_loss(calls.last()) || calls.last() == MergeCall::<
                S::Msg,
                S::Err,
            >::Next(Poll::Pending)
            &&& step is Pending <==> calls.last() == MergeCall::<S::Msg, S::Err>::Next(
                Poll::Pending,
            )
        },
        before.phase matches SubPhase::Requesting(request) ==> {
            &&& after.merge == before.merge
            &&& after.phase is Requesting || after.phase is Next || after.phase is Closing
            &&& after.phase is Requesting <==> step is Pending
            &&& after.phase matches SubPhase::Requesting(later) ==> request.polled(
                Poll::Pending,
                later,
            )
            &&& after.phase is Next ==> exists|later: Request<'a, S::Msg, ()>| #[trigger]
                request.polled(Poll::Ready(Ok(())), later)
            &&& after.phase is Closing ==> exists|later: Request<'a, S::Msg, ()>| #[trigger]
                request.polled(Poll::Ready(Err(Error)), later)
        },
        before.phase is Closing ==> {
            let calls = after.merge.calls();
            &&& calls.len() == before.merge.calls().len() + 1
            &&& calls.drop_last() == before.merge.calls()
            &&& calls.last() is Close
            &&& after.phase is Draining || after.phase is Closing
            &&& after.phase is Draining <==> calls.last() == MergeCall::<S::Msg, S::Err>::Close(
                Poll::Ready(()),
            )
            &&& step is Pending <==> after.phase is Closing
        },
        before.phase is Draining ==> {
            let calls = after.merge.calls();
            &&& calls.len() == before.merge.calls().len() + 1
            &&& calls.drop_last() == before.merge.calls()
            &&& calls.last() is Next
            &&& after.phase is Draining || after.phase is Finished
            &&& after.phase is Draining <==> is_loss(calls.last())
        },
        before.phase is Finished ==> after == before,
        step is Ready <==> after.phase is Finished,
        step is Pending ==> !(before.phase is Draining),
{
    let known = before.merge.calls();
    assert forall|call: MergeCall<S::Msg, S::Err>| #[trigger] known.push(call).drop_last() == known by {
        assert(known.push(call).drop_last() =~= known);
    }
    match before.phase {
        SubPhase::Requesting(request) => {
            let (answer, asked) = choose|
                answer: Poll<Result<(), Error>>,
                asked: Request<'a, S::Msg, ()>,
            | #[trigger]
                request.polled(answer, asked) && match answer {
                    Poll::Pending => {
                        &&& after == SubRunView { phase: SubPhase::Requesting(asked), ..before }
                        &&& step is Pending
                    },
                    Poll::Ready(Ok(())) => {
                        &&& after == SubRunView { phase: SubPhase::Next, ..before }
                        &&& step is Again
                    },
                    Poll::Ready(Err(_)) => {
                        &&& after == SubRunView { phase: SubPhase::Closing, ..before }
                        &&& step is Again
                    },
                };
            match answer {
                Poll::Ready(Ok(nothing)) => {
                    assert(nothing == ());
                },
                Poll::Ready(Err(error)) => {
                    assert(error == Error);
                },
                Poll::Pending => {},
            }
        },
        SubPhase::Closing => {
            match after.merge.calls().last() {
                MergeCall::Close(Poll::Ready(nothing)) => {
                    assert(nothing == ());
                },
                _ => {},
            }
        },
        _ => {},
    }
}

/// The streams have said that nothing will come any more.
pub open spec fn said_over<M, E>(calls: Seq<MergeCall<M, E>>) -> bool {
    exists|i: int|
        0 <= i < calls.len() && #[trigger] calls[i] == MergeCall::<M, E>::Next(Poll::Ready(None))
}

/// A request with this message and promise has failed.
pub open spec fn refused<'a, M, T>(item: (M, QPromise<T>)) -> bool {
    exists|request: Request<'a, M, T>, later: Request<'a, M, T>| #[trigger]
        request.polled(Poll::Ready(Err(Error)), later) && request.item() == item
}

impl<'a, S: PatternStream> SubRunView<'a, S> {
    /// There is a cause to end: the streams have said that nothing will come any more, or the last
    /// message that was handed on was not done with.
    pub open spec fn has_cause(self) -> bool {
        ||| said_over(self.merge.calls())
        ||| self.asked.len() > 0 && refused::<S::Msg, ()>(self.asked.last())
    }
}

/// **A machine that does not receive any more has a cause.** Unless the streams have said that
/// nothing will come any more, or a message that was handed on was not done with, receiving goes
/// on, whichever streams are gone.
pub proof fn sub_always_has_cause<'a, S: PatternStream>(history: Seq<SubRunView<'a, S>>, n: int)
    requires
        0 <= n < history.len(),
        history[0].begins(),
        forall|i: int| 0 <= i < history.len() - 1 ==> #[trigger] sub_laws::moves_on(history, i),
    ensures
        history[n].phase is Next || history[n].phase is Requesting || history[n].has_cause(),
    decreases n,
{
    if n > 0 {
        let before = history[n - 1];
        let after = history[n];
        sub_always_has_cause(history, n - 1);
        sub_laws::sub_always(history, n - 1);
        assert(sub_laws::moves_on(history, n - 1));
        let step = choose|step: Step<()>| #[trigger] before.polled(step, after);
        sub_ends_for_cause(before, step, after);
        sub_laws::sub_step(before, step, after);
        let calls = after.merge.calls();
        if before.phase is Next && after.phase is Closing {
            assert(calls[calls.len() - 1] == MergeCall::<S::Msg, S::Err>::Next(Poll::Ready(None)));
        } else if said_over(before.merge.calls()) {
            let i = choose|i: int|
                0 <= i < before.merge.calls().len() && #[trigger] before.merge.calls()[i]
                    == MergeCall::<S::Msg, S::Err>::Next(Poll::Ready(None));
            assert(calls[i] == before.merge.calls()[i]);
        } else if before.phase is Requesting && after.phase is Closing {
            assert(before.asked.last() == before.phase->Requesting_0.item());
            assert(refused::<S::Msg, ()>(after.asked.last()));
        }
    }
}

impl<S: PatternStream> RepView<S> {
    /// There are no streams, and when it was last asked whether any can come, the answer was no.
    pub open spec fn out_of_streams(self) -> bool {
        &&& self.members.len() == 0
        &&& self.ready.receipts().len() > 0
        &&& self.ready.receipts().last() == Receipt::<S>::Closed(true)
    }
}

/// **Replying is over only for want of streams.** A round says that no request will come exactly if
/// there are no streams, and it was just said that none can come.
pub proof fn round_ends_for_cause<S: PatternStream>(
    before: RepView<S>,
    round: Round<S>,
    step: Step<Option<(Peer<S>, S::Msg)>>,
    after: RepView<S>,
)
    requires
        before.polled(round, step, after),
    ensures
        step == Step::<Option<(Peer<S>, S::Msg)>>::Ready(None) <==> after.out_of_streams(),
{
    assert(after.ready.receipts().last() == round.receipts().last());
}

/// **Who wants to join does, at the end of the line.** A round says that there is more to do at
/// once exactly if a stream has just come. It is the last in line, nothing was asked of it or of
/// the others, and nothing is reported.
pub proof fn who_comes_to_reply_joins<S: PatternStream>(
    before: RepView<S>,
    round: Round<S>,
    step: Step<Option<(Peer<S>, S::Msg)>>,
    after: RepView<S>,
)
    requires
        before.polled(round, step, after),
    ensures
        step is Again <==> after.ready.receipts().last() matches Receipt::Polled(
            Poll::Ready(Some(_)),
        ),
        after.ready.receipts().last() matches Receipt::Polled(Poll::Ready(Some(stream))) ==> {
            &&& after.members.len() == before.members.len() + 1
            &&& after.members.drop_last() == before.members
            &&& after.members.last().origin() == stream
            &&& after.members.last().calls().len() == 0
            &&& after.done.handed() == before.done.handed()
        },
{
    assert(after.ready.receipts().last() == round.receipts().last());
    if round.joined.len() > 0 {
        assert(after.members.drop_last() =~= before.members);
        assert(endings(round.visits) =~= Seq::empty());
        assert(after.done.handed() =~= before.done.handed());
    }
}

impl<'a, S: PatternStream> RepRunView<'a, S> {
    /// No more requests will be taken.
    pub open spec fn is_over(self) -> bool {
        self.phase is Closing || self.phase is Finished
    }
}

/// **Replying ends only for cause.** While it waits for a request, it turns to closing exactly if
/// there are no streams, and it was just said that none can come. It does not end while a request
/// is at work, or a stream is reported. A request is waited for until its reply has come, or none
/// can come; only then its stream is refused.
pub proof fn rep_ends_for_cause<'a, S: PatternStream>(
    before: RepRunView<'a, S>,
    step: Step<()>,
    after: RepRunView<'a, S>,
)
    requires
        before.polled(step, after),
    ensures
        before.phase is Next ==> {
            &&& after.phase is Next || after.phase is Requesting || after.phase is Closing
            &&& after.phase is Closing <==> after.rep.out_of_streams()
            &&& after.closing == before.closing
            &&& step is Pending ==> after.phase is Next
            &&& step is Again && after.phase is Next
                ==> after.rep.ready.receipts().last() matches Receipt::Polled(
                Poll::Ready(Some(_)),
            )
        },
        !(before.phase is Next || before.is_over()) ==> !after.is_over() && after.rep.ready
            == before.rep.ready,
        before.phase matches RepPhase::Requesting(peer, request) ==> {
            &&& after.phase is Requesting || after.phase is Readying || after.phase is Refusing
            &&& after.phase is Requesting <==> step is Pending
            &&& after.phase matches RepPhase::Requesting(same, later) ==> same == peer
                && request.polled(Poll::Pending, later)
            &&& after.phase matches RepPhase::Readying(same, reply) ==> same == peer
                && rep_laws::gave(request, reply)
            &&& after.phase matches RepPhase::Refusing(held) ==> held.peer() == peer && exists|
                later: Request<'a, S::Msg, S::Msg>,
            | #[trigger]
                request.polled(Poll::Ready(Err(Error)), later)
        },
        before.phase matches RepPhase::Reporting(delivery) ==> {
            &&& after.rep == before.rep
            &&& after.phase is Reporting || after.phase is Next
            &&& after.phase is Reporting <==> step is Pending
            &&& after.phase matches RepPhase::Reporting(later) ==> delivery.asked(
                Poll::Pending,
                later,
            )
            &&& after.phase is Next ==> exists|
                sent: Result<(), Refused>,
                later: Delivery<'a, Done<S>>,
            | #[trigger]
                delivery.asked(Poll::Ready(sent), later)
        },
        before.phase is Closing && before.closing.len() == 0 ==> after.phase is Finished,
        before.phase is Finished ==> after == before,
        step is Ready <==> after.phase is Finished,
{
    match before.phase {
        RepPhase::Next => {
            let (round, next, rep) = choose|
                round: Round<S>,
                next: Step<Option<(Peer<S>, S::Msg)>>,
                rep: RepView<S>,
            | #[trigger]
                before.rep.polled(round, next, rep) && match next {
                    Step::Again => after == (RepRunView { rep, ..before }) && step is Again,
                    Step::Pending => after == (RepRunView { rep, ..before }) && step is Pending,
                    Step::Ready(Some((peer, msg))) => {
                        &&& before.asks(rep, peer, msg, after)
                        &&& step is Again
                    },
                    Step::Ready(None) => {
                        &&& after == RepRunView {
                            rep: RepView { members: Seq::empty(), ..rep },
                            phase: RepPhase::Closing,
                            closing: before.closing + rep.members,
                            ..before
                        }
                        &&& step is Again
                    },
                };
            round_ends_for_cause(before.rep, round, next, rep);
            who_comes_to_reply_joins(before.rep, round, next, rep);
            if next matches Step::Ready(None) {
                assert(before.closing + rep.members =~= before.closing);
            }
        },
        RepPhase::Requesting(peer, request) => {
            let (answer, asked) = choose|
                answer: Poll<Result<S::Msg, Error>>,
                asked: Request<'a, S::Msg, S::Msg>,
            | #[trigger]
                request.polled(answer, asked) && match answer {
                    Poll::Pending => {
                        &&& after == RepRunView {
                            phase: RepPhase::Requesting(peer, asked),
                            ..before
                        }
                        &&& step is Pending
                    },
                    Poll::Ready(Ok(reply)) => {
                        &&& after == RepRunView { phase: RepPhase::Readying(peer, reply), ..before }
                        &&& step is Again
                    },
                    Poll::Ready(Err(_)) => {
                        &&& after == RepRunView { phase: after.phase, ..before }
                        &&& after.phase matches RepPhase::Refusing(closing) && closing.peer()
                            == peer
                        &&& step is Again
                    },
                };
            match answer {
                Poll::Ready(Err(error)) => {
                    assert(error == Error);
                },
                _ => {},
            }
        },
        RepPhase::Reporting(delivery) => {
            let (sent, later) = choose|
                sent: Poll<Result<(), Refused>>,
                later: Delivery<'a, Done<S>>,
            | #[trigger]
                delivery.asked(sent, later) && match sent {
                    Poll::Pending => {
                        &&& after == RepRunView { phase: RepPhase::Reporting(later), ..before }
                        &&& step is Pending
                    },
                    Poll::Ready(_) => {
                        &&& after == RepRunView { phase: RepPhase::Next, ..before }
                        &&& step is Again
                    },
                };
            match sent {
                Poll::Ready(how) => {
                    assert(delivery.asked(Poll::Ready(how), later));
                },
                Poll::Pending => {},
            }
        },
        _ => {},
    }
}

/// **A machine that does not reply any more has a cause.** Unless it was said that no more streams
/// can come, replying goes on, whichever streams are gone.
pub proof fn rep_always_has_cause<'a, S: PatternStream>(history: Seq<RepRunView<'a, S>>, n: int)
    requires
        0 <= n < history.len(),
        history[0].begins(),
        forall|i: int| 0 <= i < history.len() - 1 ==> #[trigger] rep_laws::moves_on(history, i),
    ensures
        history[n].is_over() ==> said_closed(history[n].rep.ready.receipts())
            && history[n].rep.members.len() == 0 && history[n].closing.len() == 0,
    decreases n,
{
    rep_laws::rep_always(history, n);
    if n > 0 {
        let before = history[n - 1];
        let after = history[n];
        rep_always_has_cause(history, n - 1);
        assert(rep_laws::moves_on(history, n - 1));
        let step = choose|step: Step<()>| #[trigger] before.polled(step, after);
        rep_ends_for_cause(before, step, after);
        let receipts = after.rep.ready.receipts();
        if before.is_over() {
            assert(after.rep.ready == before.rep.ready);
        } else if after.is_over() {
            assert(receipts[receipts.len() - 1] == Receipt::<S>::Closed(true));
        }
    }
}

} // verus!
