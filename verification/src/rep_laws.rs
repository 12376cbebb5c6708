//! What holds of replying, whatever the streams answer.
use crate::calls::{
    all_good, all_will_wake, arrivals, arrivals_concat, call_is_proper, fresh_is_good, good,
    inbox_watched, inbox_will_wake, look_is_watched, settled, will_wake,
};
use crate::chain_laws::arrivals_of_round;
use crate::channel::Receipt;
use crate::close_laws::closing_keeps_count;
use crate::owned_close::closed_round;
use crate::promise::{paired, reply_comes_through_its_promise, Request};
use crate::push_stream::{endings, Round, Visit};
use crate::rep_impl::{brought, quiet, Phase, RepRunView, RepView};
use crate::stream::{Call, PatternStream, Peer};
use crate::task::Step;
use core::task::Poll;
use vstd::prelude::*;

verus! {

/// The last message that has come from the stream.
pub open spec fn question<M, E>(calls: Seq<Call<M, E>>) -> Option<M>
    decreases calls.len(),
{
    if calls.len() == 0 {
        None
    } else {
        match calls.last() {
            Call::Next(Poll::Ready(Some(Ok(msg)))) => Some(msg),
            _ => question(calls.drop_last()),
        }
    }
}

/// The last message that the stream has taken, since the last one came from it.
pub open spec fn reply<M, E>(calls: Seq<Call<M, E>>) -> Option<M>
    decreases calls.len(),
{
    if calls.len() == 0 {
        None
    } else {
        match calls.last() {
            Call::Next(Poll::Ready(Some(Ok(_)))) => None,
            Call::Send(msg, Ok(())) => Some(msg),
            _ => reply(calls.drop_last()),
        }
    }
}

/// This is a reply that may have come of polling the request.
pub open spec fn gave<'a, M>(request: Request<'a, M, M>, value: M) -> bool {
    exists|asked: Request<'a, M, M>| #[trigger] request.polled(Poll::Ready(Ok(value)), asked)
}

impl<S: PatternStream> RepView<S> {
    /// How many streams have joined that are not here any more and were not reported here.
    pub open spec fn abroad(self) -> int {
        arrivals(self.ready.receipts()) - self.members.len() - self.done.handed().len()
    }
}

/// Those that had nothing stay, and each of the others is reported or has brought a request.
proof fn quiet_law<S: PatternStream>(line: Seq<Peer<S>>, visits: Seq<Visit<S>>)
    requires
        all_good(line),
        visits.len() <= line.len(),
        forall|i: int|
            0 <= i < visits.len() ==> line[i].called(
                Call::Next((#[trigger] visits[i]).answer),
                visits[i].after,
            ),
        forall|i: int| 0 <= i < visits.len() ==> brought(#[trigger] visits[i]) is None,
    ensures
        all_good(quiet(visits)),
        quiet(visits).len() + endings(visits).len() == visits.len(),
    decreases visits.len(),
{
    if visits.len() > 0 {
        let less = visits.drop_last();
        let n = visits.len() - 1;
        quiet_law(line, less);
        call_is_proper(line[n], Call::Next(visits[n].answer), visits[n].after);
    }
}

/// **Nobody gets lost.** Each stream that has joined is here or was reported, or leaves with a
/// request. The request is the last thing that came from it.
pub proof fn round_keeps_streams<S: PatternStream>(
    before: RepView<S>,
    round: Round<S>,
    step: Step<Option<(Peer<S>, S::Msg)>>,
    after: RepView<S>,
)
    requires
        all_good(before.members),
        before.polled(round, step, after),
    ensures
        all_good(after.members),
        after.abroad() == before.abroad() + if step matches Step::Ready(Some(_)) {
            1int
        } else {
            0
        },
        step matches Step::Ready(Some((peer, msg))) ==> {
            &&& good(peer)
            &&& question(peer.calls()) == Some(msg)
            &&& reply(peer.calls()) is None
        },
        step matches Step::Ready(None) ==> after.members.len() == 0,
{
    let line = before.members + round.joined;
    let visits = round.visits;
    let n = visits.len() as int;
    arrivals_concat(before.ready.receipts(), round.receipts());
    arrivals_of_round(round);
    assert forall|i: int| 0 <= i < line.len() implies good(#[trigger] line[i]) by {
        if i >= before.members.len() {
            fresh_is_good(line[i]);
        }
    }
    match step {
        Step::Ready(Some((peer, msg))) => {
            let less = visits.drop_last();
            quiet_law(line, less);
            call_is_proper(line[n - 1], Call::Next(visits[n - 1].answer), peer);
        },
        _ => {
            quiet_law(line, visits);
        },
    }
}

/// Those that had nothing were asked, and are pending.
proof fn quiet_will_wake<S: PatternStream>(line: Seq<Peer<S>>, visits: Seq<Visit<S>>)
    requires
        visits.len() <= line.len(),
        forall|i: int|
            0 <= i < visits.len() ==> line[i].called(
                Call::Next((#[trigger] visits[i]).answer),
                visits[i].after,
            ),
    ensures
        forall|j: int|
            0 <= j < quiet(visits).len() ==> will_wake((#[trigger] quiet(visits)[j]).calls()),
    decreases visits.len(),
{
    if visits.len() > 0 {
        let less = visits.drop_last();
        quiet_will_wake(line, less);
        assert forall|j: int| 0 <= j < quiet(visits).len() implies will_wake(
            (#[trigger] quiet(visits)[j]).calls(),
        ) by {
            if j < quiet(less).len() {
                assert(quiet(visits)[j] == quiet(less)[j]);
            }
        }
    }
}

/// **No wake-up is missed.** When nothing can be done now, each stream was just asked and will wake
/// the task, and so will the place that new streams come from, unless it is at its end.
pub proof fn pending_will_wake<S: PatternStream>(
    before: RepView<S>,
    round: Round<S>,
    after: RepView<S>,
)
    requires
        before.polled(round, Step::Pending, after),
    ensures
        all_will_wake(after.members),
        inbox_watched(after.ready.receipts()),
{
    look_is_watched(before.ready.receipts(), round.arrival, round.closed);
    quiet_will_wake(before.members + round.joined, round.visits);
}

impl<'a, S: PatternStream> RepRunView<'a, S> {
    /// The stream in hand.
    pub open spec fn held(self) -> Option<Peer<S>> {
        match self.phase {
            Phase::Requesting(peer, _) => Some(peer),
            Phase::Refusing(held) => Some(held.peer()),
            Phase::Readying(peer, _) => Some(peer),
            Phase::Flushing(peer) => Some(peer),
            Phase::Next | Phase::Reporting(_) | Phase::Closing | Phase::Finished => None,
        }
    }

    /// The streams were used as they should be. What is asked is what came last from the stream in
    /// hand, which has not taken a reply before there is one. Nothing is left at the end.
    pub open spec fn sound(self) -> bool {
        &&& all_good(self.rep.members)
        &&& self.held() matches Some(peer) ==> good(peer)
        &&& self.closing.len() == 0
        &&& match self.phase {
            Phase::Requesting(peer, request) => {
                &&& question(peer.calls()) == Some(request.item().0)
                &&& reply(peer.calls()) is None
                &&& request.sender() == self.request_s
                &&& paired(request.item().1, request.future())
                &&& self.asked.len() > 0
                &&& self.asked.last() == request.item()
            },
            Phase::Readying(peer, _) => {
                &&& question(peer.calls()) is Some
                &&& reply(peer.calls()) is None
            },
            Phase::Flushing(peer) => {
                &&& question(peer.calls()) is Some
                &&& reply(peer.calls()) is Some
            },
            Phase::Closing | Phase::Finished => self.rep.members.len() == 0,
            _ => true,
        }
    }

    /// How many streams have joined that are not here any more and were not reported.
    pub open spec fn missing(self) -> int {
        self.rep.abroad() - self.reported.len() - if self.held() is Some {
            1int
        } else {
            0
        }
    }

    /// The stream in hand is still in hand, with the same request, and the others are left alone.
    pub open spec fn stays_with(self, peer: Peer<S>, after: Self) -> bool {
        &&& after.rep == self.rep
        &&& after.reported == self.reported
        &&& after.held() matches Some(later) && {
            &&& later.origin() == peer.origin()
            &&& question(later.calls()) == question(peer.calls())
        }
    }

    /// The stream that was in hand has sent the reply to its request, and is the last in line.
    pub open spec fn replied_to(self, peer: Peer<S>, after: Self) -> bool {
        &&& after.phase is Next
        &&& after.reported == self.reported
        &&& after.rep.members.len() == self.rep.members.len() + 1
        &&& after.rep.members.drop_last() == self.rep.members
        &&& after.rep.members.last().origin() == peer.origin()
        &&& question(after.rep.members.last().calls()) == question(peer.calls())
        &&& reply(after.rep.members.last().calls()) == reply(peer.calls())
        &&& reply(peer.calls()) is Some
        &&& settled(after.rep.members.last().calls())
    }

    /// The stream that was in hand is reported.
    pub open spec fn let_go(self, after: Self) -> bool {
        &&& after.phase is Reporting
        &&& after.rep == self.rep
        &&& after.reported.len() == self.reported.len() + 1
        &&& after.reported.drop_last() == self.reported
    }
}

impl<'a, S: PatternStream> RepRunView<'a, S> {
    /// The machine was just made.
    pub open spec fn begins(self) -> bool {
        &&& self.rep.members.len() == 0
        &&& self.rep.ready.receipts().len() == 0
        &&& self.rep.done.handed().len() == 0
        &&& self.phase is Next
        &&& self.closing.len() == 0
        &&& self.reported.len() == 0
        &&& self.asked.len() == 0
    }

    /// `after` is what may come of one poll.
    pub open spec fn leads_to(self, after: Self) -> bool {
        exists|step: Step<()>| #[trigger] self.polled(step, after)
    }
}

/// A machine that was just made is in order.
pub proof fn rep_starts_sound<'a, S: PatternStream>(run: RepRunView<'a, S>)
    requires
        run.begins(),
    ensures
        run.sound(),
        run.missing() == 0,
{
}

/// **A reply goes to the stream that asked.** The machine stays in order. The stream that a request
/// came from is in hand until it has sent the reply, and goes to the end of the line then; or it is
/// reported. Its request is asked once, and the reply that it is given is the one that came for
/// that. No other request is taken meanwhile. Each stream that has joined is here or was reported;
/// by the end all were.
pub proof fn rep_step<'a, S: PatternStream>(
    before: RepRunView<'a, S>,
    step: Step<()>,
    after: RepRunView<'a, S>,
)
    requires
        before.sound(),
        before.polled(step, after),
    ensures
        after.sound(),
        after.missing() == before.missing(),
        match before.held() {
            Some(peer) => before.stays_with(peer, after) || before.replied_to(peer, after)
                || before.let_go(after),
            None => after.reported == before.reported,
        },
        match (before.phase, after.phase) {
            (Phase::Next, Phase::Requesting(peer, request)) => {
                &&& after.asked == before.asked.push(request.item())
                &&& question(peer.calls()) == Some(request.item().0)
            },
            _ => after.asked == before.asked,
        },
        match (before.phase, after.phase) {
            (Phase::Requesting(_, request), Phase::Requesting(_, later)) => later.item()
                == request.item(),
            (Phase::Requesting(_, request), Phase::Readying(_, answer)) => gave(request, answer),
            (Phase::Readying(_, answer), Phase::Readying(_, later)) => later == answer,
            (Phase::Readying(_, answer), Phase::Flushing(peer)) => reply(peer.calls()) == Some(
                answer,
            ),
            (Phase::Flushing(peer), Phase::Flushing(later)) => reply(later.calls()) == reply(
                peer.calls(),
            ),
            _ => true,
        },
        step is Ready <==> after.phase is Finished,
        after.phase is Finished && after.missing() == 0 ==> after.rep.done.handed().len()
            + after.reported.len() == arrivals(after.rep.ready.receipts()),
{
    match before.phase {
        Phase::Next => {
            let (round, next, rep) = choose|
                round: Round<S>,
                next: Step<Option<(Peer<S>, S::Msg)>>,
                rep: RepView<S>,
            | #[trigger]
                before.rep.polled(round, next, rep) && match next {
                    Step::Again => after == (RepRunView { rep, ..before }) && step is Again,
                    Step::Pending => after == (RepRunView { rep, ..before }) && step is Pending,
                    Step::Ready(Some((peer, msg))) => {
                        &&& before.asks(rep, peer, msg, after)
                        &&& step is Again
                    },
                    Step::Ready(None) => {
                        &&& after == RepRunView {
                            rep: RepView { members: Seq::empty(), ..rep },
                            phase: Phase::Closing,
                            closing: before.closing + rep.members,
                            ..before
                        }
                        &&& step is Again
                    },
                };
            round_keeps_streams(before.rep, round, next, rep);
        },
        Phase::Requesting(peer, request) => {
        },
        Phase::Refusing(held) => {
            let (closed, asked) = choose|closed: Poll<Result<(), S::Err>>, asked: Peer<S>| #[trigger]
                held.peer().called(Call::Close(closed), asked) && match closed {
                    Poll::Pending => {
                        &&& after == RepRunView { phase: after.phase, ..before }
                        &&& after.phase matches Phase::Refusing(closing) && closing.peer() == asked
                        &&& step is Pending
                    },
                    Poll::Ready(closed) => before.reports(closed.err(), after) && step is Again,
                };
            call_is_proper(held.peer(), Call::Close(closed), asked);
            assert(after.reported.drop_last() =~= before.reported || after.reported == before.reported);
        },
        Phase::Readying(peer, answer) => {
            let (ready, asked) = choose|ready: Poll<Result<(), S::Err>>, asked: Peer<S>| #[trigger]
                peer.called(Call::Ready(ready), asked) && match ready {
                    Poll::Pending => {
                        &&& after == RepRunView { phase: Phase::Readying(asked, answer), ..before }
                        &&& step is Pending
                    },
                    Poll::Ready(Err(error)) => before.reports(Some(error), after) && step is Again,
                    Poll::Ready(Ok(())) => before.handed_over(asked, answer, step, after),
                };
            call_is_proper(peer, Call::Ready(ready), asked);
            if ready matches Poll::Ready(Ok(_)) {
                let (sent, given) = choose|sent: Result<(), S::Err>, given: Peer<S>| #[trigger]
                    asked.called(Call::Send(answer, sent), given) && step is Again && match sent {
                        Ok(()) => after == (RepRunView { phase: Phase::Flushing(given), ..before }),
                        Err(error) => before.reports(Some(error), after),
                    };
                call_is_proper(asked, Call::Send(answer, sent), given);
                assert(question(given.calls()) == question(asked.calls()));
            }
            assert(after.reported.drop_last() =~= before.reported || after.reported == before.reported);
        },
        Phase::Flushing(peer) => {
            let (flushed, asked) = choose|flushed: Poll<Result<(), S::Err>>, asked: Peer<S>| #[trigger]
                peer.called(Call::Flush(flushed), asked) && match flushed {
                    Poll::Pending => {
                        &&& after == RepRunView { phase: Phase::Flushing(asked), ..before }
                        &&& step is Pending
                    },
                    Poll::Ready(Err(error)) => before.reports(Some(error), after) && step is Again,
                    Poll::Ready(Ok(())) => {
                        &&& after == RepRunView {
                            rep: RepView { members: before.rep.members.push(asked), ..before.rep },
                            phase: Phase::Next,
                            ..before
                        }
                        &&& step is Again
                    },
                };
            call_is_proper(peer, Call::Flush(flushed), asked);
            if flushed matches Poll::Ready(Ok(_)) {
                assert(after.rep.members.drop_last() =~= before.rep.members);
            }
            assert(after.reported.drop_last() =~= before.reported || after.reported == before.reported);
        },
        Phase::Reporting(_) => {},
        Phase::Closing => {
            let (asked, answer) = choose|
                asked: Seq<Peer<S>>,
                answer: Poll<Option<Result<(), S::Err>>>,
            | #[trigger]
                closed_round(before.closing, asked, answer, after.closing) && match answer {
                    Poll::Ready(Some(_)) => {
                        &&& after == RepRunView { closing: after.closing, ..before }
                        &&& step is Again
                    },
                    Poll::Ready(None) => {
                        &&& after == RepRunView {
                            closing: after.closing,
                            phase: Phase::Finished,
                            ..before
                        }
                        &&& step is Ready
                    },
                    Poll::Pending => {
                        &&& after == RepRunView { closing: after.closing, ..before }
                        &&& step is Pending
                    },
                };
            closing_keeps_count(before.closing, asked, answer, after.closing);
        },
        Phase::Finished => {},
    }
}

/// **The reply is what the promise of the request was resolved with.** What a stream is given as
/// the reply came out of the channel whose other end went out with its request.
pub proof fn reply_is_from_its_promise<'a, S: PatternStream>(
    run: RepRunView<'a, S>,
    peer: Peer<S>,
    request: Request<'a, S::Msg, S::Msg>,
    answer: S::Msg,
)
    requires
        run.sound(),
        run.phase == Phase::<'a, S>::Requesting(peer, request),
        gave(request, answer),
    ensures
        run.asked.last() == request.item(),
        exists|later: Request<'a, S::Msg, S::Msg>| #[trigger]
            request.polled(Poll::Ready(Ok(answer)), later) && paired(
                run.asked.last().1,
                later.future(),
            ) && request.future().inbox().asked(
                Receipt::Polled(Poll::Ready(Some(answer))),
                later.future().inbox(),
            ),
{
    let later = choose|later: Request<'a, S::Msg, S::Msg>| #[trigger]
        request.polled(Poll::Ready(Ok(answer)), later);
    reply_comes_through_its_promise(request, Poll::Ready(Ok(answer)), later);
}

/// The next of these may come of one poll.
pub open spec fn moves_on<'a, S: PatternStream>(history: Seq<RepRunView<'a, S>>, i: int) -> bool {
    history[i].leads_to(history[i + 1])
}

/// **All this holds at all times.** However often a machine is polled after it was made, and whatever
/// the streams and channels answer, it is in order, and no stream is missing: by the end, as many were
/// reported as have ever joined.
pub proof fn rep_always<'a, S: PatternStream>(history: Seq<RepRunView<'a, S>>, n: int)
    requires
        0 <= n < history.len(),
        history[0].begins(),
        forall|i: int| 0 <= i < history.len() - 1 ==> #[trigger] moves_on(history, i),
    ensures
        history[n].sound(),
        history[n].missing() == 0,
        history[n].phase is Finished ==> history[n].rep.done.handed().len()
            + history[n].reported.len() == arrivals(history[n].rep.ready.receipts()),
    decreases n,
{
    if n == 0 {
        rep_starts_sound(history[0]);
    } else {
        rep_always(history, n - 1);
        assert(moves_on(history, n - 1));
        let step = choose|step: Step<()>| #[trigger] history[n - 1].polled(step, history[n]);
        rep_step(history[n - 1], step, history[n]);
    }
}

impl<'a, S: PatternStream> RepRunView<'a, S> {
    /// What it waits for will wake the task.
    pub open spec fn will_wake(self) -> bool {
        match self.phase {
            Phase::Next => all_will_wake(self.rep.members) && inbox_watched(
                self.rep.ready.receipts(),
            ),
            Phase::Requesting(_, request) => if request.delivery().is_over() {
                inbox_will_wake(request.future().inbox().receipts())
            } else {
                request.delivery().answers().len() > 0
                    && request.delivery().answers().last() is Pending
            },
            Phase::Refusing(held) => will_wake(held.peer().calls()),
            Phase::Readying(peer, _) => will_wake(peer.calls()),
            Phase::Flushing(peer) => will_wake(peer.calls()),
            Phase::Reporting(delivery) => delivery.answers().len() > 0
                && delivery.answers().last() is Pending,
            Phase::Closing | Phase::Finished => false,
        }
    }
}

/// **No wake-up is missed.** When nothing can be done now, what is waited for was just asked and will
/// wake the task.
pub proof fn rep_will_wake<'a, S: PatternStream>(
    before: RepRunView<'a, S>,
    step: Step<()>,
    after: RepRunView<'a, S>,
)
    requires
        before.sound(),
        before.polled(step, after),
        step is Pending,
    ensures
        after.will_wake(),
{
    match before.phase {
        Phase::Next => {
            let (round, rep) = choose|round: Round<S>, rep: RepView<S>| #[trigger]
                before.rep.polled(round, Step::Pending, rep) && after == (RepRunView {
                    rep,
                    ..before
                });
            pending_will_wake(before.rep, round, rep);
        },
        Phase::Requesting(peer, request) => {
        },
        Phase::Closing => {
        },
        _ => {},
    }
}

} // verus!
