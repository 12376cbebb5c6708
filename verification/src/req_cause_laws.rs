//! When requesting ends, and what it waits for until then.
use crate::calls::will_wake;
use crate::chain_laws::no_stream_without_the_turn;
use crate::channel::Receipt;
use crate::line_laws::{a_free_turn_is_taken, some_has_more};
use crate::promise::{plain, Owed, QPromise};
use crate::pub_laws::said_closed;
use crate::push_stream::{Chain, Key, Round};
use crate::req_impl::{Phase, PrePoll, ReqRunView, ReqView, State, StatePoll};
use crate::req_laws::{
    moves_on, msg_polled_law, req_always, request_stays_or_ends, stream_polled_law,
};
use crate::stream::{Done, PatternStream, Peer};
use crate::task::Step;
use core::task::Poll;
use vstd::prelude::*;

verus! {

impl<S: PatternStream> State<S> {
    /// How far the request in hand has come.
    pub open spec fn rank(self) -> int {
        match self {
            State::Pending | State::Stream(_, _) => 0,
            State::Msg(_, _) => 1,
            State::Readying(_, _, _, _) => 2,
            State::Sending(_, _, _, _) => 3,
            State::Receiving(_, _, _, _) => 4,
        }
    }
}

impl<S: PatternStream> ReqView<S> {
    /// A request was asked for, and this came.
    pub open spec fn hears(
        self,
        received: Poll<Option<(S::Msg, QPromise<S::Msg>)>>,
        after: Self,
    ) -> bool {
        self.requests.asked(Receipt::Polled(received), after.requests)
    }

    /// A stream came when one was last asked for.
    pub open spec fn has_comer(self) -> bool {
        &&& self.streams.ready.receipts().len() > 0
        &&& self.streams.ready.receipts().last() matches Receipt::Polled(Poll::Ready(Some(_)))
    }

    /// How far it has come, by the promises that were kept, and with the request in hand.
    pub open spec fn progress(self) -> int {
        5 * self.kept.len() + self.state.rank()
    }

    /// There are no streams in line. It was not just said that none can come.
    pub open spec fn lacks_streams(self) -> bool {
        &&& self.streams.members.len() == 0
        &&& self.streams.ready.receipts().last() != Receipt::<S>::Closed(true)
    }
}

/// What a look at the streams comes to.
proof fn look_for_cause<S: PatternStream>(
    before: ReqView<S>,
    res: Option<PrePoll>,
    after: ReqView<S>,
)
    requires
        before.sound(),
        !(before.streams.turn is Lost),
        before.stream_polled(res, after),
    ensures
        after.requests == before.requests,
        after.kept == before.kept,
        before.state.has_key() ==> after.state == before.state,
        !before.state.has_key() ==> {
            &&& res == Some(PrePoll::Break) <==> after.out_of_streams()
            &&& res == Some(PrePoll::Pending) ==> after.lacks_streams() && after.state
                == before.state
            &&& res == Some(PrePoll::Continue) ==> after.state.held() is Some
            &&& res is None ==> after.state == before.state
        },
        before.state is Stream ==> res is None || res == Some(PrePoll::Pending),
        before.state.is_busy() ==> res is None || res == Some(PrePoll::Continue),
        after.streams.done.handed().len() >= before.streams.done.handed().len(),
        res is None ==> after.has_comer() || some_has_more(after.streams.members),
        after.state.rank() >= before.state.rank() || res == Some(PrePoll::Break),
{
    let (round, step) = choose|round: Round<S>, step: Step<Option<(Peer<S>, Key)>>| #[trigger]
        before.streams.polled(round, step, after.streams) && after == (ReqView {
            streams: after.streams,
            state: after.state,
            ..before
        }) && match step {
            Step::Ready(ready) => {
                let next = before.state.on_streams_spec(Poll::Ready(ready));
                after.state == next.0 && res == Some(next.1)
            },
            Step::Pending => {
                let next = before.state.on_streams_spec(Poll::Pending);
                after.state == next.0 && res == Some(next.1)
            },
            Step::Again => after.state == before.state && res is None,
        };
    a_free_turn_is_taken(before.streams, round, step, after.streams);
    if !(before.streams.turn is Free) {
        no_stream_without_the_turn(before.streams, round, step, after.streams);
    }
}

/// What it comes to when the stream that had the request is gone.
proof fn failed_for_cause<S: PatternStream>(
    before: ReqView<S>,
    msg: S::Msg,
    owed: Owed<S::Msg, S::Msg>,
    done: Done<S>,
    res: StatePoll,
    after: ReqView<S>,
)
    requires
        before.sound(),
        before.state.is_busy(),
        before.failed(msg, owed, done, res, after),
    ensures
        res is Pending ==> after.lacks_streams() && after.state is Msg,
        !(res is Break),
        res is Again ==> after.state is Msg,
        after.streams.done.handed().len() > before.streams.done.handed().len(),
{
    let (mid, pre) = choose|mid: Chain<S>, pre: Option<PrePoll>| #[trigger]
        before.streams.gave_back(seq![done], mid) && #[trigger] (ReqView {
            streams: mid,
            state: State::Msg(msg, owed),
            ..before
        }).stream_polled(pre, after) && res == match pre {
            Some(PrePoll::Continue) => StatePoll::Continue,
            Some(PrePoll::Break) => StatePoll::End,
            Some(PrePoll::Pending) => StatePoll::Pending,
            None => StatePoll::Again,
        };
    let freed = ReqView { streams: mid, state: State::Msg(msg, owed), ..before };
    look_for_cause(freed, pre, after);
}

/// What a look at the state comes to.
proof fn state_for_cause<S: PatternStream>(before: ReqView<S>, res: StatePoll, after: ReqView<S>)
    requires
        before.sound(),
        before.state.is_busy(),
        before.state_polled(res, after),
    ensures
        res is Pending ==> match after.state.held() {
            Some(peer) => will_wake(peer.calls()),
            None => after.lacks_streams() && after.state is Msg,
        },
        res is Break ==> after.streams.members.len() > 0,
        res is Continue || res is Break || res is Again ==> {
            ||| after.streams.done.handed().len() > before.streams.done.handed().len()
            ||| after.progress() > before.progress()
        },
{
    match before.state {
        State::Readying(msg, owed, peer, key) => {
            if exists|done: Done<S>| #[trigger] before.failed(msg, owed, done, res, after) {
                let done = choose|done: Done<S>| #[trigger]
                    before.failed(msg, owed, done, res, after);
                failed_for_cause(before, msg, owed, done, res, after);
            }
        },
        State::Sending(msg, owed, peer, key) => {
            if exists|done: Done<S>| #[trigger] before.failed(msg, owed, done, res, after) {
                let done = choose|done: Done<S>| #[trigger]
                    before.failed(msg, owed, done, res, after);
                failed_for_cause(before, msg, owed, done, res, after);
            }
        },
        State::Receiving(msg, owed, peer, key) => {
            if exists|done: Done<S>| #[trigger] before.failed(msg, owed, done, res, after) {
                let done = choose|done: Done<S>| #[trigger]
                    before.failed(msg, owed, done, res, after);
                failed_for_cause(before, msg, owed, done, res, after);
            }
        },
        _ => {},
    }
}

/// **Requesting ends, and waits, only for cause.** It is over exactly when no more requests come,
/// or when there are no streams, in line or in hand, and it was just said that none can come. Until
/// then nothing can be done at once only for one of these reasons: none is in hand, and it was just
/// asked for one; there is no stream for the one in hand; or the stream that has it has something
/// to do, and will wake the task. Left out is that a request came for a stream that waited in hand.
/// Whenever there is more to do at once, it has got somewhere: a stream has joined, or had a
/// message, or was reported, or it got further with the request in hand.
pub proof fn req_ends_for_cause<S: PatternStream>(
    before: ReqView<S>,
    step: Step<()>,
    after: ReqView<S>,
)
    requires
        before.sound(),
        !(before.streams.turn is Lost),
        before.polled(step, after),
    ensures
        step is Ready <==> before.hears(Poll::Ready(None), after) || after.state.held() is None
            && after.out_of_streams(),
        step is Ready ==> after.state.held() is None,
        step is Again ==> {
            ||| after.has_comer()
            ||| some_has_more(after.streams.members)
            ||| after.streams.done.handed().len() > before.streams.done.handed().len()
            ||| after.progress() > before.progress()
        },
        before.state.job() is Some && !(step is Ready) ==> after.requests == before.requests,
        step is Pending && !(before.state is Stream && after.state is Readying)
            ==> match after.state {
            State::Pending => before.hears(Poll::Pending, after) && after.lacks_streams(),
            State::Stream(_, _) => before.hears(Poll::Pending, after),
            State::Msg(_, _) => after.lacks_streams(),
            State::Readying(_, _, peer, _) => will_wake(peer.calls()),
            State::Sending(_, _, peer, _) => will_wake(peer.calls()),
            State::Receiving(_, _, peer, _) => will_wake(peer.calls()),
        },
{
    let (first, seen) = choose|first: Option<PrePoll>, seen: ReqView<S>| #[trigger]
        before.stream_polled(first, seen) && match first {
            None => after == seen && step is Again,
            Some(first) => exists|second: PrePoll, mid: ReqView<S>| #[trigger]
                seen.msg_polled(second, mid) && if first is Break || second is Break {
                    after == mid && step is Ready
                } else if first is Pending || second is Pending {
                    after == mid && step is Pending
                } else {
                    exists|third: StatePoll| #[trigger]
                        mid.state_polled(third, after) && step == match third {
                            StatePoll::Pending => Step::<()>::Pending,
                            StatePoll::End => Step::Ready(()),
                            StatePoll::Continue | StatePoll::Break | StatePoll::Again =>
                                Step::Again,
                        }
                },
        };
    look_for_cause(before, first, seen);
    stream_polled_law(before, first, seen);
    let known = before.requests.receipts();
    assert forall|receipt: Receipt<(S::Msg, QPromise<S::Msg>)>| #[trigger]
        known.push(receipt).last() == receipt && known.push(receipt).len() == known.len() + 1 by {}
    match first {
        None => {},
        Some(first) => {
            let (second, mid) = choose|second: PrePoll, mid: ReqView<S>| #[trigger]
                seen.msg_polled(second, mid) && if first is Break || second is Break {
                    after == mid && step is Ready
                } else if first is Pending || second is Pending {
                    after == mid && step is Pending
                } else {
                    exists|third: StatePoll| #[trigger]
                        mid.state_polled(third, after) && step == match third {
                            StatePoll::Pending => Step::<()>::Pending,
                            StatePoll::End => Step::Ready(()),
                            StatePoll::Continue | StatePoll::Break | StatePoll::Again =>
                                Step::Again,
                        }
                };
            msg_polled_law(seen, second, mid);
            if seen.state is Pending || seen.state is Stream {
                let received = choose|received: Poll<Option<(S::Msg, Owed<S::Msg, S::Msg>)>>| #[trigger]
                    seen.requests.asked(Receipt::Polled(plain(received)), mid.requests) && (
                    mid.state,
                    second,
                ) == seen.state.on_msg_spec(received);
                assert(mid.requests.receipts().last() == Receipt::Polled(plain(received)));
            }
            if first is Continue && second is Continue {
                let third = choose|third: StatePoll| #[trigger]
                    mid.state_polled(third, after) && step == match third {
                        StatePoll::Pending => Step::<()>::Pending,
                        StatePoll::End => Step::Ready(()),
                        StatePoll::Continue | StatePoll::Break | StatePoll::Again => Step::Again,
                    };
                request_stays_or_ends(mid, third, after);
                state_for_cause(mid, third, after);
            }
        },
    }
}

impl<S: PatternStream> ReqRunView<S> {
    /// There is no stream, in line, in hand or being closed.
    pub open spec fn is_streamless(self) -> bool {
        &&& self.req.streams.members.len() == 0
        &&& self.req.state.held() is None
        &&& self.closing.len() == 0
        &&& !(self.phase is Releasing)
    }

    /// There are no streams, and when it was last asked whether any can come, the answer was no.
    pub open spec fn is_abandoned(self) -> bool {
        &&& self.is_streamless()
        &&& self.req.out_of_streams()
    }
}

/// **A machine that sends requests ends only for cause.** It stops to do so exactly when no more
/// requests come, or there are no streams and none can come. The streams in line are then all
/// closed, in that order. It is done exactly when all of them are.
pub proof fn req_run_ends_for_cause<S: PatternStream>(
    before: ReqRunView<S>,
    step: Step<()>,
    after: ReqRunView<S>,
)
    requires
        before.sound(),
        before.polled(step, after),
    ensures
        before.phase is Running ==> {
            &&& !(after.phase is Running) <==> before.req.hears(Poll::Ready(None), after.req)
                || after.is_abandoned()
            &&& !(after.phase is Running) ==> after.phase is Closing && after.req.state is Pending
                && step is Again
        },
        before.phase is Closing ==> {
            &&& after.phase is Finished <==> before.closing.len() == 0
            &&& !(after.phase is Finished) ==> after.phase is Closing
            &&& step is Pending <==> after.closing.len() == before.closing.len()
                && before.closing.len() > 0
            &&& step is Pending ==> forall|i: int|
                0 <= i < after.closing.len() ==> will_wake((#[trigger] after.closing[i]).calls())
        },
        before.phase is Finished ==> after == before,
        step is Ready <==> after.phase is Finished,
{
    match before.phase {
        Phase::Running => {
            let (ran, req) = choose|ran: Step<()>, req: ReqView<S>| #[trigger]
                before.req.polled(ran, req) && match ran {
                    Step::Ready(()) => match req.state.held() {
                        Some(peer) => {
                            &&& after.req == req.released()
                            &&& after.phase matches Phase::Releasing(closing) && closing.peer()
                                == peer
                            &&& after.closing == before.closing
                            &&& step is Again
                        },
                        None => {
                            &&& after == (ReqRunView { req: req.released(), ..before }).shut()
                            &&& step is Again
                        },
                    },
                    _ => after == (ReqRunView { req, ..before }) && step == ran,
                };
            req_ends_for_cause(before.req, ran, req);
        },
        _ => {},
    }
}

impl<S: PatternStream> ReqRunView<S> {
    /// There is a cause to end: no more requests come, or it was said that no more streams can come.
    pub open spec fn has_cause(self) -> bool {
        ||| said_closed(self.req.streams.ready.receipts())
        ||| exists|i: int|
            0 <= i < self.req.requests.receipts().len() && #[trigger] self.req.requests.receipts()[i]
                == Receipt::<(S::Msg, QPromise<S::Msg>)>::Polled(Poll::Ready(None))
    }
}

/// **A machine that sends no more requests has a cause.** Unless it was said that no more streams
/// can come, or that no more requests do, it goes on, whichever streams are gone.
pub proof fn req_always_has_cause<S: PatternStream>(history: Seq<ReqRunView<S>>, n: int)
    requires
        0 <= n < history.len(),
        history[0].begins(),
        forall|i: int| 0 <= i < history.len() - 1 ==> #[trigger] moves_on(history, i),
    ensures
        history[n].phase is Running || history[n].has_cause(),
    decreases n,
{
    if n > 0 {
        let before = history[n - 1];
        let after = history[n];
        req_always_has_cause(history, n - 1);
        req_always(history, n - 1);
        assert(moves_on(history, n - 1));
        let step = choose|step: Step<()>| #[trigger] before.polled(step, after);
        req_run_ends_for_cause(before, step, after);
        let receipts = after.req.streams.ready.receipts();
        let heard = after.req.requests.receipts();
        if before.phase is Running && !(after.phase is Running) {
            if before.req.hears(Poll::Ready(None), after.req) {
                assert(heard[heard.len() - 1] == Receipt::<(S::Msg, QPromise<S::Msg>)>::Polled(
                    Poll::Ready(None),
                ));
            } else {
                assert(receipts[receipts.len() - 1] == Receipt::<S>::Closed(true));
            }
        } else if !(before.phase is Running) {
            assert(after.req.requests == before.req.requests);
            assert(after.req.streams.ready == before.req.streams.ready);
        }
    }
}

} // verus!
