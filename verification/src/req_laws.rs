//! What holds of requesting, whatever the streams answer.
use crate::calls::{
    all_good, all_will_wake, arrivals, call_is_proper, fulfilled, good, inbox_watched, inbox_will_wake,
    promised, replied, sent, taken, taken_push, took, will_wake,
};
use crate::chain_laws::{
    line_stays_good, look_will_wake, no_stream_without_the_turn, streams_are_accounted_for,
};
use crate::channel::Receipt;
use crate::close_laws::{closing_keeps_count, closing_will_wake};
use crate::owned_close::closed_round;
use crate::promise::{plain, Owed, QPromise};
use crate::push_stream::{Chain, Key, Round};
use crate::req_impl::{Phase, PrePoll, ReqRunView, ReqView, State, StatePoll};
use crate::stream::{Call, Done, PatternStream, Peer};
use crate::task::Step;
use core::task::Poll;
use vstd::prelude::*;

verus! {

impl<S: PatternStream> State<S> {
    /// The request in hand, with its promise.
    pub open spec fn job(self) -> Option<(S::Msg, QPromise<S::Msg>)> {
        match self {
            State::Msg(msg, owed) => Some((msg, owed.promise())),
            State::Readying(msg, owed, _, _) => Some((msg, owed.promise())),
            State::Sending(msg, owed, _, _) => Some((msg, owed.promise())),
            State::Receiving(msg, owed, _, _) => Some((msg, owed.promise())),
            State::Pending | State::Stream(_, _) => None,
        }
    }
}

impl<S: PatternStream> ReqView<S> {
    /// Whoever has a stream in hand has the turn; all streams were used as they should be;
    /// a stream that is sending has taken the request in hand; and one that a reply is waited
    /// for from has sent it, and nothing has come back since.
    pub open spec fn sound(self) -> bool {
        &&& self.state.has_key() <==> self.streams.turn is Held
        &&& all_good(self.streams.members)
        &&& self.state.held() matches Some(peer) ==> good(peer)
        &&& self.state matches State::Sending(msg, _, peer, _) ==> took(peer.calls(), msg)
        &&& self.state matches State::Receiving(msg, _, peer, _) ==> sent(peer.calls(), msg)
    }

    /// How many streams have joined that are not here any more and were not reported.
    pub open spec fn missing(self) -> int {
        self.streams.abroad() - if self.state.held() is Some {
            1int
        } else {
            0
        }
    }

    /// There are no streams, and when it was last asked whether any can come, the answer
    /// was no.
    pub open spec fn out_of_streams(self) -> bool {
        &&& self.streams.members.len() == 0
        &&& self.streams.ready.receipts().len() > 0
        &&& self.streams.ready.receipts().last() == Receipt::<S>::Closed(true)
    }

    /// It was asked for new streams since.
    pub open spec fn looks_on(self, after: Self) -> bool {
        self.streams.ready.receipts().len() < after.streams.ready.receipts().len()
    }

    /// There are no more requests.
    pub open spec fn out_of_requests(self) -> bool {
        &&& self.requests.receipts().len() > 0
        &&& self.requests.receipts().last() == Receipt::<(S::Msg, QPromise<S::Msg>)>::Polled(
            Poll::Ready(None),
        )
    }

    /// The request in hand is still in hand.
    pub open spec fn goes_on(self, after: Self) -> bool {
        &&& after.state.job() == self.state.job()
        &&& after.requests == self.requests
        &&& after.kept == self.kept
    }

    /// The request in hand is through: the last stream in line has sent it, and the next thing
    /// that came back is what its promise is kept with.
    pub open spec fn answered(self, reply: S::Msg, after: Self) -> bool {
        &&& self.state.job() matches Some((msg, promise)) && {
            &&& after.state is Pending
            &&& after.requests == self.requests
            &&& after.kept == self.kept.push((promise, reply))
            &&& after.streams.members.len() > 0
            &&& replied(after.streams.members.last().calls(), msg, reply)
        }
    }
}

/// What comes of a look at the streams.
pub(crate) proof fn stream_polled_law<S: PatternStream>(
    before: ReqView<S>,
    res: Option<PrePoll>,
    after: ReqView<S>,
)
    requires
        before.sound(),
        !(before.streams.turn is Lost),
        before.stream_polled(res, after),
    ensures
        after.sound(),
        !(after.streams.turn is Lost),
        after.missing() == before.missing(),
        after.requests == before.requests,
        after.kept == before.kept,
        before.state.has_key() ==> after.state == before.state,
        before.state.is_busy() ==> res is None || res == Some(PrePoll::Continue),
        res == Some(PrePoll::Break) ==> {
            &&& !before.state.has_key()
            &&& after.state is Pending
            &&& after.out_of_streams()
        },
        before.looks_on(after),
        before.state is Msg ==> (res == Some(PrePoll::Break) <==> after.out_of_streams()),
        res == Some(PrePoll::Continue) && before.state.job() is Some ==> after.state.is_busy(),
        res != Some(PrePoll::Break) ==> after.state.job() == before.state.job(),
{
    let (round, step) = choose|round: Round<S>, step: Step<Option<(Peer<S>, Key)>>| #[trigger]
        before.streams.polled(round, step, after.streams) && after == (ReqView {
            streams: after.streams,
            state: after.state,
            ..before
        }) && match step {
            Step::Ready(ready) => {
                let next = before.state.on_streams_spec(Poll::Ready(ready));
                after.state == next.0 && res == Some(next.1)
            },
            Step::Pending => {
                let next = before.state.on_streams_spec(Poll::Pending);
                after.state == next.0 && res == Some(next.1)
            },
            Step::Again => after.state == before.state && res is None,
        };
    line_stays_good(before.streams, round, step, after.streams);
    streams_are_accounted_for(before.streams, round, step, after.streams);
    if !(before.streams.turn is Free) {
        no_stream_without_the_turn(before.streams, round, step, after.streams);
    }
    assert(after.streams.ready.receipts().last() == round.receipts().last());
}

/// What comes of a look at the requests.
pub(crate) proof fn msg_polled_law<S: PatternStream>(before: ReqView<S>, res: PrePoll, after: ReqView<S>)
    requires
        before.sound(),
        !(before.streams.turn is Lost),
        before.msg_polled(res, after),
    ensures
        after.sound(),
        after.kept == before.kept,
        after.streams.ready == before.streams.ready,
        after.streams.members == before.streams.members,
        before.state.job() is Some ==> after == before && res is Continue,
        res is Break ==> after.state is Pending && after.out_of_requests(),
        !(res is Break) ==> !(after.streams.turn is Lost) && after.missing() == before.missing(),
        after.missing() == before.missing() || after.missing() == before.missing() + 1,
        before.state.job() is None ==> match after.state.job() {
            Some(job) => before.requests.asked(
                Receipt::Polled(Poll::Ready(Some(job))),
                after.requests,
            ) && res is Continue,
            None => !(res is Continue) && taken(after.requests.receipts()) == taken(
                before.requests.receipts(),
            ),
        },
        res is Pending ==> after.state == before.state,
        before.state.held() is Some && !(res is Break) ==> after.state.held()
            == before.state.held(),
{
    if before.state is Pending || before.state is Stream {
        let received = choose|received: Poll<Option<(S::Msg, Owed<S::Msg, S::Msg>)>>| #[trigger]
            before.requests.asked(Receipt::Polled(plain(received)), after.requests) && (after.state, res)
                == before.state.on_msg_spec(received) && after.kept == before.kept && after.streams
                == Chain {
                turn: if after.state.has_key() {
                    before.streams.turn
                } else {
                    before.streams.turn.dropped()
                },
                ..before.streams
            };
        taken_push(before.requests.receipts(), Receipt::Polled(plain(received)));
    }
}

/// What comes of it when the stream that had the request is gone.
proof fn failed_law<S: PatternStream>(
    before: ReqView<S>,
    msg: S::Msg,
    owed: Owed<S::Msg, S::Msg>,
    done: Done<S>,
    res: StatePoll,
    after: ReqView<S>,
)
    requires
        before.sound(),
        before.state.is_busy(),
        before.state.job() == Some((msg, owed.promise())),
        before.failed(msg, owed, done, res, after),
    ensures
        after.sound(),
        !(after.streams.turn is Lost),
        after.missing() == before.missing(),
        after.kept == before.kept,
        after.requests == before.requests,
        !(res is Break),
        before.looks_on(after),
        res is End <==> after.out_of_streams(),
        res is End ==> after.state is Pending,
        !(res is End) ==> after.state.job() == before.state.job(),
{
    let (mid, pre) = choose|mid: Chain<S>, pre: Option<PrePoll>| #[trigger]
        before.streams.gave_back(seq![done], mid) && #[trigger] (ReqView {
            streams: mid,
            state: State::Msg(msg, owed),
            ..before
        }).stream_polled(pre, after) && res == match pre {
            Some(PrePoll::Continue) => StatePoll::Continue,
            Some(PrePoll::Break) => StatePoll::End,
            Some(PrePoll::Pending) => StatePoll::Pending,
            None => StatePoll::Again,
        };
    let freed = ReqView { streams: mid, state: State::Msg(msg, owed), ..before };
    stream_polled_law(freed, pre, after);
}

/// **Only a request that has a stream is looked at.** There is nothing that can come of a look at
/// the state while there is no request in hand, or it has no stream.
pub proof fn only_the_busy_are_looked_at<S: PatternStream>(
    before: ReqView<S>,
    res: StatePoll,
    after: ReqView<S>,
)
    requires
        before.state_polled(res, after),
    ensures
        before.state.is_busy(),
        !(before.state is Pending || before.state is Msg || before.state is Stream),
{
}

/// **A request is kept, answered or dropped.** When its stream is looked at once, it stays in hand
/// with its promise; or its promise is kept with the reply that its stream just gave; or another
/// stream was looked for, there was none, and none can come, and it is let go of with its promise,
/// which is not kept.
pub proof fn request_stays_or_ends<S: PatternStream>(before: ReqView<S>, res: StatePoll, after: ReqView<S>)
    requires
        before.sound(),
        before.state.is_busy(),
        before.state_polled(res, after),
    ensures
        after.sound(),
        !(after.streams.turn is Lost),
        after.missing() == before.missing(),
        after.requests == before.requests,
        res is Break ==> exists|reply: S::Msg| #[trigger] before.answered(reply, after),
        res is End <==> before.looks_on(after) && after.out_of_streams(),
        res is End ==> after.state is Pending && after.kept == before.kept,
        !(res is Break) && !(res is End) ==> before.goes_on(after),
{
    match before.state {
        State::Readying(msg, owed, peer, key) => {
            let (ready, asked) = choose|ready: Poll<Result<(), S::Err>>, asked: Peer<S>| #[trigger]
                peer.called(Call::Ready(ready), asked) && match ready {
                    Poll::Pending => {
                        &&& after == ReqView {
                            state: State::Readying(msg, owed, asked, key),
                            ..before
                        }
                        &&& res is Pending
                    },
                    Poll::Ready(Err(error)) => before.failed(msg, owed, Some(error), res, after),
                    Poll::Ready(Ok(())) => before.handed_over(msg, owed, asked, key, res, after),
                };
            call_is_proper(peer, Call::Ready(ready), asked);
            match ready {
                Poll::Pending => {},
                Poll::Ready(Err(error)) => {
                    failed_law(before, msg, owed, Some(error), res, after);
                },
                Poll::Ready(Ok(())) => {
                    let (handed, done, given) = choose|
                        handed: S::Msg,
                        done: Result<(), S::Err>,
                        given: Peer<S>,
                    | #[trigger]
                        asked.called(Call::Send(handed, done), given) && cloned(msg, handed)
                            && match done {
                            Ok(()) => {
                                &&& after == ReqView {
                                    state: State::Sending(msg, owed, given, key),
                                    ..before
                                }
                                &&& res is Continue
                            },
                            Err(error) => before.failed(msg, owed, Some(error), res, after),
                        };
                    call_is_proper(asked, Call::Send(handed, done), given);
                    match done {
                        Ok(()) => {},
                        Err(error) => {
                            failed_law(before, msg, owed, Some(error), res, after);
                        },
                    }
                },
            }
        },
        State::Sending(msg, owed, peer, key) => {
            let (flushed, asked) = choose|flushed: Poll<Result<(), S::Err>>, asked: Peer<S>| #[trigger]
                peer.called(Call::Flush(flushed), asked) && match flushed {
                    Poll::Pending => {
                        &&& after == ReqView {
                            state: State::Sending(msg, owed, asked, key),
                            ..before
                        }
                        &&& res is Pending
                    },
                    Poll::Ready(Err(error)) => before.failed(msg, owed, Some(error), res, after),
                    Poll::Ready(Ok(())) => {
                        &&& after == ReqView {
                            state: State::Receiving(msg, owed, asked, key),
                            ..before
                        }
                        &&& res is Continue
                    },
                };
            call_is_proper(peer, Call::Flush(flushed), asked);
            match flushed {
                Poll::Ready(Err(error)) => {
                    failed_law(before, msg, owed, Some(error), res, after);
                },
                _ => {},
            }
        },
        State::Receiving(msg, owed, peer, key) => {
            let (next, asked) = choose|
                next: Poll<Option<Result<S::Msg, S::Err>>>,
                asked: Peer<S>,
            | #[trigger]
                peer.called(Call::Next(next), asked) && match next {
                    Poll::Pending => {
                        &&& after == ReqView {
                            state: State::Receiving(msg, owed, asked, key),
                            ..before
                        }
                        &&& res is Pending
                    },
                    Poll::Ready(Some(Err(error))) => before.failed(
                        msg,
                        owed,
                        Some(error),
                        res,
                        after,
                    ),
                    Poll::Ready(None) => before.failed(msg, owed, None, res, after),
                    Poll::Ready(Some(Ok(reply))) => {
                        &&& after.state is Pending
                        &&& after.requests == before.requests
                        &&& after.kept == before.kept.push((owed.promise(), reply))
                        &&& (Chain {
                            members: before.streams.members.push(asked),
                            ..before.streams
                        }).gave_back(Seq::empty(), after.streams)
                        &&& res is Break
                    },
                };
            call_is_proper(peer, Call::Next(next), asked);
            match next {
                Poll::Pending => {},
                Poll::Ready(Some(Err(error))) => {
                    failed_law(before, msg, owed, Some(error), res, after);
                },
                Poll::Ready(None) => {
                    failed_law(before, msg, owed, None, res, after);
                },
                Poll::Ready(Some(Ok(reply))) => {
                    assert(before.answered(reply, after));
                },
            }
        },
        _ => {},
    }
}

/// **Each request gets the reply of one stream.** A request is taken only when none is in hand.
/// The one in hand stays so, however streams fail, until a stream has sent it and something came
/// back; that is what its promise is kept with. It ends only when there are no streams and can be
/// none, or when there are no more requests. All streams are used as they should be. None gets
/// lost, but for one that waited in hand when the requests ended.
pub proof fn req_step<S: PatternStream>(before: ReqView<S>, step: Step<()>, after: ReqView<S>)
    requires
        before.sound(),
        !(before.streams.turn is Lost),
        before.polled(step, after),
    ensures
        after.sound(),
        match before.state.job() {
            Some(job) => {
                ||| before.goes_on(after)
                ||| exists|reply: S::Msg| #[trigger] before.answered(reply, after)
                ||| step is Ready && after.out_of_streams() && after.kept == before.kept
            },
            None => {
                &&& after.kept == before.kept
                &&& after.state.job() matches Some(job) ==> before.requests.asked(
                    Receipt::Polled(Poll::Ready(Some(job))),
                    after.requests,
                )
                &&& after.state.job() is None && !(step is Ready) ==> taken(
                    after.requests.receipts(),
                ) == taken(before.requests.receipts())
                &&& step is Ready ==> after.out_of_streams() || after.out_of_requests()
            },
        },
        !(step is Ready) ==> {
            &&& !(after.streams.turn is Lost)
            &&& after.missing() == before.missing()
        },
        before.missing() <= after.missing() <= before.missing() + 1,
        after.missing() > before.missing() ==> after.state is Pending,
{
    let (first, seen) = choose|first: Option<PrePoll>, seen: ReqView<S>| #[trigger]
        before.stream_polled(first, seen) && match first {
            None => after == seen && step is Again,
            Some(first) => exists|second: PrePoll, mid: ReqView<S>| #[trigger]
                seen.msg_polled(second, mid) && if first is Break || second is Break {
                    after == mid && step is Ready
                } else if first is Pending || second is Pending {
                    after == mid && step is Pending
                } else {
                    exists|third: StatePoll| #[trigger]
                        mid.state_polled(third, after) && step == match third {
                            StatePoll::Pending => Step::<()>::Pending,
                            StatePoll::End => Step::Ready(()),
                            StatePoll::Continue | StatePoll::Break | StatePoll::Again =>
                                Step::Again,
                        }
                },
        };
    stream_polled_law(before, first, seen);
    if first is Some {
        let (second, mid) = choose|second: PrePoll, mid: ReqView<S>| #[trigger]
            seen.msg_polled(second, mid) && if first->0 is Break || second is Break {
                after == mid && step is Ready
            } else if first->0 is Pending || second is Pending {
                after == mid && step is Pending
            } else {
                exists|third: StatePoll| #[trigger]
                    mid.state_polled(third, after) && step == match third {
                        StatePoll::Pending => Step::<()>::Pending,
                        StatePoll::End => Step::Ready(()),
                        StatePoll::Continue | StatePoll::Break | StatePoll::Again => Step::Again,
                    }
            };
        msg_polled_law(seen, second, mid);
        if first->0 is Continue && second is Continue {
            let third = choose|third: StatePoll| #[trigger]
                mid.state_polled(third, after) && step == match third {
                    StatePoll::Pending => Step::<()>::Pending,
                    StatePoll::End => Step::Ready(()),
                    StatePoll::Continue | StatePoll::Break | StatePoll::Again => Step::Again,
                };
            request_stays_or_ends(mid, third, after);
            if third is Break {
                let reply = choose|reply: S::Msg| #[trigger] mid.answered(reply, after);
                assert(before.answered(reply, after));
            }
        }
    }
}

impl<S: PatternStream> ReqView<S> {
    /// The promises that were kept are those that came with the requests, in the order in which
    /// they came, but for that of the request in hand.
    pub open spec fn in_order(self) -> bool {
        let came = promised(taken(self.requests.receipts()));
        let kept = fulfilled(self.kept);
        match self.state.job() {
            Some((_, promise)) => came == kept.push(promise),
            None => came == kept,
        }
    }
}

/// **Promises are kept in order, and each once**, as long as it is not over.
pub proof fn req_keeps_order<S: PatternStream>(
    before: ReqView<S>,
    step: Step<()>,
    after: ReqView<S>,
)
    requires
        before.sound(),
        !(before.streams.turn is Lost),
        before.in_order(),
        before.polled(step, after),
        !(step is Ready),
    ensures
        after.in_order(),
{
    req_step(before, step, after);
    let came = promised(taken(before.requests.receipts()));
    let kept = fulfilled(before.kept);
    match before.state.job() {
        Some((msg, promise)) => {
            if exists|reply: S::Msg| #[trigger] before.answered(reply, after) {
                assert(fulfilled(after.kept) =~= kept.push(promise));
            }
        },
        None => match after.state.job() {
            Some(job) => {
                taken_push(before.requests.receipts(), Receipt::Polled(Poll::Ready(Some(job))));
                assert(promised(taken(after.requests.receipts())) =~= came.push(job.1));
            },
            None => {},
        },
    }
}

impl<S: PatternStream> ReqRunView<S> {
    /// The streams are in order. The turn is not lost while requests are sent. Afterwards
    /// nothing is in hand, and no streams are left at the end.
    pub open spec fn sound(self) -> bool {
        &&& self.req.sound()
        &&& all_good(self.closing)
        &&& match self.phase {
            Phase::Running => !(self.req.streams.turn is Lost) && self.closing.len() == 0,
            Phase::Releasing(held) => {
                &&& good(held.peer())
                &&& self.req.state is Pending
                &&& self.closing.len() == 0
            },
            Phase::Closing => self.req.state is Pending && self.req.streams.members.len() == 0,
            Phase::Finished => {
                &&& self.req.state is Pending
                &&& self.req.streams.members.len() == 0
                &&& self.closing.len() == 0
            },
        }
    }

    /// How many streams have joined that are not here any more and were not reported.
    pub open spec fn missing(self) -> int {
        self.req.missing() - self.closing.len() - if self.phase is Releasing {
            1int
        } else {
            0
        }
    }

    /// No stream is missing, but for the one that was in hand when it was over.
    pub open spec fn accounted(self) -> bool {
        if self.phase is Running || self.phase is Releasing {
            self.missing() == 0
        } else {
            0 <= self.missing() <= 1
        }
    }
}

impl<S: PatternStream> ReqRunView<S> {
    /// The machine was just made.
    pub open spec fn begins(self) -> bool {
        &&& self.req.streams.members.len() == 0
        &&& self.req.streams.turn is Free
        &&& self.req.streams.ready.receipts().len() == 0
        &&& self.req.streams.done.handed().len() == 0
        &&& self.req.requests.receipts().len() == 0
        &&& self.req.state is Pending
        &&& self.req.kept.len() == 0
        &&& self.phase is Running
        &&& self.closing.len() == 0
    }

    /// `after` is what may come of one poll.
    pub open spec fn leads_to(self, after: Self) -> bool {
        exists|step: Step<()>| #[trigger] self.polled(step, after)
    }
}

/// A machine that was just made is in order.
pub proof fn req_starts_sound<S: PatternStream>(run: ReqRunView<S>)
    requires
        run.begins(),
    ensures
        run.sound(),
        run.accounted(),
        run.req.in_order(),
{
    assert(promised(taken(run.req.requests.receipts())) =~= fulfilled(run.req.kept));
}

/// **All streams but one are reported.** The machine stays in order. By the end each stream that
/// has ever joined was reported, but for the one that was in hand when it was over. Promises are
/// kept only while requests are sent.
pub proof fn req_run_step<S: PatternStream>(
    before: ReqRunView<S>,
    step: Step<()>,
    after: ReqRunView<S>,
)
    requires
        before.sound(),
        before.accounted(),
        before.polled(step, after),
    ensures
        after.sound(),
        after.accounted(),
        after.phase is Running ==> before.phase is Running,
        before.req.in_order() && after.phase is Running ==> after.req.in_order(),
        !(before.phase is Running) ==> after.req.kept == before.req.kept && after.req.requests
            == before.req.requests,
        step is Ready <==> after.phase is Finished,
        after.phase is Finished ==> {
            let joined = arrivals(after.req.streams.ready.receipts()) as int;
            joined - 1 <= after.req.streams.done.handed().len() <= joined
        },
{
    match before.phase {
        Phase::Running => {
            let (ran, req) = choose|ran: Step<()>, req: ReqView<S>| #[trigger]
                before.req.polled(ran, req) && match ran {
                    Step::Ready(()) => match req.state.held() {
                        Some(peer) => {
                            &&& after.req == req.released()
                            &&& after.phase matches Phase::Releasing(closing) && closing.peer()
                                == peer
                            &&& after.closing == before.closing
                            &&& step is Again
                        },
                        None => {
                            &&& after == (ReqRunView { req: req.released(), ..before }).shut()
                            &&& step is Again
                        },
                    },
                    _ => after == (ReqRunView { req, ..before }) && step == ran,
                };
            req_step(before.req, ran, req);
            if before.req.in_order() && !(ran is Ready) {
                req_keeps_order(before.req, ran, req);
            }
        },
        Phase::Releasing(held) => {
            let (closed, asked) = choose|closed: Poll<Result<(), S::Err>>, asked: Peer<S>| #[trigger]
                held.peer().called(Call::Close(closed), asked) && match closed {
                    Poll::Ready(_) => after == before.shut() && step is Again,
                    Poll::Pending => {
                        &&& after.req == before.req
                        &&& after.phase matches Phase::Releasing(closing) && closing.peer() == asked
                        &&& after.closing == before.closing
                        &&& step is Pending
                    },
                };
            call_is_proper(held.peer(), Call::Close(closed), asked);
        },
        Phase::Closing => {
            let (asked, answer) = choose|
                asked: Seq<Peer<S>>,
                answer: Poll<Option<Result<(), S::Err>>>,
            | #[trigger]
                closed_round(before.closing, asked, answer, after.closing) && after.req == (
                ReqView {
                    streams: Chain { done: after.req.streams.done, ..before.req.streams },
                    ..before.req
                }) && match answer {
                    Poll::Ready(Some(closed)) => {
                        &&& before.req.streams.done.handing(
                            seq![closed.err()],
                            after.req.streams.done,
                        )
                        &&& after.phase is Closing
                        &&& step is Again
                    },
                    Poll::Ready(None) => {
                        &&& after.req == before.req
                        &&& after.phase is Finished
                        &&& step is Ready
                    },
                    Poll::Pending => {
                        &&& after.req == before.req
                        &&& after.phase is Closing
                        &&& step is Pending
                    },
                };
            closing_keeps_count(before.closing, asked, answer, after.closing);
        },
        Phase::Finished => {},
    }
}

/// The next of these may come of one poll.
pub open spec fn moves_on<S: PatternStream>(history: Seq<ReqRunView<S>>, i: int) -> bool {
    history[i].leads_to(history[i + 1])
}

/// **All this holds at all times.** However often a machine is polled after it was made, and whatever
/// the streams and channels answer, it is in order, no stream is missing but one at the end, and as
/// long as it is not over its promises are kept in order and each once.
pub proof fn req_always<S: PatternStream>(history: Seq<ReqRunView<S>>, n: int)
    requires
        0 <= n < history.len(),
        history[0].begins(),
        forall|i: int| 0 <= i < history.len() - 1 ==> #[trigger] moves_on(history, i),
    ensures
        history[n].sound(),
        history[n].accounted(),
        history[n].phase is Running ==> history[n].req.in_order(),
    decreases n,
{
    if n == 0 {
        req_starts_sound(history[0]);
    } else {
        req_always(history, n - 1);
        assert(moves_on(history, n - 1));
        let step = choose|step: Step<()>| #[trigger] history[n - 1].polled(step, history[n]);
        req_run_step(history[n - 1], step, history[n]);
    }
}

/// A look at the streams, after which there is nothing more to do with them at once.
proof fn looked_will_wake<S: PatternStream>(before: ReqView<S>, res: PrePoll, after: ReqView<S>)
    requires
        before.sound(),
        before.stream_polled(Some(res), after),
    ensures
        inbox_watched(after.streams.ready.receipts()),
        after.state == before.state ==> all_will_wake(after.streams.members),
        res is Pending ==> after.state == before.state,
{
    let (round, step) = choose|round: Round<S>, step: Step<Option<(Peer<S>, Key)>>| #[trigger]
        before.streams.polled(round, step, after.streams) && after == (ReqView {
            streams: after.streams,
            state: after.state,
            ..before
        }) && match step {
            Step::Ready(ready) => {
                let next = before.state.on_streams_spec(Poll::Ready(ready));
                after.state == next.0 && Some(res) == Some(next.1)
            },
            Step::Pending => {
                let next = before.state.on_streams_spec(Poll::Pending);
                after.state == next.0 && Some(res) == Some(next.1)
            },
            Step::Again => false,
        };
    look_will_wake(before.streams, round, step, after.streams);
    if !(before.streams.turn is Free) {
        no_stream_without_the_turn(before.streams, round, step, after.streams);
    }
}

/// A look at the state that comes to nothing.
proof fn state_will_wake<S: PatternStream>(before: ReqView<S>, after: ReqView<S>)
    requires
        before.sound(),
        before.state.is_busy(),
        inbox_watched(before.streams.ready.receipts()),
        before.state_polled(StatePoll::Pending, after),
    ensures
        after.will_wake(),
        after.state.held() is Some ==> after.streams == before.streams,
{
    let msg = before.state.job().unwrap().0;
    let owed = before.state.owed().unwrap();
    if after.state.held() is None {
        let (done, mid) = choose|done: Done<S>, mid: Chain<S>| #[trigger]
            before.streams.gave_back(seq![done], mid) && (ReqView {
                streams: mid,
                state: State::Msg(msg, owed),
                ..before
            }).stream_polled(Some(PrePoll::Pending), after);
        let freed = ReqView { streams: mid, state: State::Msg(msg, owed), ..before };
        looked_will_wake(freed, PrePoll::Pending, after);
    }
}

impl<S: PatternStream> ReqView<S> {
    /// What it waits for will wake the task: the stream that has the request in hand, or those that
    /// may get it, or the place that requests come from. So will the place that new streams come from,
    /// unless it is at its end.
    pub open spec fn will_wake(self) -> bool {
        &&& inbox_watched(self.streams.ready.receipts())
        &&& match self.state {
            State::Pending | State::Stream(_, _) => inbox_will_wake(self.requests.receipts()),
            State::Msg(_, _) => all_will_wake(self.streams.members),
            State::Readying(_, _, peer, _) => will_wake(peer.calls()),
            State::Sending(_, _, peer, _) => will_wake(peer.calls()),
            State::Receiving(_, _, peer, _) => will_wake(peer.calls()),
        }
    }
}

/// **No wake-up is missed**, unless a stream waited in hand and a request has come for it. When nothing
/// can be done now, what is waited for was just asked and will wake the task. So will the streams in
/// line, unless one of them was handed out in this very poll.
pub proof fn req_will_wake<S: PatternStream>(before: ReqView<S>, step: Step<()>, after: ReqView<S>)
    requires
        before.sound(),
        !(before.streams.turn is Lost),
        !(before.state is Stream && after.state is Readying),
        before.polled(step, after),
        step is Pending,
    ensures
        after.will_wake(),
        !(before.state.held() is None && after.state.held() is Some) ==> all_will_wake(
            after.streams.members,
        ),
{
    let (first, seen) = choose|first: PrePoll, seen: ReqView<S>| #[trigger]
        before.stream_polled(Some(first), seen) && exists|second: PrePoll, mid: ReqView<S>| #[trigger]
            seen.msg_polled(second, mid) && if first is Break || second is Break {
                after == mid && step is Ready
            } else if first is Pending || second is Pending {
                after == mid && step is Pending
            } else {
                exists|third: StatePoll| #[trigger]
                    mid.state_polled(third, after) && step == match third {
                        StatePoll::Pending => Step::<()>::Pending,
                        StatePoll::End => Step::Ready(()),
                        StatePoll::Continue | StatePoll::Break | StatePoll::Again => Step::Again,
                    }
            };
    stream_polled_law(before, Some(first), seen);
    let (second, mid) = choose|second: PrePoll, mid: ReqView<S>| #[trigger]
        seen.msg_polled(second, mid) && if first is Break || second is Break {
            after == mid && step is Ready
        } else if first is Pending || second is Pending {
            after == mid && step is Pending
        } else {
            exists|third: StatePoll| #[trigger]
                mid.state_polled(third, after) && step == match third {
                    StatePoll::Pending => Step::<()>::Pending,
                    StatePoll::End => Step::Ready(()),
                    StatePoll::Continue | StatePoll::Break | StatePoll::Again => Step::Again,
                }
        };
    msg_polled_law(seen, second, mid);
    looked_will_wake(before, first, seen);
    if first is Continue && second is Continue {
        state_will_wake(mid, after);
    }
}

impl<S: PatternStream> ReqRunView<S> {
    /// What it waits for will wake the task.
    pub open spec fn will_wake(self) -> bool {
        match self.phase {
            Phase::Running => self.req.will_wake(),
            Phase::Releasing(held) => will_wake(held.peer().calls()),
            Phase::Closing => all_will_wake(self.closing),
            Phase::Finished => false,
        }
    }
}

/// **No wake-up is missed**, from the start to the end, but for the case that [`req_will_wake`] leaves
/// out.
pub proof fn req_run_will_wake<S: PatternStream>(
    before: ReqRunView<S>,
    step: Step<()>,
    after: ReqRunView<S>,
)
    requires
        before.sound(),
        !(before.req.state is Stream && after.req.state is Readying),
        before.polled(step, after),
        step is Pending,
    ensures
        after.will_wake(),
{
    match before.phase {
        Phase::Running => {
            let (ran, req) = choose|ran: Step<()>, req: ReqView<S>| #[trigger]
                before.req.polled(ran, req) && ran is Pending && after == (ReqRunView {
                    req,
                    ..before
                });
            req_will_wake(before.req, ran, req);
        },
        Phase::Releasing(_) => {},
        Phase::Closing => {
            let asked = choose|asked: Seq<Peer<S>>| #[trigger]
                closed_round(
                    before.closing,
                    asked,
                    Poll::<Option<Result<(), S::Err>>>::Pending,
                    after.closing,
                );
            closing_will_wake(before.closing, asked, after.closing);
        },
        Phase::Finished => {},
    }
}

} // verus!
