//! Which streams a requesting machine reports, with what, and in which order.
use crate::chain_laws::no_stream_without_the_turn;
use crate::channel::Receipt;
use crate::exchange_laws::course_on;
use crate::owned_close::closed_round;
use crate::promise::{plain, Owed};
use crate::push_stream::{Chain, Key, Round};
use crate::report_laws::{
    all_gone, closed_count, count, count_concat, count_one, gone_of, handed_out, is_gone,
    line_reports_the_gone, report_of, reports_of,
};
use crate::req_cause_laws::req_ends_for_cause;
use crate::req_impl::{Phase, PrePoll, ReqRunView, ReqView, State, StatePoll};
use crate::req_laws::{msg_polled_law, request_stays_or_ends, stream_polled_law};
use crate::stream::{Call, PatternStream, Peer};
use crate::task::Step;
use core::task::Poll;
use vstd::prelude::*;

verus! {

impl<S: PatternStream> ReqView<S> {
    /// The stream in hand.
    pub open spec fn in_hand(self) -> Seq<Peer<S>> {
        match self.state.held() {
            Some(peer) => seq![peer],
            None => Seq::empty(),
        }
    }

    /// How many times this stream has joined without being here now.
    pub open spec fn absent(self, stream: S) -> int {
        self.streams.absent(stream) - count(self.in_hand(), stream)
    }

    /// The first of these have gone since, and this was reported in the order in which it was
    /// found. The others were dropped. All others that were here or have joined are here.
    pub open spec fn lost(self, gone: Seq<Peer<S>>, dropped: Seq<Peer<S>>, after: Self) -> bool {
        &&& all_gone(gone)
        &&& self.streams.done.handing(reports_of(gone), after.streams.done)
        &&& forall|stream: S| #[trigger]
            after.absent(stream) == self.absent(stream) + count(gone, stream) + count(
                dropped,
                stream,
            )
    }

    /// Only such streams were let go of that were reported.
    pub open spec fn lost_some(self, after: Self) -> bool {
        exists|gone: Seq<Peer<S>>| #[trigger] self.lost(gone, Seq::empty(), after)
    }
}

/// What goes in two steps is gone in the end.
proof fn lost_twice<S: PatternStream>(
    before: ReqView<S>,
    first: Seq<Peer<S>>,
    mid: ReqView<S>,
    second: Seq<Peer<S>>,
    dropped: Seq<Peer<S>>,
    after: ReqView<S>,
)
    requires
        before.lost(first, Seq::empty(), mid),
        mid.lost(second, dropped, after),
    ensures
        before.lost(first + second, dropped, after),
{
    let all = first + second;
    let none = Seq::<Peer<S>>::empty();
    assert(reports_of(all) =~= reports_of(first) + reports_of(second));
    assert(after.streams.done.handed() =~= before.streams.done.handed() + reports_of(all));
    assert forall|stream: S| #[trigger]
        after.absent(stream) == before.absent(stream) + count(all, stream) + count(
            dropped,
            stream,
        ) by {
        count_concat(first, second, stream);
        assert(mid.absent(stream) == before.absent(stream) + count(first, stream) + count(
            none,
            stream,
        ));
    }
}

/// Nothing is reported.
proof fn lost_none<S: PatternStream>(before: ReqView<S>, dropped: Seq<Peer<S>>, after: ReqView<S>)
    requires
        after.streams.done.sender() == before.streams.done.sender(),
        after.streams.done.handed() == before.streams.done.handed(),
        forall|stream: S| #[trigger]
            after.absent(stream) == before.absent(stream) + count(dropped, stream),
    ensures
        before.lost(Seq::empty(), dropped, after),
{
    let none = Seq::<Peer<S>>::empty();
    assert(reports_of(none) =~= Seq::empty());
    assert(after.streams.done.handed() =~= before.streams.done.handed() + reports_of(none));
}

/// A look at the streams.
proof fn look_lost<S: PatternStream>(before: ReqView<S>, res: Option<PrePoll>, after: ReqView<S>)
    requires
        before.sound(),
        !(before.streams.turn is Lost),
        before.stream_polled(res, after),
    ensures
        before.lost_some(after),
{
    let (round, step) = choose|round: Round<S>, step: Step<Option<(Peer<S>, Key)>>| #[trigger]
        before.streams.polled(round, step, after.streams) && after == (ReqView {
            streams: after.streams,
            state: after.state,
            ..before
        }) && match step {
            Step::Ready(ready) => {
                let next = before.state.on_streams_spec(Poll::Ready(ready));
                after.state == next.0 && res == Some(next.1)
            },
            Step::Pending => {
                let next = before.state.on_streams_spec(Poll::Pending);
                after.state == next.0 && res == Some(next.1)
            },
            Step::Again => after.state == before.state && res is None,
        };
    line_reports_the_gone(before.streams, round, step, after.streams);
    if !(before.streams.turn is Free) {
        no_stream_without_the_turn(before.streams, round, step, after.streams);
    }
    let gone = gone_of(round.visits);
    let none = Seq::<Peer<S>>::empty();
    assert forall|stream: S| #[trigger]
        after.absent(stream) == before.absent(stream) + count(gone, stream) + count(none, stream) by {
        assert(after.streams.absent(stream) == before.streams.absent(stream) + count(
            handed_out(step),
            stream,
        ) + count(gone, stream));
    }
    assert(before.lost(gone, none, after));
}

/// The stream in hand is gone.
proof fn failed_lost<S: PatternStream>(
    before: ReqView<S>,
    msg: S::Msg,
    owed: Owed<S::Msg, S::Msg>,
    peer: Peer<S>,
    res: StatePoll,
    after: ReqView<S>,
)
    requires
        before.sound(),
        before.state.is_busy(),
        before.state.held().unwrap().origin() == peer.origin(),
        is_gone(peer),
        before.failed(msg, owed, report_of(peer), res, after),
    ensures
        before.lost_some(after),
{
    let done = report_of(peer);
    let (mid, pre) = choose|mid: Chain<S>, pre: Option<PrePoll>| #[trigger]
        before.streams.gave_back(seq![done], mid) && #[trigger] (ReqView {
            streams: mid,
            state: State::Msg(msg, owed),
            ..before
        }).stream_polled(pre, after) && res == match pre {
            Some(PrePoll::Continue) => StatePoll::Continue,
            Some(PrePoll::Break) => StatePoll::End,
            Some(PrePoll::Pending) => StatePoll::Pending,
            None => StatePoll::Again,
        };
    let freed = ReqView { streams: mid, state: State::Msg(msg, owed), ..before };
    let one = seq![peer];
    let none = Seq::<Peer<S>>::empty();
    assert(reports_of(one) =~= seq![done]);
    assert forall|stream: S| #[trigger]
        freed.absent(stream) == before.absent(stream) + count(one, stream) + count(none, stream) by {
        count_one(peer, stream);
        count_one(before.state.held().unwrap(), stream);
        assert(freed.in_hand() =~= none);
    }
    assert(before.lost(one, none, freed));
    look_lost(freed, pre, after);
    let more = choose|more: Seq<Peer<S>>| #[trigger] freed.lost(more, none, after);
    lost_twice(before, one, freed, more, none, after);
}

/// The stream in hand was asked something, and is still in hand.
proof fn asked_lost<S: PatternStream>(before: ReqView<S>, asked: Peer<S>, after: ReqView<S>)
    requires
        before.state.held() is Some,
        after.state.held() == Some(asked),
        asked.origin() == before.state.held().unwrap().origin(),
        after.streams == before.streams,
    ensures
        before.lost_some(after),
{
    let none = Seq::<Peer<S>>::empty();
    assert forall|stream: S| #[trigger]
        after.absent(stream) == before.absent(stream) + count(none, stream) by {
        count_one(asked, stream);
        count_one(before.state.held().unwrap(), stream);
    }
    lost_none(before, none, after);
    assert(before.lost(none, none, after));
}

/// A look at the state.
proof fn state_lost<S: PatternStream>(before: ReqView<S>, res: StatePoll, after: ReqView<S>)
    requires
        before.sound(),
        before.state.is_busy(),
        before.state_polled(res, after),
    ensures
        before.lost_some(after),
{
    let none = Seq::<Peer<S>>::empty();
    match before.state {
        State::Readying(msg, owed, peer, key) => {
            let (ready, asked) = choose|ready: Poll<Result<(), S::Err>>, asked: Peer<S>| #[trigger]
                peer.called(Call::Ready(ready), asked) && match ready {
                    Poll::Pending => {
                        &&& after == ReqView {
                            state: State::Readying(msg, owed, asked, key),
                            ..before
                        }
                        &&& res is Pending
                    },
                    Poll::Ready(Err(error)) => before.failed(msg, owed, Some(error), res, after),
                    Poll::Ready(Ok(())) => before.handed_over(msg, owed, asked, key, res, after),
                };
            course_on(peer, Call::Ready(ready), asked);
            match ready {
                Poll::Pending => {
                    asked_lost(before, asked, after);
                },
                Poll::Ready(Err(error)) => {
                    failed_lost(before, msg, owed, asked, res, after);
                },
                Poll::Ready(Ok(_)) => {
                    let (handed, done, given) = choose|
                        handed: S::Msg,
                        done: Result<(), S::Err>,
                        given: Peer<S>,
                    | #[trigger]
                        asked.called(Call::Send(handed, done), given) && cloned(msg, handed)
                            && match done {
                            Ok(()) => {
                                &&& after == ReqView {
                                    state: State::Sending(msg, owed, given, key),
                                    ..before
                                }
                                &&& res is Continue
                            },
                            Err(error) => before.failed(msg, owed, Some(error), res, after),
                        };
                    course_on(asked, Call::Send(handed, done), given);
                    match done {
                        Ok(_) => {
                            asked_lost(before, given, after);
                        },
                        Err(error) => {
                            failed_lost(before, msg, owed, given, res, after);
                        },
                    }
                },
            }
        },
        State::Sending(msg, owed, peer, key) => {
            let (flushed, asked) = choose|flushed: Poll<Result<(), S::Err>>, asked: Peer<S>| #[trigger]
                peer.called(Call::Flush(flushed), asked) && match flushed {
                    Poll::Pending => {
                        &&& after == ReqView {
                            state: State::Sending(msg, owed, asked, key),
                            ..before
                        }
                        &&& res is Pending
                    },
                    Poll::Ready(Err(error)) => before.failed(msg, owed, Some(error), res, after),
                    Poll::Ready(Ok(())) => {
                        &&& after == ReqView {
                            state: State::Receiving(msg, owed, asked, key),
                            ..before
                        }
                        &&& res is Continue
                    },
                };
            course_on(peer, Call::Flush(flushed), asked);
            match flushed {
                Poll::Ready(Err(error)) => {
                    failed_lost(before, msg, owed, asked, res, after);
                },
                _ => {
                    asked_lost(before, asked, after);
                },
            }
        },
        State::Receiving(msg, owed, peer, key) => {
            let (next, asked) = choose|
                next: Poll<Option<Result<S::Msg, S::Err>>>,
                asked: Peer<S>,
            | #[trigger]
                peer.called(Call::Next(next), asked) && match next {
                    Poll::Pending => {
                        &&& after == ReqView {
                            state: State::Receiving(msg, owed, asked, key),
                            ..before
                        }
                        &&& res is Pending
                    },
                    Poll::Ready(Some(Err(error))) => before.failed(
                        msg,
                        owed,
                        Some(error),
                        res,
                        after,
                    ),
                    Poll::Ready(None) => before.failed(msg, owed, None, res, after),
                    Poll::Ready(Some(Ok(reply))) => {
                        &&& after.state is Pending
                        &&& after.requests == before.requests
                        &&& after.kept == before.kept.push((owed.promise(), reply))
                        &&& (Chain {
                            members: before.streams.members.push(asked),
                            ..before.streams
                        }).gave_back(Seq::empty(), after.streams)
                        &&& res is Break
                    },
                };
            course_on(peer, Call::Next(next), asked);
            match next {
                Poll::Pending => {
                    asked_lost(before, asked, after);
                },
                Poll::Ready(Some(Ok(_))) => {
                    assert forall|stream: S| #[trigger]
                        after.absent(stream) == before.absent(stream) + count(none, stream) by {
                        count_one(peer, stream);
                        assert(after.streams.members.drop_last() =~= before.streams.members);
                    }
                    assert(after.streams.done.handed() =~= before.streams.done.handed());
                    lost_none(before, none, after);
                    assert(before.lost(none, none, after));
                },
                Poll::Ready(_) => {
                    failed_lost(before, msg, owed, asked, res, after);
                },
            }
        },
        _ => {},
    }
}

/// A look at the requests. If there are no more, the stream in hand is dropped.
proof fn msg_lost<S: PatternStream>(before: ReqView<S>, res: PrePoll, after: ReqView<S>) -> (dropped:
    Seq<Peer<S>>)
    requires
        before.msg_polled(res, after),
    ensures
        before.lost(Seq::empty(), dropped, after),
        dropped.len() <= 1,
        dropped.len() > 0 ==> res is Break && before.hears(Poll::Ready(None), after) && before.state
            is Stream,
{
    let none = Seq::<Peer<S>>::empty();
    let dropped = if before.state.held() is Some && after.state.held() is None {
        before.in_hand()
    } else {
        none
    };
    if before.state is Pending || before.state is Stream {
        let received = choose|received: Poll<Option<(S::Msg, Owed<S::Msg, S::Msg>)>>| #[trigger]
            before.requests.asked(
                Receipt::Polled(plain(received)),
                after.requests,
            ) && (after.state, res) == before.state.on_msg_spec(received);
        assert(received == Poll::<Option<(S::Msg, Owed<S::Msg, S::Msg>)>>::Ready(None)
            ==> before.hears(Poll::Ready(None), after));
    }
    assert forall|stream: S| #[trigger]
        after.absent(stream) == before.absent(stream) + count(dropped, stream) by {}
    lost_none(before, dropped, after);
    dropped
}

/// **Only the gone are let go of, and each is reported.** What is reported in one poll are the last
/// words of the streams that were found gone, in that order. All others that were here or have
/// joined are here, but for one that waited in hand when the requests ended, which is dropped.
pub proof fn req_reports_the_gone<S: PatternStream>(
    before: ReqView<S>,
    step: Step<()>,
    after: ReqView<S>,
)
    requires
        before.sound(),
        !(before.streams.turn is Lost),
        before.polled(step, after),
    ensures
        exists|gone: Seq<Peer<S>>, dropped: Seq<Peer<S>>| #[trigger]
            before.lost(gone, dropped, after) && dropped.len() <= 1 && (dropped.len() > 0
                ==> step is Ready && before.hears(Poll::Ready(None), after)),
{
    let none = Seq::<Peer<S>>::empty();
    let (first, seen) = choose|first: Option<PrePoll>, seen: ReqView<S>| #[trigger]
        before.stream_polled(first, seen) && match first {
            None => after == seen && step is Again,
            Some(first) => exists|second: PrePoll, mid: ReqView<S>| #[trigger]
                seen.msg_polled(second, mid) && if first is Break || second is Break {
                    after == mid && step is Ready
                } else if first is Pending || second is Pending {
                    after == mid && step is Pending
                } else {
                    exists|third: StatePoll| #[trigger]
                        mid.state_polled(third, after) && step == match third {
                            StatePoll::Pending => Step::<()>::Pending,
                            StatePoll::End => Step::Ready(()),
                            StatePoll::Continue | StatePoll::Break | StatePoll::Again =>
                                Step::Again,
                        }
                },
        };
    stream_polled_law(before, first, seen);
    look_lost(before, first, seen);
    let gone = choose|gone: Seq<Peer<S>>| #[trigger] before.lost(gone, none, seen);
    match first {
        None => {
            assert(before.lost(gone, none, after));
        },
        Some(first) => {
            let (second, mid) = choose|second: PrePoll, mid: ReqView<S>| #[trigger]
                seen.msg_polled(second, mid) && if first is Break || second is Break {
                    after == mid && step is Ready
                } else if first is Pending || second is Pending {
                    after == mid && step is Pending
                } else {
                    exists|third: StatePoll| #[trigger]
                        mid.state_polled(third, after) && step == match third {
                            StatePoll::Pending => Step::<()>::Pending,
                            StatePoll::End => Step::Ready(()),
                            StatePoll::Continue | StatePoll::Break | StatePoll::Again =>
                                Step::Again,
                        }
                };
            msg_polled_law(seen, second, mid);
            let dropped = msg_lost(seen, second, mid);
            lost_twice(before, gone, seen, none, dropped, mid);
            assert(gone + none =~= gone);
            if first is Continue && second is Continue {
                let third = choose|third: StatePoll| #[trigger]
                    mid.state_polled(third, after) && step == match third {
                        StatePoll::Pending => Step::<()>::Pending,
                        StatePoll::End => Step::Ready(()),
                        StatePoll::Continue | StatePoll::Break | StatePoll::Again => Step::Again,
                    };
                request_stays_or_ends(mid, third, after);
                state_lost(mid, third, after);
                let more = choose|more: Seq<Peer<S>>| #[trigger] mid.lost(more, none, after);
                assert(dropped =~= none);
                lost_twice(before, gone, mid, more, none, after);
            } else {
                assert(before.lost(gone, dropped, after));
            }
        },
    }
}

impl<S: PatternStream> ReqRunView<S> {
    /// The stream that was in hand at the end, while it is closed.
    pub open spec fn releasing(self) -> Seq<Peer<S>> {
        match self.phase {
            Phase::Releasing(held) => seq![held.peer()],
            _ => Seq::empty(),
        }
    }

    /// How many times this stream has joined without being here now.
    pub open spec fn absent(self, stream: S) -> int {
        self.req.absent(stream) - count(self.closing, stream) - count(self.releasing(), stream)
    }

    /// The first of these have gone since, and this was reported in the order in which it was
    /// found. The others were dropped. All others that were here or have joined are here.
    pub open spec fn lost(self, gone: Seq<Peer<S>>, dropped: Seq<Peer<S>>, after: Self) -> bool {
        &&& all_gone(gone)
        &&& self.req.streams.done.handing(reports_of(gone), after.req.streams.done)
        &&& forall|stream: S| #[trigger]
            after.absent(stream) == self.absent(stream) + count(gone, stream) + count(
                dropped,
                stream,
            )
    }

    /// A stream may be dropped: no more requests have come while it waited in hand, or it was in
    /// hand when it was over, and is closed.
    pub open spec fn may_drop(self, after: Self) -> bool {
        ||| self.phase is Running && self.req.hears(Poll::Ready(None), after.req)
        ||| self.phase is Releasing
    }
}

/// **From the start to the end only the gone are let go of, and each is reported.** Streams in line
/// at the end are closed, and each is reported with how that went. Only one that waited in hand
/// when the requests ended goes unreported.
pub proof fn req_run_reports_the_gone<S: PatternStream>(
    before: ReqRunView<S>,
    step: Step<()>,
    after: ReqRunView<S>,
)
    requires
        before.sound(),
        before.polled(step, after),
    ensures
        exists|gone: Seq<Peer<S>>, dropped: Seq<Peer<S>>| #[trigger]
            before.lost(gone, dropped, after) && dropped.len() <= 1 && (dropped.len() > 0
                ==> before.may_drop(after)),
{
    let none = Seq::<Peer<S>>::empty();
    assert(reports_of(none) =~= Seq::empty());
    match before.phase {
        Phase::Running => {
            let (ran, req) = choose|ran: Step<()>, req: ReqView<S>| #[trigger]
                before.req.polled(ran, req) && match ran {
                    Step::Ready(()) => match req.state.held() {
                        Some(peer) => {
                            &&& after.req == req.released()
                            &&& after.phase matches Phase::Releasing(closing) && closing.peer()
                                == peer
                            &&& after.closing == before.closing
                            &&& step is Again
                        },
                        None => {
                            &&& after == (ReqRunView { req: req.released(), ..before }).shut()
                            &&& step is Again
                        },
                    },
                    _ => after == (ReqRunView { req, ..before }) && step == ran,
                };
            req_ends_for_cause(before.req, ran, req);
            req_reports_the_gone(before.req, ran, req);
            let (gone, dropped) = choose|gone: Seq<Peer<S>>, dropped: Seq<Peer<S>>| #[trigger]
                before.req.lost(gone, dropped, req) && dropped.len() <= 1 && (dropped.len() > 0
                    ==> ran is Ready && before.req.hears(Poll::Ready(None), req));
            assert forall|stream: S| #[trigger]
                after.absent(stream) == before.absent(stream) + count(gone, stream) + count(
                    dropped,
                    stream,
                ) by {
                assert(req.absent(stream) == before.req.absent(stream) + count(gone, stream) + count(
                    dropped,
                    stream,
                ));
                if ran is Ready {
                    assert(before.closing + req.streams.members =~= req.streams.members);
                    assert(after.req.in_hand() =~= req.in_hand());
                }
            }
            assert(before.lost(gone, dropped, after));
        },
        Phase::Releasing(held) => {
            let peer = held.peer();
            let (closed, asked) = choose|closed: Poll<Result<(), S::Err>>, asked: Peer<S>| #[trigger]
                peer.called(Call::Close(closed), asked) && match closed {
                    Poll::Ready(_) => after == before.shut() && step is Again,
                    Poll::Pending => {
                        &&& after.req == before.req
                        &&& after.phase matches Phase::Releasing(closing) && closing.peer() == asked
                        &&& after.closing == before.closing
                        &&& step is Pending
                    },
                };
            let dropped = if closed is Ready {
                seq![asked]
            } else {
                none
            };
            assert(after.req.streams.done.handed() =~= before.req.streams.done.handed()
                + reports_of(none));
            assert forall|stream: S| #[trigger]
                after.absent(stream) == before.absent(stream) + count(none, stream) + count(
                    dropped,
                    stream,
                ) by {
                count_one(peer, stream);
                count_one(asked, stream);
                assert(before.closing + before.req.streams.members =~= before.req.streams.members);
                assert(after.req.in_hand() =~= before.req.in_hand());
            }
            assert(before.lost(none, dropped, after));
        },
        Phase::Closing => {
            let (asked, answer) = choose|
                asked: Seq<Peer<S>>,
                answer: Poll<Option<Result<(), S::Err>>>,
            | #[trigger]
                closed_round(before.closing, asked, answer, after.closing) && after.req == (
                ReqView {
                    streams: Chain { done: after.req.streams.done, ..before.req.streams },
                    ..before.req
                }) && match answer {
                    Poll::Ready(Some(closed)) => {
                        &&& before.req.streams.done.handing(
                            seq![closed.err()],
                            after.req.streams.done,
                        )
                        &&& after.phase is Closing
                        &&& step is Again
                    },
                    Poll::Ready(None) => {
                        &&& after.req == before.req
                        &&& after.phase is Finished
                        &&& step is Ready
                    },
                    Poll::Pending => {
                        &&& after.req == before.req
                        &&& after.phase is Closing
                        &&& step is Pending
                    },
                };
            let gone = match answer {
                Poll::Ready(Some(_)) => seq![asked.last()],
                _ => none,
            };
            match answer {
                Poll::Ready(Some(closed)) => {
                    let last = asked.last();
                    assert(last.calls().last() == Call::<S::Msg, S::Err>::Close(
                        Poll::Ready(closed),
                    ));
                    assert(reports_of(gone) =~= seq![closed.err()]);
                },
                _ => {
                    assert(after.req.streams.done.handed() =~= before.req.streams.done.handed()
                        + reports_of(none));
                },
            }
            assert forall|stream: S| #[trigger]
                after.absent(stream) == before.absent(stream) + count(gone, stream) + count(
                    none,
                    stream,
                ) by {
                closed_count(before.closing, asked, answer, after.closing, stream);
            }
            assert(before.lost(gone, none, after));
        },
        Phase::Finished => {
            assert(after.req.streams.done.handed() =~= before.req.streams.done.handed()
                + reports_of(none));
            assert(before.lost(none, none, after));
        },
    }
}

} // verus!
