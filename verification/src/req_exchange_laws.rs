//! That a request is handed to a stream once, and seen through.
use crate::calls::says_ready;
use crate::chain_laws::no_stream_without_the_turn;
use crate::exchange_laws::{
    all_close, all_rest, closing_in_step, course, course_on, line_rests, one_at_a_time, takes,
    unanswered,
};
use crate::owned_close::closed_round;
use crate::promise::Owed;
use crate::push_stream::{Chain, Key, Round};
use crate::report_laws::{is_gone, report_of};
use crate::req_impl::{Phase, PrePoll, ReqRunView, ReqView, State, StatePoll};
use crate::req_laws::{
    moves_on, msg_polled_law, req_always, request_stays_or_ends, stream_polled_law,
};
use crate::stream::{Call, Done, PatternStream, Peer};
use crate::task::Step;
use core::task::Poll;
use vstd::prelude::*;

verus! {

/// `after` is the same stream, of which these things more were asked.
pub open spec fn went_on<S: PatternStream>(
    before: Peer<S>,
    more: Seq<Call<S::Msg, S::Err>>,
    after: Peer<S>,
) -> bool {
    after.origin() == before.origin() && after.calls() == before.calls() + more
}

/// It was asked for nothing but to send what it has taken, or for what comes back.
pub open spec fn only_waits<M, E>(more: Seq<Call<M, E>>) -> bool {
    forall|i: int| 0 <= i < more.len() ==> (#[trigger] more[i]) is Flush || more[i] is Next
}

/// A copy of this message is handed to it.
pub open spec fn hands_over<M: Clone, E>(call: Call<M, E>, msg: M) -> bool {
    call matches Call::Send(handed, _) && cloned(msg, handed)
}

impl<S: PatternStream> ReqView<S> {
    /// The streams in line are at rest, and so is the one in hand, unless it has taken the request
    /// in hand. Then it is asked for nothing but to send it, and then for nothing but the reply.
    pub open spec fn in_step(self) -> bool {
        &&& all_rest(self.streams.members, true)
        &&& match self.state {
            State::Pending | State::Msg(_, _) => true,
            State::Stream(peer, _) => course(peer.calls(), true) is Rest,
            State::Readying(_, _, peer, _) => course(peer.calls(), true) is Rest,
            State::Sending(_, _, peer, _) => course(peer.calls(), true) is Taken,
            State::Receiving(_, _, peer, _) => course(peer.calls(), true) is Sent,
        }
    }

    /// The request in hand is still in hand, with this stream.
    pub open spec fn stays_with(self, later: Peer<S>, after: Self) -> bool {
        &&& after.state.held() == Some(later)
        &&& after.state.job() == self.state.job()
        &&& after.kept == self.kept
    }

    /// What just came from this stream is what the promise of the request in hand was kept with;
    /// and the stream is the last in line.
    pub open spec fn is_answered_by(self, later: Peer<S>, after: Self) -> bool {
        &&& later.calls().last() matches Call::Next(Poll::Ready(Some(Ok(reply)))) && after.kept
            == self.kept.push((self.state.job().unwrap().1, reply))
        &&& after.state is Pending
        &&& after.streams.members.len() > 0
        &&& after.streams.members.last() == later
    }

    /// This was reported since.
    pub open spec fn reported(self, done: Done<S>, after: Self) -> bool {
        exists|i: int|
            self.streams.done.handed().len() <= i < after.streams.done.handed().len()
                && #[trigger] after.streams.done.handed()[i] == done
    }

    /// This stream is gone, and that was reported. The request in hand is still in hand, unless
    /// there are no streams, and can be none.
    pub open spec fn is_left_by(self, later: Peer<S>, after: Self) -> bool {
        &&& is_gone(later)
        &&& self.reported(report_of(later), after)
        &&& after.kept == self.kept
        &&& after.state.job() == self.state.job() || after.state is Pending && after.out_of_streams()
    }
}

/// A look at the streams asks nothing of the one in hand.
proof fn look_in_step<S: PatternStream>(
    before: ReqView<S>,
    res: Option<PrePoll>,
    after: ReqView<S>,
)
    requires
        before.sound(),
        before.stream_polled(res, after),
        before.in_step(),
    ensures
        after.in_step(),
        before.state.has_key() ==> after.state == before.state,
        after.kept == before.kept,
        before.streams.done.handed().len() <= after.streams.done.handed().len(),
        forall|i: int|
            0 <= i < before.streams.done.handed().len()
                ==> #[trigger] after.streams.done.handed()[i] == before.streams.done.handed()[i],
{
    let (round, step) = choose|round: Round<S>, step: Step<Option<(Peer<S>, Key)>>| #[trigger]
        before.streams.polled(round, step, after.streams) && after == (ReqView {
            streams: after.streams,
            state: after.state,
            ..before
        }) && match step {
            Step::Ready(ready) => {
                let next = before.state.on_streams_spec(Poll::Ready(ready));
                after.state == next.0 && res == Some(next.1)
            },
            Step::Pending => {
                let next = before.state.on_streams_spec(Poll::Pending);
                after.state == next.0 && res == Some(next.1)
            },
            Step::Again => after.state == before.state && res is None,
        };
    line_rests(before.streams, round, step, after.streams, true);
    if !(before.streams.turn is Free) {
        no_stream_without_the_turn(before.streams, round, step, after.streams);
    }
}

/// The stream that had the request is gone.
proof fn failed_in_step<S: PatternStream>(
    before: ReqView<S>,
    msg: S::Msg,
    owed: Owed<S::Msg, S::Msg>,
    later: Peer<S>,
    res: StatePoll,
    after: ReqView<S>,
)
    requires
        before.sound(),
        before.state.is_busy(),
        before.state.job() == Some((msg, owed.promise())),
        before.in_step(),
        is_gone(later),
        before.failed(msg, owed, report_of(later), res, after),
    ensures
        after.in_step(),
        before.is_left_by(later, after),
{
    let done = report_of(later);
    let (mid, pre) = choose|mid: Chain<S>, pre: Option<PrePoll>| #[trigger]
        before.streams.gave_back(seq![done], mid) && #[trigger] (ReqView {
            streams: mid,
            state: State::Msg(msg, owed),
            ..before
        }).stream_polled(pre, after) && res == match pre {
            Some(PrePoll::Continue) => StatePoll::Continue,
            Some(PrePoll::Break) => StatePoll::End,
            Some(PrePoll::Pending) => StatePoll::Pending,
            None => StatePoll::Again,
        };
    let freed = ReqView { streams: mid, state: State::Msg(msg, owed), ..before };
    stream_polled_law(freed, pre, after);
    look_in_step(freed, pre, after);
    let n = before.streams.done.handed().len() as int;
    assert(mid.done.handed()[n] == done);
    assert(after.streams.done.handed()[n] == done);
}

/// What is asked of the stream in hand in one look at the state, and what comes of it.
proof fn state_in_step<S: PatternStream>(
    before: ReqView<S>,
    res: StatePoll,
    after: ReqView<S>,
) -> (out: (Seq<Call<S::Msg, S::Err>>, Peer<S>))
    requires
        before.sound(),
        before.state.is_busy(),
        before.in_step(),
        before.state_polled(res, after),
    ensures
        after.in_step(),
        went_on(before.state.held().unwrap(), out.0, out.1),
        0 < out.0.len() <= 2,
        before.state is Readying ==> {
            &&& out.0[0] is Ready
            &&& out.0.len() == 2 <==> says_ready(out.0[0])
            &&& out.0.len() == 2 ==> hands_over(out.0[1], before.state.job().unwrap().0)
            &&& before.stays_with(out.1, after) || before.is_left_by(out.1, after)
        },
        !(before.state is Readying) ==> {
            &&& only_waits(out.0)
            &&& takes(out.1.calls()) == takes(before.state.held().unwrap().calls())
            &&& {
                ||| before.stays_with(out.1, after) && unanswered(out.1.calls()) == 1
                ||| before.is_answered_by(out.1, after)
                ||| before.is_left_by(out.1, after)
            }
        },
{
    match before.state {
        State::Readying(msg, owed, peer, key) => {
            let (ready, asked) = choose|ready: Poll<Result<(), S::Err>>, asked: Peer<S>| #[trigger]
                peer.called(Call::Ready(ready), asked) && match ready {
                    Poll::Pending => {
                        &&& after == ReqView {
                            state: State::Readying(msg, owed, asked, key),
                            ..before
                        }
                        &&& res is Pending
                    },
                    Poll::Ready(Err(error)) => before.failed(msg, owed, Some(error), res, after),
                    Poll::Ready(Ok(())) => before.handed_over(msg, owed, asked, key, res, after),
                };
            course_on(peer, Call::Ready(ready), asked);
            let one = seq![Call::Ready(ready)];
            assert(asked.calls() =~= peer.calls() + one);
            match ready {
                Poll::Pending => {
                    assert(course(asked.calls(), true) is Rest);
                    (one, asked)
                },
                Poll::Ready(Err(error)) => {
                    failed_in_step(before, msg, owed, asked, res, after);
                    (one, asked)
                },
                Poll::Ready(Ok(nothing)) => {
                    let (handed, done, given) = choose|
                        handed: S::Msg,
                        done: Result<(), S::Err>,
                        given: Peer<S>,
                    | #[trigger]
                        asked.called(Call::Send(handed, done), given) && cloned(msg, handed)
                            && match done {
                            Ok(()) => {
                                &&& after == ReqView {
                                    state: State::Sending(msg, owed, given, key),
                                    ..before
                                }
                                &&& res is Continue
                            },
                            Err(error) => before.failed(msg, owed, Some(error), res, after),
                        };
                    course_on(asked, Call::Send(handed, done), given);
                    let two = one.push(Call::Send(handed, done));
                    assert(given.calls() =~= peer.calls() + two);
                    match done {
                        Ok(_) => {
                            assert(course(asked.calls(), true) is Armed);
                            assert(course(given.calls(), true) is Taken);
                        },
                        Err(error) => {
                            failed_in_step(before, msg, owed, given, res, after);
                        },
                    }
                    (two, given)
                },
            }
        },
        State::Sending(msg, owed, peer, key) => {
            let (flushed, asked) = choose|flushed: Poll<Result<(), S::Err>>, asked: Peer<S>| #[trigger]
                peer.called(Call::Flush(flushed), asked) && match flushed {
                    Poll::Pending => {
                        &&& after == ReqView {
                            state: State::Sending(msg, owed, asked, key),
                            ..before
                        }
                        &&& res is Pending
                    },
                    Poll::Ready(Err(error)) => before.failed(msg, owed, Some(error), res, after),
                    Poll::Ready(Ok(())) => {
                        &&& after == ReqView {
                            state: State::Receiving(msg, owed, asked, key),
                            ..before
                        }
                        &&& res is Continue
                    },
                };
            course_on(peer, Call::Flush(flushed), asked);
            one_at_a_time(peer.calls(), true);
            let one = seq![Call::Flush(flushed)];
            assert(asked.calls() =~= peer.calls() + one);
            match flushed {
                Poll::Ready(Err(error)) => {
                    failed_in_step(before, msg, owed, asked, res, after);
                },
                _ => {
                    assert(!(course(asked.calls(), true) is Odd));
                    one_at_a_time(asked.calls(), true);
                },
            }
            (one, asked)
        },
        State::Receiving(msg, owed, peer, key) => {
            let (next, asked) = choose|
                next: Poll<Option<Result<S::Msg, S::Err>>>,
                asked: Peer<S>,
            | #[trigger]
                peer.called(Call::Next(next), asked) && match next {
                    Poll::Pending => {
                        &&& after == ReqView {
                            state: State::Receiving(msg, owed, asked, key),
                            ..before
                        }
                        &&& res is Pending
                    },
                    Poll::Ready(Some(Err(error))) => before.failed(
                        msg,
                        owed,
                        Some(error),
                        res,
                        after,
                    ),
                    Poll::Ready(None) => before.failed(msg, owed, None, res, after),
                    Poll::Ready(Some(Ok(reply))) => {
                        &&& after.state is Pending
                        &&& after.requests == before.requests
                        &&& after.kept == before.kept.push((owed.promise(), reply))
                        &&& (Chain {
                            members: before.streams.members.push(asked),
                            ..before.streams
                        }).gave_back(Seq::empty(), after.streams)
                        &&& res is Break
                    },
                };
            course_on(peer, Call::Next(next), asked);
            one_at_a_time(peer.calls(), true);
            let one = seq![Call::Next(next)];
            assert(asked.calls() =~= peer.calls() + one);
            match next {
                Poll::Pending => {
                    one_at_a_time(asked.calls(), true);
                },
                Poll::Ready(Some(Ok(_))) => {
                    assert(course(asked.calls(), true) is Rest);
                },
                Poll::Ready(_) => {
                    failed_in_step(before, msg, owed, asked, res, after);
                },
            }
            (one, asked)
        },
        _ => arbitrary(),
    }
}

impl<S: PatternStream> ReqView<S> {
    /// These things more were asked of the stream in hand, and this came of it. If it has not taken
    /// the request in hand, it was asked whether it is ready, and was handed a copy exactly if it
    /// said so. If it has, it was asked for nothing but to send it, or for the reply.
    pub open spec fn sees_through(
        self,
        more: Seq<Call<S::Msg, S::Err>>,
        later: Peer<S>,
        after: Self,
    ) -> bool {
        let peer = self.state.held().unwrap();
        &&& went_on(peer, more, later)
        &&& if unanswered(peer.calls()) == 0 {
            &&& more.len() > 0 ==> more[0] is Ready
            &&& more.len() <= 2
            &&& more.len() == 2 <==> more.len() > 0 && says_ready(more[0])
            &&& more.len() == 2 ==> hands_over(more[1], self.state.job().unwrap().0)
            &&& self.stays_with(later, after) || self.is_left_by(later, after)
        } else {
            &&& only_waits(more)
            &&& takes(later.calls()) == takes(peer.calls())
            &&& {
                ||| self.stays_with(later, after) && unanswered(later.calls()) == 1
                ||| self.is_answered_by(later, after)
                ||| self.is_left_by(later, after)
            }
        }
    }
}

/// **A request is handed to a stream once, and seen through.** While a request is in hand, the
/// stream in hand is asked whether it is ready, and is handed a copy when it says so. Once it has
/// taken it, it is handed nothing else: it is asked to send it, and then for the reply. What comes
/// back ends the request: its promise is kept with that. If the stream is gone before, that is
/// reported, and the request stays in hand, unless there are no streams, and can be none. The
/// streams in line owe no reply.
pub proof fn a_request_is_handed_over_once<S: PatternStream>(
    before: ReqView<S>,
    step: Step<()>,
    after: ReqView<S>,
)
    requires
        before.sound(),
        !(before.streams.turn is Lost),
        before.in_step(),
        before.polled(step, after),
    ensures
        after.in_step(),
        before.state.is_busy() ==> exists|more: Seq<Call<S::Msg, S::Err>>, later: Peer<S>| #[trigger]
            before.sees_through(more, later, after),
        forall|i: int|
            0 <= i < after.streams.members.len() ==> unanswered(
                (#[trigger] after.streams.members[i]).calls(),
            ) == 0,
        after.state.held() matches Some(peer) ==> unanswered(peer.calls()) <= 1,
{
    let (first, seen) = choose|first: Option<PrePoll>, seen: ReqView<S>| #[trigger]
        before.stream_polled(first, seen) && match first {
            None => after == seen && step is Again,
            Some(first) => exists|second: PrePoll, mid: ReqView<S>| #[trigger]
                seen.msg_polled(second, mid) && if first is Break || second is Break {
                    after == mid && step is Ready
                } else if first is Pending || second is Pending {
                    after == mid && step is Pending
                } else {
                    exists|third: StatePoll| #[trigger]
                        mid.state_polled(third, after) && step == match third {
                            StatePoll::Pending => Step::<()>::Pending,
                            StatePoll::End => Step::Ready(()),
                            StatePoll::Continue | StatePoll::Break | StatePoll::Again =>
                                Step::Again,
                        }
                },
        };
    stream_polled_law(before, first, seen);
    look_in_step(before, first, seen);
    let none = Seq::<Call<S::Msg, S::Err>>::empty();
    if before.state.is_busy() {
        let peer = before.state.held().unwrap();
        assert(peer.calls() + none =~= peer.calls());
        one_at_a_time(peer.calls(), true);
    }
    match first {
        None => {
            if before.state.is_busy() {
                let peer = before.state.held().unwrap();
                assert(before.sees_through(none, peer, after));
            }
        },
        Some(first) => {
            let (second, mid) = choose|second: PrePoll, mid: ReqView<S>| #[trigger]
                seen.msg_polled(second, mid) && if first is Break || second is Break {
                    after == mid && step is Ready
                } else if first is Pending || second is Pending {
                    after == mid && step is Pending
                } else {
                    exists|third: StatePoll| #[trigger]
                        mid.state_polled(third, after) && step == match third {
                            StatePoll::Pending => Step::<()>::Pending,
                            StatePoll::End => Step::Ready(()),
                            StatePoll::Continue | StatePoll::Break | StatePoll::Again =>
                                Step::Again,
                        }
                };
            msg_polled_law(seen, second, mid);
            assert(mid.in_step());
            if first is Continue && second is Continue {
                let third = choose|third: StatePoll| #[trigger]
                    mid.state_polled(third, after) && step == match third {
                        StatePoll::Pending => Step::<()>::Pending,
                        StatePoll::End => Step::Ready(()),
                        StatePoll::Continue | StatePoll::Break | StatePoll::Again => Step::Again,
                    };
                request_stays_or_ends(mid, third, after);
                let (more, later) = state_in_step(mid, third, after);
                if before.state.is_busy() {
                    assert(mid == seen);
                    if mid.is_left_by(later, after) {
                        let i = choose|i: int|
                            mid.streams.done.handed().len() <= i < after.streams.done.handed().len()
                                && #[trigger] after.streams.done.handed()[i] == report_of(later);
                        assert(before.reported(report_of(later), after));
                        assert(before.is_left_by(later, after));
                    }
                    assert(before.sees_through(more, later, after));
                }
            }
        },
    }
    assert forall|i: int| 0 <= i < after.streams.members.len() implies unanswered(
        (#[trigger] after.streams.members[i]).calls(),
    ) == 0 by {
        one_at_a_time(after.streams.members[i].calls(), true);
    }
    match after.state.held() {
        Some(peer) => {
            one_at_a_time(peer.calls(), true);
        },
        None => {},
    }
}

impl<S: PatternStream> ReqRunView<S> {
    /// The streams were asked for one thing after the other, each in its time.
    pub open spec fn in_step(self) -> bool {
        &&& self.req.in_step()
        &&& all_close(self.closing, true)
    }
}

/// **Each stream has one request at a time, and each request is handed to it once.** However often
/// a machine is polled, a stream that has taken a request has not been handed another one, nor the
/// same one again, before it has replied. Streams in line owe no reply.
pub proof fn req_always_in_step<S: PatternStream>(history: Seq<ReqRunView<S>>, n: int)
    requires
        0 <= n < history.len(),
        history[0].begins(),
        forall|i: int| 0 <= i < history.len() - 1 ==> #[trigger] moves_on(history, i),
    ensures
        history[n].in_step(),
        forall|i: int|
            0 <= i < history[n].req.streams.members.len() ==> unanswered(
                (#[trigger] history[n].req.streams.members[i]).calls(),
            ) == 0,
        history[n].req.state.held() matches Some(peer) ==> unanswered(peer.calls()) <= 1,
    decreases n,
{
    if n > 0 {
        let before = history[n - 1];
        let after = history[n];
        req_always_in_step(history, n - 1);
        req_always(history, n - 1);
        assert(moves_on(history, n - 1));
        let step = choose|step: Step<()>| #[trigger] before.polled(step, after);
        match before.phase {
            Phase::Running => {
                let (ran, req) = choose|ran: Step<()>, req: ReqView<S>| #[trigger]
                    before.req.polled(ran, req) && match ran {
                        Step::Ready(()) => match req.state.held() {
                            Some(peer) => {
                                &&& after.req == req.released()
                                &&& after.phase matches Phase::Releasing(closing) && closing.peer()
                                    == peer
                                &&& after.closing == before.closing
                                &&& step is Again
                            },
                            None => {
                                &&& after == (ReqRunView { req: req.released(), ..before }).shut()
                                &&& step is Again
                            },
                        },
                        _ => after == (ReqRunView { req, ..before }) && step == ran,
                    };
                a_request_is_handed_over_once(before.req, ran, req);
                if ran is Ready && req.state.held() is None {
                    assert(all_close(after.closing, true)) by {
                        assert(before.closing.len() == 0);
                        assert(after.closing =~= req.streams.members);
                    }
                }
            },
            Phase::Releasing(_) => {
                if after.closing != before.closing {
                    assert(before.closing.len() == 0);
                    assert(after.closing =~= before.req.streams.members);
                }
            },
            Phase::Closing => {
                let (asked, answer) = choose|
                    asked: Seq<Peer<S>>,
                    answer: Poll<Option<Result<(), S::Err>>>,
                | #[trigger]
                    closed_round(before.closing, asked, answer, after.closing);
                closing_in_step(before.closing, asked, answer, after.closing, true);
            },
            Phase::Finished => {},
        }
    }
    let view = history[n].req;
    assert forall|i: int| 0 <= i < view.streams.members.len() implies unanswered(
        (#[trigger] view.streams.members[i]).calls(),
    ) == 0 by {
        one_at_a_time(view.streams.members[i].calls(), true);
    }
    match view.state.held() {
        Some(peer) => {
            one_at_a_time(peer.calls(), true);
        },
        None => {},
    }
}

} // verus!
