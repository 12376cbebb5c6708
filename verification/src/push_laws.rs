//! What holds of pushing, whatever the streams answer.
use crate::calls::{
    all_good, all_will_wake, arrivals, arrivals_concat, call_is_proper, fulfilled, good,
    inbox_watched, inbox_will_wake, promised, sent,
    taken, taken_push, took, will_wake,
};
use crate::chain_laws::{
    arrivals_of_round, line_stays_good, look_will_wake, no_stream_without_the_turn,
    streams_are_accounted_for,
};
use crate::channel::Receipt;
use crate::close_laws::{closing_keeps_count, closing_will_wake};
use crate::owned_close::closed_round;
use crate::promise::{plain, Owed, QPromise};
use crate::push_impl::{Phase, PushError, PushRunView, PushView, State, StatePoll};
use crate::push_stream::{Chain, Key, Round};
use crate::stream::{Call, PatternStream, Peer};
use crate::task::Step;
use core::task::Poll;
use vstd::prelude::*;

verus! {

impl<S: PatternStream> State<S> {
    /// The message in hand.
    pub open spec fn msg(self) -> Option<S::Msg> {
        match self {
            State::Msg(msg) => Some(msg),
            State::Readying(msg, _, _) => Some(msg),
            State::Sending(msg, _, _) => Some(msg),
            State::Pending | State::Stream(_, _) => None,
        }
    }

    /// The stream in hand.
    pub open spec fn held(self) -> Option<Peer<S>> {
        match self {
            State::Stream(peer, _) => Some(peer),
            State::Readying(_, peer, _) => Some(peer),
            State::Sending(_, peer, _) => Some(peer),
            State::Pending | State::Msg(_) => None,
        }
    }
}

impl<S: PatternStream> PushView<S> {
    /// Whoever has a stream in hand has the turn; all streams were used as they should be;
    /// and a stream that is sending has taken the message in hand.
    pub open spec fn sound(self) -> bool {
        &&& self.state.has_key() <==> self.streams.turn is Held
        &&& all_good(self.streams.members)
        &&& all_good(self.closing)
        &&& self.state.held() matches Some(peer) ==> good(peer)
        &&& self.state matches State::Sending(msg, peer, _) ==> took(peer.calls(), msg)
    }

    /// How many streams have joined that are not here any more and were not reported.
    pub open spec fn missing(self) -> int {
        self.streams.abroad() - self.closing.len() - if self.state.held() is Some {
            1int
        } else {
            0
        }
    }
}

/// What comes of a look at the streams.
pub(crate) proof fn stream_polled_law<S: PatternStream>(
    before: PushView<S>,
    res: StatePoll<S>,
    after: PushView<S>,
)
    requires
        before.sound(),
        before.stream_polled(res, after),
    ensures
        after.sound(),
        after.closing == before.closing,
        after.streams.turn is Lost <==> before.streams.turn is Lost,
        after.missing() >= before.missing(),
        !(before.streams.turn is Lost) ==> after.missing() == before.missing(),
        before.state.has_key() ==> after.state == before.state,
        before.looks_on(after),
        before.state is Msg ==> (res matches StatePoll::Poll(Poll::Ready(Err(_)))
            <==> after.out_of_streams()),
        match before.state.msg() {
            Some(msg) => match res {
                StatePoll::Poll(Poll::Ready(Ok(()))) => false,
                StatePoll::Poll(Poll::Ready(Err(error))) => {
                    &&& error == PushError::<S>::NoStreams(msg)
                    &&& after.state is Pending
                    &&& after.out_of_streams()
                },
                StatePoll::Poll(Poll::Pending) | StatePoll::Again => after.state.msg() == Some(msg),
                StatePoll::Continue => after.state.msg() == Some(msg) && after.state.has_key(),
            },
            None => {
                &&& after.state.msg() is None
                &&& res is Again || res == StatePoll::<S>::Poll(Poll::Ready(Ok(())))
            },
        },
{
    let (round, step) = choose|round: Round<S>, step: Step<Option<(Peer<S>, Key)>>| #[trigger]
        before.streams.polled(round, step, after.streams) && after.closing == before.closing && (
        after.state,
        res,
    ) == match step {
            Step::Ready(ready) => before.state.on_streams_spec(Poll::Ready(ready)),
            Step::Pending => before.state.on_streams_spec(Poll::Pending),
            Step::Again => (before.state, StatePoll::Again),
        };
    line_stays_good(before.streams, round, step, after.streams);
    streams_are_accounted_for(before.streams, round, step, after.streams);
    if !(before.streams.turn is Free) {
        no_stream_without_the_turn(before.streams, round, step, after.streams);
    }
    assert(after.streams.ready.receipts().last() == round.receipts().last());
}

impl<S: PatternStream> PushView<S> {
    /// There are no streams, and when it was last asked whether any can come, the answer
    /// was no.
    pub open spec fn out_of_streams(self) -> bool {
        &&& self.streams.members.len() == 0
        &&& self.streams.ready.receipts().len() > 0
        &&& self.streams.ready.receipts().last() == Receipt::<S>::Closed(true)
    }

    /// It was asked for new streams since.
    pub open spec fn looks_on(self, after: Self) -> bool {
        self.streams.ready.receipts().len() < after.streams.ready.receipts().len()
    }
}

/// What comes of it when the stream that had the message fails.
proof fn failed_law<S: PatternStream>(
    before: PushView<S>,
    msg: S::Msg,
    error: S::Err,
    res: StatePoll<S>,
    after: PushView<S>,
)
    requires
        before.sound(),
        before.state.has_key(),
        before.failed(msg, error, res, after),
    ensures
        after.sound(),
        after.closing == before.closing,
        !(after.streams.turn is Lost),
        after.missing() == before.missing(),
        before.looks_on(after),
        res matches StatePoll::Poll(Poll::Ready(Err(_))) <==> after.out_of_streams(),
        match res {
            StatePoll::Poll(Poll::Ready(Ok(()))) => false,
            StatePoll::Poll(Poll::Ready(Err(error))) => {
                &&& error == PushError::<S>::NoStreams(msg)
                &&& after.state is Pending
                &&& after.out_of_streams()
            },
            _ => after.state.msg() == Some(msg),
        },
{
    let mid = choose|mid: Chain<S>| #[trigger]
        before.streams.gave_back(seq![Some(error)], mid) && (PushView {
            streams: mid,
            ..before
        }).assigned(msg, res, after);
    let freed = PushView { streams: mid, state: State::Msg(msg), closing: before.closing };
    stream_polled_law(freed, res, after);
}

/// What comes of a look at the state, while there is a message in hand that has a stream.
proof fn state_polled_law<S: PatternStream>(
    before: PushView<S>,
    msg: S::Msg,
    res: StatePoll<S>,
    after: PushView<S>,
)
    requires
        before.sound(),
        before.state.has_key(),
        before.state.msg() == Some(msg),
        before.state_polled(res, after),
    ensures
        after.sound(),
        after.closing == before.closing,
        !(after.streams.turn is Lost),
        after.missing() == before.missing(),
        res matches StatePoll::Poll(Poll::Ready(Err(_))) <==> before.looks_on(after)
            && after.out_of_streams(),
        match res {
            StatePoll::Poll(Poll::Ready(Ok(()))) => after.sent_last(msg),
            StatePoll::Poll(Poll::Ready(Err(error))) => {
                &&& error == PushError::<S>::NoStreams(msg)
                &&& after.state is Pending
                &&& after.out_of_streams()
            },
            _ => after.state.msg() == Some(msg),
        },
{
    match before.state {
        State::Readying(_, peer, key) => {
            let (ready, asked) = choose|ready: Poll<Result<(), S::Err>>, asked: Peer<S>| #[trigger]
                peer.called(Call::Ready(ready), asked) && match ready {
                    Poll::Pending => {
                        &&& after == PushView { state: State::Readying(msg, asked, key), ..before }
                        &&& res == StatePoll::<S>::Poll(Poll::Pending)
                    },
                    Poll::Ready(Err(error)) => before.failed(msg, error, res, after),
                    Poll::Ready(Ok(())) => before.handed_over(msg, asked, key, res, after),
                };
            call_is_proper(peer, Call::Ready(ready), asked);
            match ready {
                Poll::Pending => {},
                Poll::Ready(Err(error)) => {
                    failed_law(before, msg, error, res, after);
                },
                Poll::Ready(Ok(())) => {
                    let (handed, done, given) = choose|
                        handed: S::Msg,
                        done: Result<(), S::Err>,
                        given: Peer<S>,
                    | #[trigger]
                        asked.called(Call::Send(handed, done), given) && cloned(msg, handed)
                            && match done {
                            Ok(()) => {
                                &&& after == PushView {
                                    state: State::Sending(msg, given, key),
                                    ..before
                                }
                                &&& res is Continue
                            },
                            Err(error) => before.failed(msg, error, res, after),
                        };
                    call_is_proper(asked, Call::Send(handed, done), given);
                    match done {
                        Ok(()) => {},
                        Err(error) => {
                            failed_law(before, msg, error, res, after);
                        },
                    }
                },
            }
        },
        State::Sending(_, peer, key) => {
            let (flushed, asked) = choose|flushed: Poll<Result<(), S::Err>>, asked: Peer<S>| #[trigger]
                peer.called(Call::Flush(flushed), asked) && match flushed {
                    Poll::Pending => {
                        &&& after == PushView { state: State::Sending(msg, asked, key), ..before }
                        &&& res == StatePoll::<S>::Poll(Poll::Pending)
                    },
                    Poll::Ready(Err(error)) => before.failed(msg, error, res, after),
                    Poll::Ready(Ok(())) => {
                        &&& after.state is Pending
                        &&& after.closing == before.closing
                        &&& (Chain {
                            members: before.streams.members.push(asked),
                            ..before.streams
                        }).gave_back(Seq::empty(), after.streams)
                        &&& res == StatePoll::<S>::Poll(Poll::Ready(Ok(())))
                    },
                };
            call_is_proper(peer, Call::Flush(flushed), asked);
            match flushed {
                Poll::Ready(Err(error)) => {
                    failed_law(before, msg, error, res, after);
                },
                _ => {},
            }
        },
        _ => {},
    }
}

impl<S: PatternStream> PushView<S> {
    /// Nothing is in hand, and the last in line is a stream that has just sent `msg`.
    pub open spec fn sent_last(self, msg: S::Msg) -> bool {
        &&& self.state is Pending
        &&& self.streams.members.len() > 0
        &&& sent(self.streams.members.last().calls(), msg)
    }
}

/// **A message in hand is neither lost nor doubled.** However the streams fail, a flush leaves
/// the message in hand, or one stream has sent it and goes to the end of the line, or it is
/// handed back because there are no streams and can be none. All streams are used as they
/// should be, and none gets lost.
pub proof fn flush_keeps_the_message<S: PatternStream>(
    before: PushView<S>,
    msg: S::Msg,
    step: Step<Result<(), PushError<S>>>,
    after: PushView<S>,
)
    requires
        before.sound(),
        before.state.msg() == Some(msg),
        before.flushed(step, after),
    ensures
        after.sound(),
        after.closing == before.closing,
        !(before.streams.turn is Lost) ==> {
            &&& !(after.streams.turn is Lost)
            &&& after.missing() == before.missing()
        },
        match step {
            Step::Ready(Ok(())) => after.sent_last(msg),
            Step::Ready(Err(error)) => {
                &&& error == PushError::<S>::NoStreams(msg)
                &&& after.state is Pending
                &&& after.out_of_streams()
            },
            Step::Pending | Step::Again => after.state.msg() == Some(msg),
        },
{
    let (first, mid) = choose|first: StatePoll<S>, mid: PushView<S>| #[trigger]
        before.stream_polled(first, mid) && mid.looked(first, step, after);
    stream_polled_law(before, first, mid);
    if first is Continue {
        let second = choose|second: StatePoll<S>| #[trigger]
            mid.state_polled(second, after) && step == second.step_spec();
        state_polled_law(mid, msg, second, after);
    }
}

/// **Only want of streams fails.** A look at the state fails exactly if there is a message in hand
/// and, when a stream was looked for, there was none, and none can come. It gives that very message
/// back. It never says that a message is being sent already.
pub proof fn only_want_of_streams_fails<S: PatternStream>(
    before: PushView<S>,
    res: StatePoll<S>,
    after: PushView<S>,
)
    requires
        before.sound(),
        before.state_polled(res, after),
    ensures
        res matches StatePoll::Poll(Poll::Ready(Err(_))) <==> before.state.msg() is Some
            && before.looks_on(after) && after.out_of_streams(),
        res matches StatePoll::Poll(Poll::Ready(Err(error))) ==> {
            &&& before.state.msg() matches Some(msg)
            &&& error == PushError::<S>::NoStreams(msg)
            &&& after.state is Pending
        },
        before.state.msg() is Some && after.state is Pending ==> res matches StatePoll::Poll(
            Poll::Ready(_),
        ),
        before.state.msg() is None ==> after == before && res == StatePoll::<S>::Poll(
            Poll::Ready(Ok(())),
        ),
{
    match before.state {
        State::Msg(msg) => {
            stream_polled_law(before, res, after);
        },
        State::Readying(msg, _, _) | State::Sending(msg, _, _) => {
            state_polled_law(before, msg, res, after);
        },
        State::Pending | State::Stream(_, _) => {},
    }
}

/// **A flush with no message in hand does no harm.** It cannot fail, and there is no message in
/// hand afterwards either.
pub proof fn flush_at_rest<S: PatternStream>(
    before: PushView<S>,
    step: Step<Result<(), PushError<S>>>,
    after: PushView<S>,
)
    requires
        before.sound(),
        before.state.msg() is None,
        before.flushed(step, after),
    ensures
        after.sound(),
        after.state.msg() is None,
        after.closing == before.closing,
        after.streams.turn is Lost <==> before.streams.turn is Lost,
        after.missing() >= before.missing(),
        !(before.streams.turn is Lost) ==> after.missing() == before.missing(),
        step is Again || step == Step::<Result<(), PushError<S>>>::Ready(Ok(())),
{
    let (first, mid) = choose|first: StatePoll<S>, mid: PushView<S>| #[trigger]
        before.stream_polled(first, mid) && mid.looked(first, step, after);
    stream_polled_law(before, first, mid);
}

/// What comes of closing, with no message in hand.
proof fn close_law<S: PatternStream>(
    before: PushView<S>,
    step: Step<Result<(), PushError<S>>>,
    after: PushView<S>,
)
    requires
        before.sound(),
        before.state.msg() is None,
        before.close_polled(step, after),
    ensures
        after.sound(),
        after.state.msg() is None,
        !(step matches Step::Ready(Err(_))),
        step is Ready ==> after.is_empty(),
        before.streams.turn is Lost ==> after.streams.turn is Lost,
        before.undisturbed(after) ==> after.missing() == before.missing(),
        before.undisturbed(after) && after.streams.turn is Lost ==> after.streams.members.len() == 0,
{
    let (flush, mid) = choose|flush: Step<Result<(), PushError<S>>>, mid: PushView<S>| #[trigger]
        before.flushed(flush, mid) && if flush matches Step::Ready(Ok(())) {
            mid.shut().closing_polled(step, after)
        } else {
            after == mid && step == flush
        };
    flush_at_rest(before, flush, mid);
    if before.streams.turn is Lost {
        lost_line_stays_empty(before, flush, mid);
    }
    if flush matches Step::Ready(Ok(())) {
        let shut = mid.shut();
        let (asked, answer) = choose|
            asked: Seq<Peer<S>>,
            answer: Poll<Option<Result<(), S::Err>>>,
        | #[trigger]
            closed_round(shut.closing, asked, answer, after.closing) && after == (PushView {
                streams: Chain { done: after.streams.done, ..shut.streams },
                closing: after.closing,
                ..shut
            }) && match answer {
                Poll::Ready(Some(closed)) => {
                    &&& shut.streams.done.handing(seq![closed.err()], after.streams.done)
                    &&& step is Again
                },
                Poll::Ready(None) => {
                    &&& after.streams.done == shut.streams.done
                    &&& step == Step::<Result<(), PushError<S>>>::Ready(Ok(()))
                },
                Poll::Pending => {
                    &&& after.streams.done == shut.streams.done
                    &&& step is Pending
                },
            };
        assert forall|i: int| 0 <= i < shut.closing.len() implies good(
            #[trigger] shut.closing[i],
        ) by {
            let held = match mid.state {
                State::Stream(peer, _) => seq![peer],
                _ => Seq::empty(),
            };
            let at = i - mid.closing.len() - held.len();
            if at >= 0 {
                assert(shut.closing[i] == mid.streams.members[at]);
            }
        }
        closing_keeps_count(shut.closing, asked, answer, after.closing);
    }
}

impl<S: PatternStream> PushView<S> {
    /// No streams are here.
    pub open spec fn is_empty(self) -> bool {
        &&& self.streams.members.len() == 0
        &&& self.state.held() is None
        &&& self.closing.len() == 0
    }

    /// No stream is in line once the turn is lost.
    pub open spec fn cleared(self) -> bool {
        self.streams.turn is Lost ==> self.streams.members.len() == 0
    }

    /// No stream has joined meanwhile that came too late to get the turn.
    pub open spec fn on_time(self, after: Self) -> bool {
        self.streams.turn is Lost ==> arrivals(after.streams.ready.receipts()) == arrivals(
            self.streams.ready.receipts(),
        )
    }

    /// No stream is here, or has come, too late to get the turn.
    spec fn undisturbed(self, after: Self) -> bool {
        self.cleared() && self.on_time(after)
    }
}

/// Once the turn is lost, a line that nobody joins stays empty.
proof fn lost_line_stays_empty<S: PatternStream>(
    before: PushView<S>,
    step: Step<Result<(), PushError<S>>>,
    after: PushView<S>,
)
    requires
        before.sound(),
        before.state.msg() is None,
        before.streams.turn is Lost,
        before.flushed(step, after),
    ensures
        arrivals(after.streams.ready.receipts()) >= arrivals(before.streams.ready.receipts()),
        before.undisturbed(after) ==> after.streams.members.len() == 0 && after.missing()
            == before.missing(),
{
    let (first, mid) = choose|first: StatePoll<S>, mid: PushView<S>| #[trigger]
        before.stream_polled(first, mid) && mid.looked(first, step, after);
    stream_polled_law(before, first, mid);
    let (round, polled) = choose|round: Round<S>, polled: Step<Option<(Peer<S>, Key)>>| #[trigger]
        before.streams.polled(round, polled, after.streams);
    arrivals_concat(before.streams.ready.receipts(), round.receipts());
    arrivals_of_round(round);
}

impl<S: PatternStream> PushRunView<S> {
    /// The message at work, with its promise.
    pub open spec fn job(self) -> Option<(S::Msg, QPromise)> {
        match self.phase {
            Phase::Feeding(msg, owed) => Some((msg, owed.promise())),
            Phase::Flushing(owed) => Some((self.push.state.msg().unwrap(), owed.promise())),
            Phase::Idle | Phase::Closing | Phase::Finished => None,
        }
    }

    /// The streams are in order. There is a message in hand just while it is flushed. The
    /// turn is not lost before it is time to close, and no streams are left at the end.
    pub open spec fn sound(self) -> bool {
        &&& self.push.sound()
        &&& self.push.state.msg() is Some <==> self.phase is Flushing
        &&& self.push.streams.turn is Lost ==> self.phase is Closing || self.phase is Finished
        &&& self.phase is Finished ==> self.push.is_empty()
    }

    /// A message was asked for, and this is what came.
    pub open spec fn took_job(self, after: Self, job: (S::Msg, QPromise)) -> bool {
        &&& after.job() == Some(job)
        &&& self.msgs.asked(Receipt::Polled(Poll::Ready(Some(job))), after.msgs)
        &&& after.kept == self.kept
    }

    /// No message has come.
    pub open spec fn took_none(self, after: Self) -> bool {
        &&& after.job() is None
        &&& taken(after.msgs.receipts()) == taken(self.msgs.receipts())
        &&& after.kept == self.kept
    }

    /// The message at work is still at work.
    pub open spec fn goes_on(self, after: Self) -> bool {
        &&& after.job() == self.job()
        &&& after.msgs == self.msgs
        &&& after.kept == self.kept
    }

    /// The message at work is through: the last stream in line has just sent it, and its
    /// promise is kept.
    pub open spec fn finished_job(self, after: Self, job: (S::Msg, QPromise)) -> bool {
        &&& self.job() == Some(job)
        &&& after.job() is None
        &&& after.push.sent_last(job.0)
        &&& after.kept == self.kept.push((job.1, ()))
        &&& after.msgs == self.msgs
    }

    /// The message at work was given up: there are no streams, and can be none.
    pub open spec fn gave_up(self, after: Self) -> bool {
        &&& self.job() is Some
        &&& after.phase is Closing
        &&& after.push.out_of_streams()
        &&& after.kept == self.kept
        &&& after.msgs == self.msgs
    }
}

impl<S: PatternStream> PushRunView<S> {
    /// The machine was just made.
    pub open spec fn begins(self) -> bool {
        &&& self.push.streams.members.len() == 0
        &&& self.push.streams.turn is Free
        &&& self.push.streams.ready.receipts().len() == 0
        &&& self.push.streams.done.handed().len() == 0
        &&& self.push.state is Pending
        &&& self.push.closing.len() == 0
        &&& self.msgs.receipts().len() == 0
        &&& self.phase is Idle
        &&& self.kept.len() == 0
    }

    /// `after` is what may come of one poll.
    pub open spec fn leads_to(self, after: Self) -> bool {
        exists|step: Step<()>| #[trigger] self.polled(step, after)
    }
}

/// A machine that was just made is in order.
pub proof fn push_starts_sound<S: PatternStream>(run: PushRunView<S>)
    requires
        run.begins(),
    ensures
        run.sound(),
        run.in_order(),
        run.push.missing() == 0,
{
    assert(promised(taken(run.msgs.receipts())) =~= fulfilled(run.kept));
}

/// **Pushing works message by message.** The machine stays in order. A message is taken only
/// when none is at work. The one at work goes on until a stream has sent it, and only then is
/// its promise kept; or it is given up when there are no streams and can be none.
pub proof fn push_step<S: PatternStream>(
    before: PushRunView<S>,
    step: Step<()>,
    after: PushRunView<S>,
)
    requires
        before.sound(),
        before.polled(step, after),
    ensures
        after.sound(),
        match before.job() {
            Some(job) => before.goes_on(after) || before.finished_job(after, job)
                || before.gave_up(after),
            None => {
                ||| exists|job: (S::Msg, QPromise)| #[trigger] before.took_job(after, job)
                ||| before.took_none(after)
            },
        },
        before.phase is Closing || before.phase is Finished ==> after.job() is None
            && !(after.phase is Idle),
        step is Ready <==> after.phase is Finished,
{
    match before.phase {
        Phase::Idle => {
            let (flush, push) = choose|flush: Step<Result<(), PushError<S>>>, push: PushView<S>| #[trigger]
                before.push.flushed(flush, push) && before.idled(flush, push, step, after);
            flush_at_rest(before.push, flush, push);
            if flush is Ready {
                let received = choose|received: Poll<Option<(S::Msg, Owed<S::Msg>)>>| #[trigger]
                    before.msgs.asked(Receipt::Polled(plain(received)), after.msgs) && after == (
                    PushRunView {
                        push,
                        msgs: after.msgs,
                        phase: match received {
                            Poll::Ready(Some((msg, owed))) => Phase::Feeding(msg, owed),
                            Poll::Ready(None) => Phase::Closing,
                            Poll::Pending => Phase::Idle,
                        },
                        ..before
                    }) && step == if received is Ready {
                        Step::<()>::Again
                    } else {
                        Step::Pending
                    };
                taken_push(before.msgs.receipts(), Receipt::Polled(plain(received)));
                match received {
                    Poll::Ready(Some((msg, owed))) => {
                        assert(before.took_job(after, (msg, owed.promise())));
                    },
                    _ => {},
                }
            }
        },
        Phase::Feeding(msg, owed) => {
            let (flush, push) = choose|flush: Step<Result<(), PushError<S>>>, push: PushView<S>| #[trigger]
                before.push.flushed(flush, push) && before.fed(
                    msg,
                    owed,
                    flush,
                    push,
                    step,
                    after,
                );
            flush_at_rest(before.push, flush, push);
        },
        Phase::Flushing(owed) => {
            let (flush, push) = choose|flush: Step<Result<(), PushError<S>>>, push: PushView<S>| #[trigger]
                before.push.flushed(flush, push) && before.flushed(
                    owed,
                    flush,
                    push,
                    step,
                    after,
                );
            flush_keeps_the_message(before.push, before.push.state.msg().unwrap(), flush, push);
        },
        Phase::Closing => {
            let (close, push) = choose|close: Step<Result<(), PushError<S>>>, push: PushView<S>| #[trigger]
                before.push.close_polled(close, push) && before.closed(close, push, step, after);
            close_law(before.push, close, push);
        },
        Phase::Finished => {},
    }
}

/// **Each stream is reported once.** By the end, as many streams were reported as have ever
/// joined, unless one joins after the others have begun to close.
pub proof fn push_reports_each_stream<S: PatternStream>(
    before: PushRunView<S>,
    step: Step<()>,
    after: PushRunView<S>,
)
    requires
        before.sound(),
        before.push.cleared(),
        before.push.missing() == 0,
        before.polled(step, after),
        before.push.on_time(after.push),
    ensures
        after.push.cleared(),
        after.push.missing() == 0,
        after.phase is Finished ==> after.push.streams.done.handed().len() == arrivals(
            after.push.streams.ready.receipts(),
        ),
{
    push_step(before, step, after);
    match before.phase {
        Phase::Idle => {
            let (flush, push) = choose|flush: Step<Result<(), PushError<S>>>, push: PushView<S>| #[trigger]
                before.push.flushed(flush, push) && before.idled(flush, push, step, after);
            flush_at_rest(before.push, flush, push);
        },
        Phase::Feeding(msg, owed) => {
            let (flush, push) = choose|flush: Step<Result<(), PushError<S>>>, push: PushView<S>| #[trigger]
                before.push.flushed(flush, push) && before.fed(
                    msg,
                    owed,
                    flush,
                    push,
                    step,
                    after,
                );
            flush_at_rest(before.push, flush, push);
        },
        Phase::Flushing(owed) => {
            let (flush, push) = choose|flush: Step<Result<(), PushError<S>>>, push: PushView<S>| #[trigger]
                before.push.flushed(flush, push) && after.push == push;
            flush_keeps_the_message(before.push, before.push.state.msg().unwrap(), flush, push);
        },
        Phase::Closing => {
            let (close, push) = choose|close: Step<Result<(), PushError<S>>>, push: PushView<S>| #[trigger]
                before.push.close_polled(close, push) && after.push == push;
            close_law(before.push, close, push);
        },
        Phase::Finished => {},
    }
}

impl<S: PatternStream> PushRunView<S> {
    /// The promises that were kept are those that came with the messages, in the order in which
    /// they came, but for that of the message at work, or of the one that was given up.
    pub open spec fn in_order(self) -> bool {
        let came = promised(taken(self.msgs.receipts()));
        let kept = fulfilled(self.kept);
        match self.job() {
            Some((_, promise)) => came == kept.push(promise),
            None => {
                ||| came == kept
                ||| !(self.phase is Idle) && came.len() > 0 && came.drop_last() == kept
            },
        }
    }
}

/// **Promises are kept in order, and each once.**
pub proof fn push_keeps_order<S: PatternStream>(
    before: PushRunView<S>,
    step: Step<()>,
    after: PushRunView<S>,
)
    requires
        before.sound(),
        before.in_order(),
        before.polled(step, after),
    ensures
        after.in_order(),
{
    push_step(before, step, after);
    let came = promised(taken(before.msgs.receipts()));
    let kept = fulfilled(before.kept);
    match before.job() {
        Some((msg, promise)) => {
            if before.finished_job(after, (msg, promise)) {
                assert(fulfilled(after.kept) =~= kept.push(promise));
            } else if before.gave_up(after) {
                assert(came.drop_last() =~= kept);
            }
        },
        None => {
            if exists|job: (S::Msg, QPromise)| #[trigger] before.took_job(after, job) {
                let job = choose|job: (S::Msg, QPromise)| #[trigger] before.took_job(after, job);
                taken_push(before.msgs.receipts(), Receipt::Polled(Poll::Ready(Some(job))));
                assert(promised(taken(after.msgs.receipts())) =~= came.push(job.1));
            }
        },
    }
}

/// The next of these may come of one poll.
pub open spec fn moves_on<S: PatternStream>(history: Seq<PushRunView<S>>, i: int) -> bool {
    history[i].leads_to(history[i + 1])
}

/// No stream joins from one of these to the next after the others have begun to close.
pub open spec fn is_on_time<S: PatternStream>(history: Seq<PushRunView<S>>, i: int) -> bool {
    history[i].push.on_time(history[i + 1].push)
}

/// **All this holds at all times.** However often a machine is polled after it was made, and whatever
/// the streams and channels answer, it is in order, and its promises are kept in order and each once.
pub proof fn push_always<S: PatternStream>(history: Seq<PushRunView<S>>, n: int)
    requires
        0 <= n < history.len(),
        history[0].begins(),
        forall|i: int| 0 <= i < history.len() - 1 ==> #[trigger] moves_on(history, i),
    ensures
        history[n].sound(),
        history[n].in_order(),
    decreases n,
{
    if n == 0 {
        push_starts_sound(history[0]);
    } else {
        push_always(history, n - 1);
        assert(moves_on(history, n - 1));
        let step = choose|step: Step<()>| #[trigger] history[n - 1].polled(step, history[n]);
        push_step(history[n - 1], step, history[n]);
        push_keeps_order(history[n - 1], step, history[n]);
    }
}

/// **At all times each stream is here or was reported.** Left out is that a stream joins after the
/// others have begun to close.
pub proof fn push_always_accounts<S: PatternStream>(history: Seq<PushRunView<S>>, n: int)
    requires
        0 <= n < history.len(),
        history[0].begins(),
        forall|i: int| 0 <= i < history.len() - 1 ==> #[trigger] moves_on(history, i),
        forall|i: int| 0 <= i < history.len() - 1 ==> #[trigger] is_on_time(history, i),
    ensures
        history[n].push.missing() == 0,
        history[n].push.cleared(),
        history[n].phase is Finished ==> history[n].push.streams.done.handed().len() == arrivals(
            history[n].push.streams.ready.receipts(),
        ),
    decreases n,
{
    if n == 0 {
        push_starts_sound(history[0]);
    } else {
        push_always_accounts(history, n - 1);
        push_always(history, n - 1);
        assert(moves_on(history, n - 1) && is_on_time(history, n - 1));
        let step = choose|step: Step<()>| #[trigger] history[n - 1].polled(step, history[n]);
        push_reports_each_stream(history[n - 1], step, history[n]);
    }
}

impl<S: PatternStream> PushView<S> {
    /// What the message in hand waits for will wake the task: the stream that it has, or those that
    /// it may get. So will the place that new streams come from, unless it is at its end.
    pub open spec fn will_wake(self) -> bool {
        &&& inbox_watched(self.streams.ready.receipts())
        &&& match self.state.held() {
            Some(peer) => will_wake(peer.calls()),
            None => all_will_wake(self.streams.members),
        }
    }
}

/// A look at the streams, after which there is nothing more to do with them at once.
proof fn looked_will_wake<S: PatternStream>(
    before: PushView<S>,
    res: StatePoll<S>,
    after: PushView<S>,
)
    requires
        before.sound(),
        before.stream_polled(res, after),
        !(res is Again),
    ensures
        inbox_watched(after.streams.ready.receipts()),
        after.state == before.state ==> all_will_wake(after.streams.members),
{
    let (round, step) = choose|round: Round<S>, step: Step<Option<(Peer<S>, Key)>>| #[trigger]
        before.streams.polled(round, step, after.streams) && after.closing == before.closing && (
        after.state,
        res,
    ) == match step {
            Step::Ready(ready) => before.state.on_streams_spec(Poll::Ready(ready)),
            Step::Pending => before.state.on_streams_spec(Poll::Pending),
            Step::Again => (before.state, StatePoll::Again),
        };
    look_will_wake(before.streams, round, step, after.streams);
    if !(before.streams.turn is Free) {
        no_stream_without_the_turn(before.streams, round, step, after.streams);
    }
}

/// A flush with no message in hand is a look at the streams.
proof fn flush_at_rest_looks<S: PatternStream>(
    before: PushView<S>,
    step: Step<Result<(), PushError<S>>>,
    after: PushView<S>,
)
    requires
        before.sound(),
        before.state.msg() is None,
        before.flushed(step, after),
        !(step is Again),
    ensures
        inbox_watched(after.streams.ready.receipts()),
        after.state == before.state ==> all_will_wake(after.streams.members),
        before.state is Pending ==> after.state == before.state || after.state is Stream,
        before.state is Stream ==> after.state == before.state,
{
    let (first, mid) = choose|first: StatePoll<S>, mid: PushView<S>| #[trigger]
        before.stream_polled(first, mid) && mid.looked(first, step, after);
    stream_polled_law(before, first, mid);
    looked_will_wake(before, first, mid);
}

/// A look at the state that comes to nothing.
proof fn state_will_wake<S: PatternStream>(
    before: PushView<S>,
    msg: S::Msg,
    after: PushView<S>,
)
    requires
        before.sound(),
        before.state.has_key(),
        before.state.msg() == Some(msg),
        inbox_watched(before.streams.ready.receipts()),
        before.state_polled(StatePoll::Poll(Poll::Pending), after),
    ensures
        after.will_wake(),
        after.state.held() is Some ==> after.streams == before.streams,
{
    let res = StatePoll::<S>::Poll(Poll::Pending);
    if after.state is Msg {
        let (error, mid) = choose|error: S::Err, mid: Chain<S>| #[trigger]
            before.streams.gave_back(seq![Some(error)], mid) && (PushView {
                streams: mid,
                ..before
            }).assigned(msg, res, after);
        let freed = PushView { streams: mid, state: State::Msg(msg), closing: before.closing };
        looked_will_wake(freed, res, after);
    }
}

impl<S: PatternStream> PushRunView<S> {
    /// What it waits for will wake the task.
    pub open spec fn will_wake(self) -> bool {
        match self.phase {
            Phase::Idle => {
                &&& inbox_will_wake(self.msgs.receipts())
                &&& inbox_watched(self.push.streams.ready.receipts())
            },
            Phase::Flushing(_) => self.push.will_wake(),
            Phase::Closing => all_will_wake(self.push.closing),
            Phase::Feeding(_, _) | Phase::Finished => false,
        }
    }
}

/// **No wake-up is missed.** When nothing can be done now, what is waited for was just asked and will
/// wake the task: the message channel, or the stream that has the message; the place that new streams
/// come from, unless it is at its end; and the streams in line, unless one of them was handed out in
/// this very poll.
pub proof fn push_will_wake<S: PatternStream>(
    before: PushRunView<S>,
    step: Step<()>,
    after: PushRunView<S>,
)
    requires
        before.sound(),
        before.polled(step, after),
        step is Pending,
    ensures
        after.will_wake(),
        (before.phase is Idle || before.phase is Flushing) && !(before.push.state.held() is None
            && after.push.state.held() is Some) ==> all_will_wake(after.push.streams.members),
{
    push_step(before, step, after);
    match before.phase {
        Phase::Idle => {
            let (flush, push) = choose|flush: Step<Result<(), PushError<S>>>, push: PushView<S>| #[trigger]
                before.push.flushed(flush, push) && before.idled(flush, push, step, after);
            flush_at_rest(before.push, flush, push);
            flush_at_rest_looks(before.push, flush, push);
        },
        Phase::Feeding(_, _) => {
            let (flush, push) = choose|flush: Step<Result<(), PushError<S>>>, push: PushView<S>| #[trigger]
                before.push.flushed(flush, push) && flush is Pending;
            flush_at_rest(before.push, flush, push);
        },
        Phase::Flushing(_) => {
            let flush = Step::<Result<(), PushError<S>>>::Pending;
            let msg = before.push.state.msg().unwrap();
            let (first, mid) = choose|first: StatePoll<S>, mid: PushView<S>| #[trigger]
                before.push.stream_polled(first, mid) && mid.looked(first, flush, after.push);
            stream_polled_law(before.push, first, mid);
            if first is Continue {
                looked_will_wake(before.push, first, mid);
                state_will_wake(mid, msg, after.push);
            } else {
                looked_will_wake(before.push, first, mid);
            }
        },
        Phase::Closing => {
            let close = Step::<Result<(), PushError<S>>>::Pending;
            let (flush, mid) = choose|
                flush: Step<Result<(), PushError<S>>>,
                mid: PushView<S>,
            | #[trigger]
                before.push.flushed(flush, mid) && if flush matches Step::Ready(Ok(())) {
                    mid.shut().closing_polled(close, after.push)
                } else {
                    after.push == mid && close == flush
                };
            flush_at_rest(before.push, flush, mid);
            let asked = choose|asked: Seq<Peer<S>>| #[trigger]
                closed_round(
                    mid.shut().closing,
                    asked,
                    Poll::<Option<Result<(), S::Err>>>::Pending,
                    after.push.closing,
                );
            closing_will_wake(mid.shut().closing, asked, after.push.closing);
        },
        Phase::Finished => {},
    }
}

} // verus!
