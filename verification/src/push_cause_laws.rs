//! When pushing ends, what it waits for until then, and that it gets on.
use crate::calls::{all_will_wake, will_wake};
use crate::channel::Receipt;
use crate::close_laws::closing_will_wake;
use crate::exchange_laws::{closing_in_step, course, one_at_a_time, unsent};
use crate::line_laws::some_has_more;
use crate::owned_close::closed_round;
use crate::promise::{plain, Owed, QPromise};
use crate::pub_laws::said_closed;
use crate::push_exchange_laws::a_message_is_handed_over_once;
use crate::push_impl::{Phase, PushError, PushRunView, PushView, State, StatePoll};
use crate::push_laws::{
    flush_at_rest, flush_keeps_the_message, moves_on, push_always, push_step, stream_polled_law,
};
use crate::push_stream::{Chain, Key, Round};
use crate::stream::{PatternStream, Peer};
use crate::task::Step;
use core::task::Poll;
use vstd::prelude::*;

verus! {

impl<S: PatternStream> PushRunView<S> {
    /// A message was asked for, and this came.
    pub open spec fn hears(self, received: Poll<Option<(S::Msg, QPromise)>>, after: Self) -> bool {
        self.msgs.asked(Receipt::Polled(received), after.msgs)
    }

    /// It has got somewhere with the streams: one has joined, or had a message, or was reported.
    pub open spec fn got_on(self, after: Self) -> bool {
        ||| after.push.has_comer()
        ||| some_has_more(after.push.streams.members)
        ||| after.push.streams.done.handed().len() > self.push.streams.done.handed().len()
    }
}

/// What closing comes to.
proof fn close_for_cause<S: PatternStream>(
    before: PushView<S>,
    step: Step<Result<(), PushError<S>>>,
    after: PushView<S>,
)
    requires
        before.sound(),
        before.in_step(),
        before.state.msg() is None,
        before.close_polled(step, after),
    ensures
        after.in_step(),
        step is Pending ==> after.closing.len() > 0 && all_will_wake(after.closing),
        step is Ready ==> step == Step::<Result<(), PushError<S>>>::Ready(Ok(())) && after.is_empty(),
        step is Again ==> {
            ||| after.has_comer()
            ||| some_has_more(after.streams.members)
            ||| after.streams.done.handed().len() > before.streams.done.handed().len()
        },
{
    let (flush, mid) = choose|flush: Step<Result<(), PushError<S>>>, mid: PushView<S>| #[trigger]
        before.flushed(flush, mid) && if flush matches Step::Ready(Ok(())) {
            mid.shut().closing_polled(step, after)
        } else {
            after == mid && step == flush
        };
    flush_at_rest(before, flush, mid);
    a_message_is_handed_over_once(before, flush, mid);
    if flush matches Step::Ready(Ok(_)) {
        let shut = mid.shut();
        let (asked, answer) = choose|
            asked: Seq<Peer<S>>,
            answer: Poll<Option<Result<(), S::Err>>>,
        | #[trigger]
            closed_round(shut.closing, asked, answer, after.closing) && after == (PushView {
                streams: Chain { done: after.streams.done, ..shut.streams },
                closing: after.closing,
                ..shut
            }) && match answer {
                Poll::Ready(Some(closed)) => {
                    &&& shut.streams.done.handing(seq![closed.err()], after.streams.done)
                    &&& step is Again
                },
                Poll::Ready(None) => {
                    &&& after.streams.done == shut.streams.done
                    &&& step == Step::<Result<(), PushError<S>>>::Ready(Ok(()))
                },
                Poll::Pending => {
                    &&& after.streams.done == shut.streams.done
                    &&& step is Pending
                },
            };
        assert forall|i: int| 0 <= i < shut.closing.len() implies {
            ||| course(
                (#[trigger] shut.closing[i]).calls(),
                false,
            ) is Rest
            ||| course(shut.closing[i].calls(), false) is Closing
        } by {
            let held = match mid.state {
                State::Stream(peer, _) => seq![peer],
                _ => Seq::empty(),
            };
            let at = i - mid.closing.len() - held.len();
            if at >= 0 {
                assert(shut.closing[i] == mid.streams.members[at]);
            } else if i < mid.closing.len() {
                assert(shut.closing[i] == mid.closing[i]);
            } else {
                assert(shut.closing[i] == held[0]);
            }
        }
        closing_in_step(shut.closing, asked, answer, after.closing, false);
        if step is Pending {
            closing_will_wake(shut.closing, asked, after.closing);
        }
    }
}

/// **Streams are not closed while a message is in hand.** It is seen through first. Closing fails only
/// if there are no streams for it, and none can come.
pub proof fn closing_waits_for_the_message<S: PatternStream>(
    before: PushView<S>,
    step: Step<Result<(), PushError<S>>>,
    after: PushView<S>,
)
    requires
        before.sound(),
        before.in_step(),
        before.state.msg() is Some,
        !(before.streams.turn is Lost),
        before.close_polled(step, after),
    ensures
        after.state.msg() is Some ==> after.closing == before.closing,
        step matches Step::Ready(Err(error)) ==> {
            &&& error == PushError::<S>::NoStreams(before.state.msg().unwrap())
            &&& after.closing == before.closing
            &&& after.state.held() is None
            &&& after.out_of_streams()
        },
        step == Step::<Result<(), PushError<S>>>::Ready(Ok(())) ==> after.is_empty(),
{
    let (flush, mid) = choose|flush: Step<Result<(), PushError<S>>>, mid: PushView<S>| #[trigger]
        before.flushed(flush, mid) && if flush matches Step::Ready(Ok(())) {
            mid.shut().closing_polled(step, after)
        } else {
            after == mid && step == flush
        };
    flush_keeps_the_message(before, before.state.msg().unwrap(), flush, mid);
    a_message_is_handed_over_once(before, flush, mid);
}

/// **Pushing ends, and waits, only for cause.** While it waits for a message, it turns to closing
/// exactly when no more messages come. While one is at work, it does so exactly if there are no
/// streams, in line or in hand, and it was just said that none can come. Until then nothing can be
/// done at once only for one of these reasons: no message has come, when one was just asked for;
/// the stream that has the message has something to do, and will wake the task; there is no stream
/// for it. At the end some stream is not closed yet, and it is done exactly when all are. Whenever
/// there is more to do at once, it has got somewhere.
pub proof fn push_ends_for_cause<S: PatternStream>(
    before: PushRunView<S>,
    step: Step<()>,
    after: PushRunView<S>,
)
    requires
        before.sound(),
        before.push.in_step(),
        before.polled(step, after),
    ensures
        after.push.in_step(),
        before.phase is Idle ==> {
            &&& after.phase is Idle || after.phase is Feeding || after.phase is Closing
            &&& after.phase is Closing <==> before.hears(Poll::Ready(None), after)
            &&& step is Pending ==> after.phase is Idle && before.hears(Poll::Pending, after)
            &&& step is Again && after.phase is Idle ==> before.got_on(after)
        },
        before.phase is Feeding ==> {
            &&& after.phase == before.phase || after.phase is Flushing
            &&& step is Again
            &&& after.phase == before.phase ==> before.got_on(after)
            &&& after.msgs == before.msgs
        },
        before.phase is Flushing ==> {
            &&& after.phase == before.phase || after.phase is Idle || after.phase is Closing
            &&& after.phase is Closing <==> after.push.state.held() is None
                && after.push.out_of_streams()
            &&& after.phase is Idle <==> after.kept.len() == before.kept.len() + 1
            &&& step is Pending ==> after.phase == before.phase && match after.push.state.held() {
                Some(peer) => will_wake(peer.calls()),
                None => after.push.lacks_streams(),
            }
            &&& step is Again && after.phase == before.phase ==> before.got_on(after)
                || after.push.state.rank() > before.push.state.rank()
            &&& after.msgs == before.msgs
        },
        before.phase is Closing ==> {
            &&& after.phase is Closing || after.phase is Finished
            &&& after.phase is Finished ==> after.push.is_empty()
            &&& step is Pending ==> after.push.closing.len() > 0 && all_will_wake(
                after.push.closing,
            )
            &&& step is Again ==> before.got_on(after)
            &&& after.msgs == before.msgs
        },
        before.phase is Finished ==> after == before,
        step is Ready <==> after.phase is Finished,
{
    push_step(before, step, after);
    let known = before.msgs.receipts();
    assert forall|receipt: Receipt<(S::Msg, QPromise)>| #[trigger]
        known.push(receipt).last() == receipt && known.push(receipt).len() == known.len() + 1 by {}
    match before.phase {
        Phase::Idle => {
            let (flush, push) = choose|flush: Step<Result<(), PushError<S>>>, push: PushView<S>| #[trigger]
                before.push.flushed(flush, push) && before.idled(flush, push, step, after);
            flush_at_rest(before.push, flush, push);
            a_message_is_handed_over_once(before.push, flush, push);
            if flush is Ready {
                let received = choose|received: Poll<Option<(S::Msg, Owed<S::Msg>)>>| #[trigger]
                    before.msgs.asked(Receipt::Polled(plain(received)), after.msgs) && after == (
                    PushRunView {
                        push,
                        msgs: after.msgs,
                        phase: match received {
                            Poll::Ready(Some((msg, owed))) => Phase::Feeding(msg, owed),
                            Poll::Ready(None) => Phase::Closing,
                            Poll::Pending => Phase::Idle,
                        },
                        ..before
                    }) && step == if received is Ready {
                        Step::<()>::Again
                    } else {
                        Step::Pending
                    };
                assert(after.msgs.receipts().last() == Receipt::Polled(plain(received)));
            }
        },
        Phase::Feeding(msg, owed) => {
            let (flush, push) = choose|flush: Step<Result<(), PushError<S>>>, push: PushView<S>| #[trigger]
                before.push.flushed(flush, push) && before.fed(
                    msg,
                    owed,
                    flush,
                    push,
                    step,
                    after,
                );
            flush_at_rest(before.push, flush, push);
            a_message_is_handed_over_once(before.push, flush, push);
        },
        Phase::Flushing(owed) => {
            let (flush, push) = choose|flush: Step<Result<(), PushError<S>>>, push: PushView<S>| #[trigger]
                before.push.flushed(flush, push) && before.flushed(
                    owed,
                    flush,
                    push,
                    step,
                    after,
                );
            a_message_is_handed_over_once(before.push, flush, push);
        },
        Phase::Closing => {
            let (close, push) = choose|close: Step<Result<(), PushError<S>>>, push: PushView<S>| #[trigger]
                before.push.close_polled(close, push) && before.closed(close, push, step, after);
            close_for_cause(before.push, close, push);
        },
        Phase::Finished => {},
    }
}

impl<S: PatternStream> PushRunView<S> {
    /// There is a cause to end: no more messages come, or it was said that no more streams can come.
    pub open spec fn has_cause(self) -> bool {
        ||| said_closed(self.push.streams.ready.receipts())
        ||| exists|i: int|
            0 <= i < self.msgs.receipts().len() && #[trigger] self.msgs.receipts()[i]
                == Receipt::<(S::Msg, QPromise)>::Polled(Poll::Ready(None))
    }
}

/// A record only grows.
proof fn said_stays_said<S>(before: Seq<Receipt<S>>, after: Seq<Receipt<S>>)
    requires
        said_closed(before),
        before.len() <= after.len(),
        after.take(before.len() as int) == before,
    ensures
        said_closed(after),
{
    let i = choose|i: int|
        0 <= i < before.len() && #[trigger] before[i] == Receipt::<S>::Closed(true);
    assert(after.take(before.len() as int)[i] == after[i]);
}

/// **Each stream has one message at a time, and pushing goes on unless there is a cause.** However
/// often a machine is polled, a stream that has taken a message has not been handed another one,
/// nor the same one again, before it has said that it is sent. Unless it was said that no more
/// streams can come, or that no more messages do, messages are taken and handed over.
pub proof fn push_always_in_step<S: PatternStream>(history: Seq<PushRunView<S>>, n: int)
    requires
        0 <= n < history.len(),
        history[0].begins(),
        forall|i: int| 0 <= i < history.len() - 1 ==> #[trigger] moves_on(history, i),
    ensures
        history[n].push.in_step(),
        history[n].phase is Closing || history[n].phase is Finished ==> history[n].has_cause(),
        forall|i: int|
            0 <= i < history[n].push.streams.members.len() ==> unsent(
                (#[trigger] history[n].push.streams.members[i]).calls(),
            ) == 0,
        history[n].push.state.held() matches Some(peer) ==> unsent(peer.calls()) <= 1,
    decreases n,
{
    if n > 0 {
        let before = history[n - 1];
        let after = history[n];
        push_always_in_step(history, n - 1);
        push_always(history, n - 1);
        assert(moves_on(history, n - 1));
        let step = choose|step: Step<()>| #[trigger] before.polled(step, after);
        push_ends_for_cause(before, step, after);
        let receipts = after.push.streams.ready.receipts();
        let heard = after.msgs.receipts();
        if before.phase is Idle && after.phase is Closing {
            assert(heard[heard.len() - 1] == Receipt::<(S::Msg, QPromise)>::Polled(
                Poll::Ready(None),
            ));
        } else if before.phase is Flushing && after.phase is Closing {
            assert(receipts[receipts.len() - 1] == Receipt::<S>::Closed(true));
        } else if before.phase is Closing && said_closed(before.push.streams.ready.receipts()) {
            let (close, push) = choose|
                close: Step<Result<(), PushError<S>>>,
                push: PushView<S>,
            | #[trigger]
                before.push.close_polled(close, push) && after.push == push;
            record_grows(before.push, close, push);
            said_stays_said(before.push.streams.ready.receipts(), receipts);
        }
    }
    let push = history[n].push;
    assert forall|i: int| 0 <= i < push.streams.members.len() implies unsent(
        (#[trigger] push.streams.members[i]).calls(),
    ) == 0 by {
        one_at_a_time(push.streams.members[i].calls(), false);
    }
    match push.state.held() {
        Some(peer) => {
            one_at_a_time(peer.calls(), false);
        },
        None => {},
    }
}

/// What was asked of the place that new streams come from stays asked.
proof fn record_grows<S: PatternStream>(
    before: PushView<S>,
    step: Step<Result<(), PushError<S>>>,
    after: PushView<S>,
)
    requires
        before.sound(),
        before.state.msg() is None,
        before.close_polled(step, after),
    ensures
        before.streams.ready.receipts().len() <= after.streams.ready.receipts().len(),
        after.streams.ready.receipts().take(before.streams.ready.receipts().len() as int)
            == before.streams.ready.receipts(),
{
    let (flush, mid) = choose|flush: Step<Result<(), PushError<S>>>, mid: PushView<S>| #[trigger]
        before.flushed(flush, mid) && if flush matches Step::Ready(Ok(())) {
            mid.shut().closing_polled(step, after)
        } else {
            after == mid && step == flush
        };
    flush_at_rest(before, flush, mid);
    assert(after.streams.ready == mid.streams.ready);
    let receipts = before.streams.ready.receipts();
    let (first, seen) = choose|
        first: StatePoll<S>,
        seen: PushView<S>,
    | #[trigger]
        before.stream_polled(first, seen) && seen.looked(first, flush, mid);
    stream_polled_law(before, first, seen);
    assert(mid == seen);
    let (round, polled) = choose|
        round: Round<S>,
        polled: Step<Option<(Peer<S>, Key)>>,
    | #[trigger]
        before.streams.polled(round, polled, seen.streams);
    assert(seen.streams.ready.receipts().take(receipts.len() as int) =~= receipts);
}

} // verus!
