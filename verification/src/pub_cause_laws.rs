//! What publishing waits for, and that it gets on.
use crate::calls::{all_will_wake, will_wake};
use crate::channel::Receipt;
use crate::close_laws::closing_will_wake;
use crate::owned_close::closed_round;
use crate::promise::{plain, Owed};
use crate::pub_impl::{
    remain, Phase, PubAnswers, PubHand, PubRound, PubRunView, PubStream, PubView,
};
use crate::pub_laws::remain_are_not_gone;
use crate::pub_report_laws::peers_of;
use crate::stream::{Call, PatternStream, Peer};
use crate::task::Step;
use core::task::Poll;
use vstd::prelude::*;

verus! {

/// When the stream was last asked whether it is ready, since it was last handed a message, it was not.
pub open spec fn not_ready_yet<M, E>(calls: Seq<Call<M, E>>) -> bool
    decreases calls.len(),
{
    &&& calls.len() > 0
    &&& match calls.last() {
        Call::Ready(answer) => answer is Pending,
        Call::Send(_, _) => false,
        _ => not_ready_yet(calls.drop_last()),
    }
}

/// When the stream was last asked whether it has sent all, it had not.
pub open spec fn not_sent_yet<M, E>(calls: Seq<Call<M, E>>) -> bool
    decreases calls.len(),
{
    &&& calls.len() > 0
    &&& match calls.last() {
        Call::Flush(answer) => answer is Pending,
        _ => not_sent_yet(calls.drop_last()),
    }
}

/// A message came from the stream when it was last asked something.
pub open spec fn had_message<M, E>(calls: Seq<Call<M, E>>) -> bool {
    &&& calls.len() > 0
    &&& calls.last() matches Call::Next(Poll::Ready(Some(Ok(_))))
}

/// The stream will wake the task: the last thing that was asked of it is pending, or it was just
/// asked whether it is ready, and is not, and whether it has sent all, and has.
pub open spec fn dozes<M, E>(calls: Seq<Call<M, E>>) -> bool {
    ||| will_wake(calls)
    ||| calls.len() > 1 && calls.last() == Call::<M, E>::Flush(Poll::Ready(Ok(())))
        && calls[calls.len() - 2] == Call::<M, E>::Ready(Poll::Pending)
}

/// Some of these are not ready.
pub open spec fn some_not_ready<S: PatternStream>(members: Seq<PubStream<S>>) -> bool {
    exists|i: int| 0 <= i < members.len() && not_ready_yet((#[trigger] members[i]).peer.calls())
}

/// Some of these have not sent all.
pub open spec fn some_not_sent<S: PatternStream>(members: Seq<PubStream<S>>) -> bool {
    exists|i: int| 0 <= i < members.len() && not_sent_yet((#[trigger] members[i]).peer.calls())
}

/// A message came from one of these.
pub open spec fn some_had_message<S: PatternStream>(members: Seq<PubStream<S>>) -> bool {
    exists|i: int| 0 <= i < members.len() && had_message((#[trigger] members[i]).peer.calls())
}

/// All of these will wake the task.
pub open spec fn all_doze<S: PatternStream>(members: Seq<PubStream<S>>) -> bool {
    forall|i: int| 0 <= i < members.len() ==> dozes((#[trigger] members[i]).peer.calls())
}

/// What the calls of one poll say of a stream that is not gone.
proof fn polled_says<S: PatternStream>(
    before: PubStream<S>,
    answers: PubAnswers<S::Msg, S::Err>,
    after: PubStream<S>,
)
    requires
        !before.gone,
        before.polled(answers, after),
        !(answers.poll() is Ended),
    ensures
        after.readying ==> not_ready_yet(after.peer.calls()),
        after.flushing ==> not_sent_yet(after.peer.calls()),
        answers.poll() is Again <==> had_message(after.peer.calls()),
        !(answers.poll() is Again) ==> dozes(after.peer.calls()),
{
    let calls = after.peer.calls();
    let extra = answers.calls();
    let n = calls.len() as int;
    assert(extra.len() > 0);
    assert(calls.last() == extra.last());
    if after.readying {
        if extra.len() == 2 {
            assert(calls.drop_last().last() == extra[0]);
            assert(calls[n - 2] == extra[0]);
            assert(not_ready_yet(calls.drop_last()));
        }
    }
    match answers.flush {
        Some(Poll::Ready(Ok(nothing))) => {
            assert(nothing == ());
        },
        _ => {},
    }
}

/// What a round comes to.
proof fn round_says<S: PatternStream>(
    before: PubView<S>,
    round: PubRound<S>,
    step: Step<()>,
    after: PubView<S>,
)
    requires
        before.all_here(),
        before.pre_polled(round, step, after),
    ensures
        step is Pending ==> {
            &&& all_doze(after.members)
            &&& after.some_readying() ==> some_not_ready(after.members)
            &&& after.some_flushing() ==> some_not_sent(after.members)
        },
        step is Again ==> after.has_comer() || some_had_message(after.members),
        step is Ready ==> after.members.len() == 0,
{
    let all = before.members + round.joined;
    let visits = round.visits;
    let kept = remain(visits);
    let n = visits.len() as int;
    assert(after.ready.receipts().last() == round.receipts().last());
    if step is Pending {
        assert(after.members =~= kept);
        assert forall|j: int| 0 <= j < after.members.len() implies dozes(
            (#[trigger] after.members[j]).peer.calls(),
        ) && (after.members[j].readying ==> not_ready_yet(after.members[j].peer.calls())) && (
        after.members[j].flushing ==> not_sent_yet(after.members[j].peer.calls())) by {
            remain_are_not_gone(visits, j);
            let i = choose|i: int|
                0 <= i < visits.len() && kept[j] == (#[trigger] visits[i]).after && !(
                visits[i].answers.poll() is Ended);
            assert(all[i] == before.members[i]);
            polled_says(all[i], visits[i].answers, visits[i].after);
        }
    }
    if step is Again && round.joined.len() == 0 {
        assert(all[n - 1] == before.members[n - 1]);
        polled_says(all[n - 1], visits[n - 1].answers, visits[n - 1].after);
        assert(kept.last() == visits.last().after);
        assert(after.members[kept.len() - 1] == visits.last().after);
    }
}

impl<S: PatternStream> PubView<S> {
    /// A stream came when one was last asked for.
    pub open spec fn has_comer(self) -> bool {
        &&& self.ready.receipts().len() > 0
        &&& self.ready.receipts().last() matches Receipt::Polled(Poll::Ready(Some(_)))
    }
}

impl<S: PatternStream> PubRunView<S> {
    /// How far it has come, by the promises that were kept, and with the message at work.
    pub open spec fn progress(self) -> int {
        5 * self.kept.len() + match self.phase {
            Phase::Feeding(_, _) => if self.publisher.readying {
                2int
            } else {
                1
            },
            Phase::Flushing(_) => if self.publisher.flushing {
                4
            } else {
                3
            },
            _ => 0,
        }
    }

    /// It takes messages, or is at work on one.
    pub open spec fn is_running(self) -> bool {
        self.phase is Idle || self.phase is Feeding || self.phase is Flushing
    }
}

/// **Publishing waits only for cause.** Nothing can be done at once only for one of these reasons:
/// no message has come, when one was just asked for; some stream is not ready, while a message is
/// to be handed over; some stream has not sent all, while one was; some stream is not closed, at
/// the end. All streams will then wake the task.
pub proof fn pub_waits_for_cause<S: PatternStream>(
    before: PubRunView<S>,
    step: Step<()>,
    after: PubRunView<S>,
)
    requires
        before.sound(),
        before.polled(step, after),
        step is Pending,
    ensures
        before.is_running() ==> all_doze(after.publisher.members),
        match before.phase {
            Phase::Idle => after.phase is Idle && before.msgs.asked(
                Receipt::Polled(Poll::Pending),
                after.msgs,
            ),
            Phase::Feeding(_, _) => after.phase == before.phase && some_not_ready(
                after.publisher.members,
            ),
            Phase::Flushing(_) => after.phase == before.phase && some_not_sent(
                after.publisher.members,
            ),
            Phase::Closing => after.phase is Closing && after.publisher.closing.len() > 0
                && all_will_wake(after.publisher.closing),
            Phase::Finished => false,
        },
{
    assert(before.publisher.all_here());
    match before.phase {
        Phase::Idle => {
            let (round, publisher) = choose|round: PubRound<S>, publisher: PubView<S>| #[trigger]
                before.publisher.pre_polled(round, Step::Pending, publisher) && before.received(
                    publisher,
                    step,
                    after,
                );
            round_says(before.publisher, round, Step::Pending, publisher);
            let received = choose|received: Poll<Option<(S::Msg, Owed<S::Msg>)>>| #[trigger]
                before.msgs.asked(Receipt::Polled(plain(received)), after.msgs) && received is Pending;
            assert(plain(received) is Pending);
        },
        Phase::Feeding(msg, owed) => {
            let publisher = after.publisher;
            let round = choose|round: PubRound<S>| #[trigger]
                before.publisher.pre_polled(round, Step::Pending, publisher)
                    && publisher.some_readying();
            round_says(before.publisher, round, Step::Pending, publisher);
        },
        Phase::Flushing(owed) => {
            let publisher = after.publisher;
            let round = choose|round: PubRound<S>| #[trigger]
                before.publisher.pre_polled(round, Step::Pending, publisher)
                    && publisher.some_flushing();
            round_says(before.publisher, round, Step::Pending, publisher);
        },
        Phase::Closing => {
            let asked = choose|asked: Seq<Peer<S>>| #[trigger]
                closed_round(
                    before.publisher.closing,
                    asked,
                    Poll::<Option<Result<(), S::Err>>>::Pending,
                    after.publisher.closing,
                );
            closing_will_wake(before.publisher.closing, asked, after.publisher.closing);
        },
        Phase::Finished => {},
    }
}

/// **Publishing gets on.** Whenever there is more to do at once, it has got somewhere: a stream has
/// joined, a message of a stream was thrown away, it got further with the message at work, or it
/// has begun to close. At the end streams begin to be closed, or one of them is through.
pub proof fn pub_gets_on<S: PatternStream>(
    before: PubRunView<S>,
    step: Step<()>,
    after: PubRunView<S>,
)
    requires
        before.sound(),
        before.polled(step, after),
        step is Again,
    ensures
        before.is_running() ==> {
            ||| after.publisher.has_comer()
            ||| some_had_message(after.publisher.members)
            ||| after.progress() > before.progress()
            ||| after.phase is Closing
        },
        !before.is_running() ==> {
            ||| after.publisher.members.len() < before.publisher.members.len()
            ||| after.publisher.closing.len() < before.publisher.closing.len()
        },
{
    assert(before.publisher.all_here());
    match before.phase {
        Phase::Idle => {
            let (round, pre, publisher) = choose|
                round: PubRound<S>,
                pre: Step<()>,
                publisher: PubView<S>,
            | #[trigger]
                before.publisher.pre_polled(round, pre, publisher) && match pre {
                    Step::Again => after == (PubRunView { publisher, ..before }) && step is Again,
                    Step::Ready(()) => {
                        &&& after == PubRunView { publisher, phase: Phase::Closing, ..before }
                        &&& step is Again
                    },
                    Step::Pending => before.received(publisher, step, after),
                };
            round_says(before.publisher, round, pre, publisher);
        },
        Phase::Feeding(msg, owed) => {
            let (ready, publisher) = choose|ready: Step<()>, publisher: PubView<S>| #[trigger]
                before.publisher.ready_polled(ready, publisher) && match ready {
                    Step::Again => after == (PubRunView { publisher, ..before }) && step is Again,
                    Step::Pending => after == (PubRunView { publisher, ..before })
                        && step is Pending,
                    Step::Ready(()) => {
                        &&& exists|hands: Seq<PubHand<S>>| #[trigger]
                            publisher.started(msg, hands, after.publisher)
                        &&& after == PubRunView {
                            publisher: after.publisher,
                            phase: Phase::Flushing(owed),
                            ..before
                        }
                        &&& step is Again
                    },
                };
            let (round, pre, mid) = choose|round: PubRound<S>, pre: Step<()>, mid: PubView<S>| #[trigger]
                before.publisher.pre_polled(round, pre, mid) && if pre is Pending {
                    if !mid.readying {
                        publisher == mid.ask_ready() && ready is Again
                    } else if mid.some_readying() {
                        publisher == mid && ready is Pending
                    } else {
                        publisher == (PubView { readying: false, ..mid }) && ready is Ready
                    }
                } else {
                    publisher == mid && ready == pre
                };
            round_says(before.publisher, round, pre, mid);
        },
        Phase::Flushing(owed) => {
            let (flush, publisher) = choose|flush: Step<()>, publisher: PubView<S>| #[trigger]
                before.publisher.flush_polled(flush, publisher) && match flush {
                    Step::Again => after == (PubRunView { publisher, ..before }) && step is Again,
                    Step::Pending => after == (PubRunView { publisher, ..before })
                        && step is Pending,
                    Step::Ready(()) => {
                        &&& after == PubRunView {
                            publisher,
                            phase: Phase::Idle,
                            kept: before.kept.push((owed.promise(), ())),
                            ..before
                        }
                        &&& step is Again
                    },
                };
            let (round, pre, mid) = choose|round: PubRound<S>, pre: Step<()>, mid: PubView<S>| #[trigger]
                before.publisher.pre_polled(round, pre, mid) && if pre is Pending {
                    if !mid.flushing {
                        publisher == mid.ask_flush() && flush is Again
                    } else if mid.some_flushing() {
                        publisher == mid && flush is Pending
                    } else {
                        publisher == (PubView { flushing: false, ..mid }) && flush is Ready
                    }
                } else {
                    publisher == mid && flush == pre
                };
            round_says(before.publisher, round, pre, mid);
        },
        _ => {},
    }
}

/// **A message is handed over as soon as all are ready.** While it is waited for streams to be
/// ready, and none has just joined or had a message, the message is handed over in the very poll in
/// which none is found that is not ready. Likewise its promise is kept in the very poll in which
/// none is found that has not sent it.
pub proof fn ready_means_handed_over<S: PatternStream>(
    before: PubRunView<S>,
    step: Step<()>,
    after: PubRunView<S>,
)
    requires
        before.sound(),
        before.polled(step, after),
        !after.publisher.has_comer(),
        !some_had_message(after.publisher.members),
    ensures
        before.phase is Feeding && before.publisher.readying && !some_not_ready(
            after.publisher.members,
        ) ==> after.phase is Flushing,
        before.phase is Feeding && !before.publisher.readying ==> after.phase is Flushing
            || after.publisher.readying,
        before.phase is Flushing && before.publisher.flushing && !some_not_sent(
            after.publisher.members,
        ) ==> after.phase is Idle && after.kept.len() == before.kept.len() + 1,
        before.phase is Flushing && !before.publisher.flushing ==> after.phase is Idle
            || after.publisher.flushing,
{
    if step is Pending {
        pub_waits_for_cause(before, step, after);
    } else if step is Again {
        pub_gets_on(before, step, after);
    }
}

/// **A machine that closes is done exactly when all streams are closed, and stays so.** First all streams
/// begin to be closed, in order. No message is asked for any more, and no promise is kept.
pub proof fn pub_is_done_when_all_are_closed<S: PatternStream>(
    before: PubRunView<S>,
    step: Step<()>,
    after: PubRunView<S>,
)
    requires
        before.polled(step, after),
        before.phase is Closing || before.phase is Finished,
    ensures
        after.phase is Closing || after.phase is Finished,
        before.phase is Closing ==> {
            &&& after.phase is Finished <==> before.publisher.members.len() == 0
                && before.publisher.closing.len() == 0
            &&& after.publisher.members.len() == 0
            &&& before.publisher.members.len() > 0 ==> after.publisher.closing
                == before.publisher.closing + peers_of(before.publisher.members)
        },
        before.phase is Finished ==> after == before,
        after.msgs == before.msgs,
        after.kept == before.kept,
        after.publisher.ready == before.publisher.ready,
        step is Ready <==> after.phase is Finished,
{
}

} // verus!
