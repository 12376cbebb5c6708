//! What is asked of a stream that messages are published to, call by call.
use crate::exchange_laws::{course_on, unsent, Stage};
use crate::owned_close::closed_round;
use crate::pub_impl::{Phase, PubAnswers, PubHand, PubRound, PubRunView, PubStream, PubView};
use crate::pub_laws::{
    each_ready_stream_gets_a_copy, moves_on, pub_always, publishes, round_keeps_streams, was_handed,
};
use crate::pub_order_laws::round_is_among;
use crate::publish_laws::{among, later};
use crate::stream::{Call, PatternStream, Peer};
use crate::task::Step;
use core::task::Poll;
use vstd::prelude::*;

verus! {

/// How far a stream has come that messages are published to. It is asked whether it is ready until
/// it is, and not again before it was handed a message. It is handed one message when it is ready,
/// and none before it has sent it. It is asked whether it has sent all until it has. Only between
/// these it is asked for messages, to notice when it is gone. It is closed when it owes nothing,
/// and then asked for nothing else.
pub open spec fn publishing<M, E>(calls: Seq<Call<M, E>>) -> Stage
    decreases calls.len(),
{
    if calls.len() == 0 {
        Stage::Rest
    } else {
        match (publishing(calls.drop_last()), calls.last()) {
            (Stage::Rest, Call::Next(Poll::Pending)) => Stage::Rest,
            (Stage::Rest, Call::Next(Poll::Ready(Some(Ok(_))))) => Stage::Rest,
            (Stage::Rest, Call::Ready(Poll::Pending)) => Stage::Asked,
            (Stage::Rest, Call::Ready(Poll::Ready(Ok(_)))) => Stage::Armed,
            (Stage::Rest, Call::Flush(Poll::Pending)) => Stage::Sent,
            (Stage::Rest, Call::Flush(Poll::Ready(Ok(_)))) => Stage::Rest,
            (Stage::Asked, Call::Ready(Poll::Pending)) => Stage::Asked,
            (Stage::Asked, Call::Ready(Poll::Ready(Ok(_)))) => Stage::Armed,
            (Stage::Armed, Call::Next(Poll::Pending)) => Stage::Armed,
            (Stage::Armed, Call::Next(Poll::Ready(Some(Ok(_))))) => Stage::Armed,
            (Stage::Armed, Call::Send(_, Ok(_))) => Stage::Taken,
            (Stage::Taken, Call::Next(Poll::Pending)) => Stage::Taken,
            (Stage::Taken, Call::Next(Poll::Ready(Some(Ok(_))))) => Stage::Taken,
            (Stage::Taken, Call::Flush(Poll::Pending)) => Stage::Sent,
            (Stage::Taken, Call::Flush(Poll::Ready(Ok(_)))) => Stage::Rest,
            (Stage::Sent, Call::Flush(Poll::Pending)) => Stage::Sent,
            (Stage::Sent, Call::Flush(Poll::Ready(Ok(_)))) => Stage::Rest,
            (Stage::Rest, Call::Close(Poll::Pending)) => Stage::Closing,
            (Stage::Closing, Call::Close(Poll::Pending)) => Stage::Closing,
            _ => Stage::Odd,
        }
    }
}

/// **A stream is handed one message at a time.** If nothing was asked of it out of order, it has at
/// most one message that it has not sent, and none when it is at rest or ready.
pub proof fn one_message_at_a_time<M, E>(calls: Seq<Call<M, E>>)
    requires
        !(publishing(calls) is Odd),
    ensures
        unsent(calls) <= 1,
        !(publishing(calls) is Taken || publishing(calls) is Sent) ==> unsent(calls) == 0,
    decreases calls.len(),
{
    if calls.len() > 0 {
        one_message_at_a_time(calls.drop_last());
    }
}

impl<S: PatternStream> PubStream<S> {
    /// What is said of it is what was asked of it.
    pub open spec fn is_true(self) -> bool {
        &&& !(self.readying && self.flushing)
        &&& match publishing(self.peer.calls()) {
            Stage::Rest => !self.ready,
            Stage::Asked => self.readying && !self.ready,
            Stage::Armed => self.ready && !self.readying && !self.flushing,
            Stage::Taken => !self.readying && !self.ready,
            Stage::Sent => self.flushing && !self.ready,
            _ => false,
        }
    }

    /// It owes nothing, and nothing is wanted of it.
    pub open spec fn rests(self) -> bool {
        &&& publishing(self.peer.calls()) is Rest
        &&& !self.readying
        &&& !self.flushing
        &&& !self.ready
    }
}

/// One poll of a stream that is not gone then.
proof fn polled_is_true<S: PatternStream>(
    before: PubStream<S>,
    answers: PubAnswers<S::Msg, S::Err>,
    after: PubStream<S>,
)
    requires
        !before.gone,
        before.is_true(),
        before.polled(answers, after),
        !(answers.poll() is Ended),
    ensures
        after.is_true(),
        after.readying ==> before.readying,
        after.flushing ==> before.flushing,
        after.ready ==> before.ready || before.readying,
        before.rests() ==> after.rests(),
        before.flushing && !after.flushing ==> publishing(after.peer.calls()) is Rest,
        !before.flushing && !(publishing(before.peer.calls()) is Taken) ==> !(publishing(
            after.peer.calls(),
        ) is Taken),
        !before.readying && !before.ready ==> !(publishing(after.peer.calls()) is Armed),
{
    let calls = after.peer.calls();
    let extra = answers.calls();
    let old_calls = before.peer.calls();
    if extra.len() == 1 {
        assert(calls.drop_last() =~= old_calls);
        assert(calls.last() == extra[0]);
    } else {
        assert(extra.len() == 2);
        assert(calls.drop_last() =~= old_calls.push(extra[0]));
        assert(old_calls.push(extra[0]).drop_last() =~= old_calls);
        assert(calls.last() == extra[1]);
        assert(!(publishing(calls.drop_last()) is Odd));
    }
}

impl<S: PatternStream> PubRunView<S> {
    /// This is what is asked of a stream at this point.
    pub open spec fn suits(self, member: PubStream<S>) -> bool {
        &&& member.is_true()
        &&& match self.phase {
            Phase::Idle => member.rests(),
            Phase::Feeding(_, _) => {
                &&& !member.flushing
                &&& !(publishing(member.peer.calls()) is Taken)
                &&& !self.publisher.readying ==> member.rests()
            },
            Phase::Flushing(_) => {
                &&& !member.readying
                &&& !member.ready
                &&& if self.publisher.flushing {
                    !member.flushing ==> member.rests()
                } else {
                    !member.flushing
                }
            },
            Phase::Closing | Phase::Finished => member.rests(),
        }
    }

    /// The streams were asked for one thing after the other, each in its time.
    pub open spec fn in_step(self) -> bool {
        &&& forall|i: int|
            0 <= i < self.publisher.members.len() ==> self.suits(
                #[trigger] self.publisher.members[i],
            )
        &&& forall|i: int|
            0 <= i < self.publisher.closing.len() ==> closes(#[trigger] self.publisher.closing[i])
        &&& !(self.phase is Closing) ==> self.publisher.closing.len() == 0
    }
}

/// It owes nothing, or was asked to close when it did not, and for nothing else since.
pub open spec fn closes<S: PatternStream>(peer: Peer<S>) -> bool {
    publishing(peer.calls()) is Rest || publishing(peer.calls()) is Closing
}

/// A round.
proof fn round_in_step<S: PatternStream>(
    run: PubRunView<S>,
    round: PubRound<S>,
    step: Step<()>,
    after: PubView<S>,
)
    requires
        run.sound(),
        run.in_step(),
        run.publisher.pre_polled(round, step, after),
        run.publisher.readying && (run.phase is Idle || run.phase is Flushing)
            || run.publisher.flushing && !(run.phase is Flushing) ==> round.joined.len() == 0,
    ensures
        forall|j: int|
            0 <= j < after.members.len() ==> (PubRunView { publisher: after, ..run }).suits(
                #[trigger] after.members[j],
            ),
        after.closing == run.publisher.closing,
        after.readying == run.publisher.readying,
        after.flushing == run.publisher.flushing,
{
    let before = run.publisher;
    let all = before.members + round.joined;
    round_is_among(before, round, step, after);
    let next = PubRunView { publisher: after, ..run };
    assert forall|j: int| 0 <= j < after.members.len() implies next.suits(
        #[trigger] after.members[j],
    ) by {
        assert(among(all, all.len() as int, after.members[j]));
        let i = choose|i: int| 0 <= i < all.len() && #[trigger] later(all[i], after.members[j]);
        if i < before.members.len() {
            assert(all[i] == before.members[i]);
            assert(run.suits(before.members[i]));
            assert(before.members[i].sound());
        } else {
            assert(all[i] == round.joined[0]);
            assert(all[i].rests());
        }
        if after.members[j] != all[i] {
            let answers = choose|answers: PubAnswers<S::Msg, S::Err>| #[trigger]
                all[i].polled(answers, after.members[j]) && !(answers.poll() is Ended);
            polled_is_true(all[i], answers, after.members[j]);
        }
    }
}

/// **Streams that messages are published to are asked for one thing after the other, each in its
/// time.** Left out is that a stream joins after it was said that none can.
pub proof fn pub_stays_in_step<S: PatternStream>(
    before: PubRunView<S>,
    step: Step<()>,
    after: PubRunView<S>,
)
    requires
        before.sound(),
        before.in_step(),
        before.polled(step, after),
        before.on_time(after),
    ensures
        after.in_step(),
{
    match before.phase {
        Phase::Idle => {
            let (round, pre, publisher) = choose|
                round: PubRound<S>,
                pre: Step<()>,
                publisher: PubView<S>,
            | #[trigger]
                before.publisher.pre_polled(round, pre, publisher) && match pre {
                    Step::Again => after == (PubRunView { publisher, ..before }) && step is Again,
                    Step::Ready(()) => {
                        &&& after == PubRunView { publisher, phase: Phase::Closing, ..before }
                        &&& step is Again
                    },
                    Step::Pending => before.received(publisher, step, after),
                };
            round_keeps_streams(before.publisher, round, pre, publisher);
            round_in_step(before, round, pre, publisher);
            let mid = PubRunView { publisher, ..before };
            assert forall|j: int| 0 <= j < after.publisher.members.len() implies after.suits(
                #[trigger] after.publisher.members[j],
            ) by {
                assert(mid.suits(publisher.members[j]));
            }
        },
        Phase::Feeding(msg, owed) => {
            let (ready, publisher) = choose|ready: Step<()>, publisher: PubView<S>| #[trigger]
                before.publisher.ready_polled(ready, publisher) && match ready {
                    Step::Again => after == (PubRunView { publisher, ..before }) && step is Again,
                    Step::Pending => after == (PubRunView { publisher, ..before })
                        && step is Pending,
                    Step::Ready(()) => {
                        &&& exists|hands: Seq<PubHand<S>>| #[trigger]
                            publisher.started(msg, hands, after.publisher)
                        &&& after == PubRunView {
                            publisher: after.publisher,
                            phase: Phase::Flushing(owed),
                            ..before
                        }
                        &&& step is Again
                    },
                };
            let (round, pre, mid) = choose|round: PubRound<S>, pre: Step<()>, mid: PubView<S>| #[trigger]
                before.publisher.pre_polled(round, pre, mid) && if pre is Pending {
                    if !mid.readying {
                        publisher == mid.ask_ready() && ready is Again
                    } else if mid.some_readying() {
                        publisher == mid && ready is Pending
                    } else {
                        publisher == (PubView { readying: false, ..mid }) && ready is Ready
                    }
                } else {
                    publisher == mid && ready == pre
                };
            round_keeps_streams(before.publisher, round, pre, mid);
            if ready is Ready {
                let hands = choose|hands: Seq<PubHand<S>>| #[trigger]
                    publisher.started(msg, hands, after.publisher);
                each_ready_stream_gets_a_copy(publisher, msg, hands, after.publisher);
                assert(after.publisher.ready == mid.ready);
            }
            round_in_step(before, round, pre, mid);
            let seen = PubRunView { publisher: mid, ..before };
            if ready is Ready {
                let hands = choose|hands: Seq<PubHand<S>>| #[trigger]
                    publisher.started(msg, hands, after.publisher);
                assert forall|j: int| 0 <= j < after.publisher.members.len() implies after.suits(
                    #[trigger] after.publisher.members[j],
                ) by {
                    let i = choose|i: int|
                        0 <= i < publisher.members.len() && was_handed(
                            #[trigger] publisher.members[i],
                            msg,
                            after.publisher.members[j],
                        );
                    let member = publisher.members[i];
                    assert(member == mid.members[i]);
                    assert(seen.suits(mid.members[i]));
                    assert(!member.readying);
                    if member.ready {
                        let (handed, sent) = choose|handed: S::Msg, sent: Result<(), S::Err>| #[trigger]
                            member.peer.called(
                                Call::Send(handed, sent),
                                after.publisher.members[j].peer,
                            ) && sent is Ok && cloned(msg, handed) && after.publisher.members[j]
                                == (PubStream {
                                peer: after.publisher.members[j].peer,
                                ready: false,
                                ..member
                            });
                        course_on(
                            member.peer,
                            Call::Send(handed, sent),
                            after.publisher.members[j].peer,
                        );
                    }
                }
            } else {
                assert forall|j: int| 0 <= j < after.publisher.members.len() implies after.suits(
                    #[trigger] after.publisher.members[j],
                ) by {
                    assert(seen.suits(mid.members[j]));
                }
            }
        },
        Phase::Flushing(owed) => {
            let (flush, publisher) = choose|flush: Step<()>, publisher: PubView<S>| #[trigger]
                before.publisher.flush_polled(flush, publisher) && match flush {
                    Step::Again => after == (PubRunView { publisher, ..before }) && step is Again,
                    Step::Pending => after == (PubRunView { publisher, ..before })
                        && step is Pending,
                    Step::Ready(()) => {
                        &&& after == PubRunView {
                            publisher,
                            phase: Phase::Idle,
                            kept: before.kept.push((owed.promise(), ())),
                            ..before
                        }
                        &&& step is Again
                    },
                };
            let (round, pre, mid) = choose|round: PubRound<S>, pre: Step<()>, mid: PubView<S>| #[trigger]
                before.publisher.pre_polled(round, pre, mid) && if pre is Pending {
                    if !mid.flushing {
                        publisher == mid.ask_flush() && flush is Again
                    } else if mid.some_flushing() {
                        publisher == mid && flush is Pending
                    } else {
                        publisher == (PubView { flushing: false, ..mid }) && flush is Ready
                    }
                } else {
                    publisher == mid && flush == pre
                };
            round_keeps_streams(before.publisher, round, pre, mid);
            round_in_step(before, round, pre, mid);
            let seen = PubRunView { publisher: mid, ..before };
            assert forall|j: int| 0 <= j < after.publisher.members.len() implies after.suits(
                #[trigger] after.publisher.members[j],
            ) by {
                assert(seen.suits(mid.members[j]));
            }
        },
        Phase::Closing => {
            let (old, new) = (before.publisher, after.publisher);
            if old.members.len() > 0 {
                assert forall|i: int| 0 <= i < new.closing.len() implies closes(
                    #[trigger] new.closing[i],
                ) by {
                    if i < old.closing.len() {
                        assert(new.closing[i] == old.closing[i]);
                    } else {
                        let member = old.members[i - old.closing.len()];
                        assert(new.closing[i] == member.peer);
                        assert(before.suits(member));
                    }
                }
            } else {
                let (asked, answer) = choose|
                    asked: Seq<Peer<S>>,
                    answer: Poll<Option<Result<(), S::Err>>>,
                | #[trigger]
                    closed_round(old.closing, asked, answer, new.closing) && match answer {
                        Poll::Ready(Some(_)) => step is Again,
                        Poll::Ready(None) => step is Ready,
                        Poll::Pending => step is Pending,
                    };
                let n = asked.len() as int;
                assert forall|i: int| 0 <= i < new.closing.len() implies closes(
                    #[trigger] new.closing[i],
                ) by {
                    let first: int = if answer is Pending {
                        n
                    } else {
                        n - 1
                    };
                    if i < first {
                        assert(new.closing[i] == asked[i]);
                        course_on(old.closing[i], Call::Close(Poll::Pending), asked[i]);
                        assert(closes(old.closing[i]));
                    } else {
                        assert(new.closing[i] == old.closing[i + 1]);
                    }
                }
            }
        },
        Phase::Finished => {},
    }
}

/// **At all times each stream has one message at a time.** However often a publishing machine is
/// polled, a stream that has taken a message has not been handed another one before it has said
/// that it is sent, and has sent all while no message is at work. Left out is that a stream joins
/// after it was said that none can.
pub proof fn pub_always_in_step<S: PatternStream>(history: Seq<PubRunView<S>>, n: int)
    requires
        publishes(history),
        0 <= n < history.len(),
    ensures
        history[n].in_step(),
        forall|i: int| #![trigger history[n].publisher.members[i]]
            0 <= i < history[n].publisher.members.len() ==> unsent(
                history[n].publisher.members[i].peer.calls(),
            ) <= if history[n].phase is Flushing {
                1nat
            } else {
                0
            },
    decreases n,
{
    if n > 0 {
        pub_always_in_step(history, n - 1);
        pub_always(history, n - 1);
        assert(moves_on(history, n - 1));
        let step = choose|step: Step<()>| #[trigger] history[n - 1].polled(step, history[n]);
        pub_stays_in_step(history[n - 1], step, history[n]);
    }
    assert forall|i: int| #![trigger history[n].publisher.members[i]]
        0 <= i < history[n].publisher.members.len() implies unsent(
        history[n].publisher.members[i].peer.calls(),
    ) <= if history[n].phase is Flushing {
        1nat
    } else {
        0
    } by {
        assert(history[n].suits(history[n].publisher.members[i]));
        one_message_at_a_time(history[n].publisher.members[i].peer.calls());
    }
}

} // verus!
