//! In which order streams get what is published, and when publishing ends.
use crate::calls::{inbox_watched, look_is_watched, taken, taken_push};
use crate::channel::Receipt;
use crate::owned_close::closed_round;
use crate::promise::{plain, Owed, QPromise};
use crate::pub_impl::{remain, reports, Phase, PubHand, PubRound, PubRunView, PubStream, PubView};
use crate::pub_laws::{
    each_ready_stream_gets_a_copy, moves_on, pub_always, publishes, ready_waits_for_all,
    round_keeps_streams, said_closed, was_handed,
};
use crate::pub_report_laws::{pub_round_lost, told_on};
use crate::publish_laws::{among, later, later_keeps, remain_later, sends};
use crate::stream::{Call, PatternStream, Peer};
use crate::task::Step;
use core::task::Poll;
use vstd::prelude::*;

verus! {

/// The messages of these.
pub open spec fn contents<M>(jobs: Seq<(M, QPromise)>) -> Seq<M> {
    jobs.map_values(|job: (M, QPromise)| job.0)
}

/// These are copies of the last of `msgs`, one of each, in the same order.
pub open spec fn copies_of_last<M: Clone>(copies: Seq<M>, msgs: Seq<M>) -> bool {
    &&& copies.len() <= msgs.len()
    &&& forall|i: int|
        0 <= i < copies.len() ==> cloned(
            msgs[msgs.len() - copies.len() + i],
            #[trigger] copies[i],
        )
}

/// One more message, and a copy of it.
proof fn one_more_copy<M: Clone>(copies: Seq<M>, msgs: Seq<M>, copy: M, msg: M)
    requires
        copies_of_last(copies, msgs),
        cloned(msg, copy),
    ensures
        copies_of_last(copies.push(copy), msgs.push(msg)),
{
    let more = copies.push(copy);
    let all = msgs.push(msg);
    assert forall|i: int| 0 <= i < more.len() implies cloned(
        all[all.len() - more.len() + i],
        #[trigger] more[i],
    ) by {
        if i < copies.len() {
            assert(more[i] == copies[i]);
            assert(all[all.len() - more.len() + i] == msgs[msgs.len() - copies.len() + i]);
        }
    }
}

/// What was handed to the stream are copies of the last of `msgs`.
pub open spec fn served_last<S: PatternStream>(peer: Peer<S>, msgs: Seq<S::Msg>) -> bool {
    copies_of_last(sends(peer.calls()), msgs)
}

/// It is waited for that the stream is ready, or it is, or nothing was handed to it yet.
pub open spec fn takes_part<S: PatternStream>(member: PubStream<S>) -> bool {
    member.engaged() || sends(member.peer.calls()).len() == 0
}

/// The last of `msgs` were handed to each of these.
pub open spec fn all_served<S: PatternStream>(
    members: Seq<PubStream<S>>,
    msgs: Seq<S::Msg>,
) -> bool {
    forall|i: int| 0 <= i < members.len() ==> served_last((#[trigger] members[i]).peer, msgs)
}

/// All of these take part.
pub open spec fn all_take_part<S: PatternStream>(members: Seq<PubStream<S>>) -> bool {
    forall|i: int| 0 <= i < members.len() ==> takes_part(#[trigger] members[i])
}

impl<S: PatternStream> PubRunView<S> {
    /// The messages that have come, without the one that is yet to be handed over.
    pub open spec fn published(self) -> Seq<S::Msg> {
        let came = contents(taken(self.msgs.receipts()));
        if self.phase is Feeding {
            came.drop_last()
        } else {
            came
        }
    }

    /// To each stream the last of the messages that have come were handed: from the first that it
    /// got, all that came since, in the same order, each once.
    pub open spec fn serves_in_order(self) -> bool {
        let came = contents(taken(self.msgs.receipts()));
        &&& self.phase matches Phase::Feeding(msg, _) ==> came.len() > 0 && came.last() == msg
        &&& all_served(self.publisher.members, self.published())
        &&& forall|i: int|
            0 <= i < self.publisher.closing.len() ==> served_last(
                #[trigger] self.publisher.closing[i],
                self.published(),
            )
        &&& !(self.phase is Closing) ==> self.publisher.closing.len() == 0
        &&& self.phase is Feeding && self.publisher.readying ==> all_take_part(
            self.publisher.members,
        )
    }
}

/// Each stream that is there after a round was there before, or has just joined.
pub(crate) proof fn round_is_among<S: PatternStream>(
    before: PubView<S>,
    round: PubRound<S>,
    step: Step<()>,
    after: PubView<S>,
)
    requires
        before.pre_polled(round, step, after),
    ensures
        forall|j: int|
            0 <= j < after.members.len() ==> among(
                before.members + round.joined,
                (before.members + round.joined).len() as int,
                #[trigger] after.members[j],
            ),
{
    let all = before.members + round.joined;
    let visits = round.visits;
    let first = remain(visits);
    assert forall|j: int| 0 <= j < after.members.len() implies among(
        all,
        all.len() as int,
        #[trigger] after.members[j],
    ) by {
        if j < first.len() {
            let i = remain_later(all, visits, j);
            assert(after.members[j] == first[j]);
            assert(later(all[i], after.members[j]));
        } else {
            let i = visits.len() + j - first.len();
            assert(after.members[j] == all[i]);
            assert(later(all[i], after.members[j]));
        }
    }
}

/// A round hands nothing over, and nobody drops out.
proof fn round_serves<S: PatternStream>(
    before: PubView<S>,
    round: PubRound<S>,
    step: Step<()>,
    after: PubView<S>,
    msgs: Seq<S::Msg>,
)
    requires
        before.pre_polled(round, step, after),
        all_served(before.members, msgs),
    ensures
        all_served(after.members, msgs),
        all_take_part(before.members) ==> all_take_part(after.members),
{
    let all = before.members + round.joined;
    round_is_among(before, round, step, after);
    assert forall|j: int| 0 <= j < after.members.len() implies served_last(
        (#[trigger] after.members[j]).peer,
        msgs,
    ) && (all_take_part(before.members) ==> takes_part(after.members[j])) by {
        assert(among(all, all.len() as int, after.members[j]));
        let i = choose|i: int| 0 <= i < all.len() && #[trigger] later(all[i], after.members[j]);
        later_keeps(all[i], after.members[j]);
        if i < before.members.len() {
            assert(all[i] == before.members[i]);
        } else {
            assert(all[i] == round.joined[0]);
            assert(sends(all[i].peer.calls()).len() == 0);
        }
    }
}

/// Handing a message over.
proof fn started_serves<S: PatternStream>(
    before: PubView<S>,
    msg: S::Msg,
    hands: Seq<PubHand<S>>,
    after: PubView<S>,
    msgs: Seq<S::Msg>,
)
    requires
        before.sound(),
        before.started(msg, hands, after),
        all_served(before.members, msgs),
        all_take_part(before.members),
        forall|i: int|
            0 <= i < before.members.len() && (#[trigger] before.members[i]).engaged()
                ==> before.members[i].ready,
    ensures
        all_served(after.members, msgs.push(msg)),
{
    each_ready_stream_gets_a_copy(before, msg, hands, after);
    assert forall|j: int| 0 <= j < after.members.len() implies served_last(
        (#[trigger] after.members[j]).peer,
        msgs.push(msg),
    ) by {
        let i = choose|i: int|
            0 <= i < before.members.len() && was_handed(
                #[trigger] before.members[i],
                msg,
                after.members[j],
            );
        let member = before.members[i];
        assert(takes_part(member));
        assert(served_last(member.peer, msgs));
        if member.ready {
            let (handed, sent) = choose|handed: S::Msg, sent: Result<(), S::Err>| #[trigger]
                member.peer.called(Call::Send(handed, sent), after.members[j].peer) && sent is Ok
                    && cloned(msg, handed) && after.members[j] == (PubStream {
                    peer: after.members[j].peer,
                    ready: false,
                    ..member
                });
            let calls = after.members[j].peer.calls();
            assert(calls.drop_last() =~= member.peer.calls());
            assert(calls.last() == Call::<S::Msg, S::Err>::Send(handed, sent));
            one_more_copy(sends(member.peer.calls()), msgs, handed, msg);
        }
    }
}

/// Closing hands nothing over.
proof fn close_serves<S: PatternStream>(
    before: PubView<S>,
    step: Step<()>,
    after: PubView<S>,
    msgs: Seq<S::Msg>,
)
    requires
        before.close_polled(step, after),
        all_served(before.members, msgs),
        forall|i: int|
            0 <= i < before.closing.len() ==> served_last(#[trigger] before.closing[i], msgs),
    ensures
        all_served(after.members, msgs),
        forall|i: int|
            0 <= i < after.closing.len() ==> served_last(#[trigger] after.closing[i], msgs),
{
    if before.members.len() > 0 {
        assert forall|i: int| 0 <= i < after.closing.len() implies served_last(
            #[trigger] after.closing[i],
            msgs,
        ) by {
            if i < before.closing.len() {
                assert(after.closing[i] == before.closing[i]);
            } else {
                assert(after.closing[i] == before.members[i - before.closing.len()].peer);
            }
        }
    } else {
        let (asked, answer) = choose|
            asked: Seq<Peer<S>>,
            answer: Poll<Option<Result<(), S::Err>>>,
        | #[trigger]
            closed_round(before.closing, asked, answer, after.closing);
        let n = asked.len() as int;
        assert forall|i: int| 0 <= i < after.closing.len() implies served_last(
            #[trigger] after.closing[i],
            msgs,
        ) by {
            let answered: int = if answer is Pending {
                n
            } else {
                n - 1
            };
            if i < answered {
                assert(after.closing[i] == asked[i]);
                assert(before.closing[i].called(Call::Close(Poll::Pending), asked[i]));
                assert(asked[i].calls().drop_last() =~= before.closing[i].calls());
                assert(served_last(before.closing[i], msgs));
            } else {
                assert(after.closing[i] == before.closing[i + 1]);
            }
        }
    }
}

/// What becomes of the messages that have come when one more is asked for.
proof fn received_published<S: PatternStream>(
    before: PubRunView<S>,
    publisher: PubView<S>,
    step: Step<()>,
    after: PubRunView<S>,
)
    requires
        before.phase is Idle,
        before.received(publisher, step, after),
    ensures
        after.publisher == publisher,
        after.published() == before.published(),
        after.phase matches Phase::Feeding(msg, _) ==> contents(
            taken(after.msgs.receipts()),
        ).len() > 0 && contents(taken(after.msgs.receipts())).last() == msg,
{
    let received = choose|received: Poll<Option<(S::Msg, Owed<S::Msg>)>>| #[trigger]
        before.msgs.asked(Receipt::Polled(plain(received)), after.msgs) && after == (PubRunView {
            publisher,
            msgs: after.msgs,
            phase: match received {
                Poll::Ready(Some((msg, owed))) => Phase::Feeding(msg, owed),
                Poll::Ready(None) => Phase::Closing,
                Poll::Pending => Phase::Idle,
            },
            ..before
        }) && step == if received is Ready {
            Step::<()>::Again
        } else {
            Step::Pending
        };
    taken_push(before.msgs.receipts(), Receipt::Polled(plain(received)));
    assert(after.published() =~= before.published());
}

/// **Messages are handed over in order, each once, and none is left out.** What was handed to a
/// stream are copies of the last messages that have come, one of each, in the order in which they
/// came. Left out is that a stream joins after it was said that none can.
pub proof fn pub_serves_in_order<S: PatternStream>(
    before: PubRunView<S>,
    step: Step<()>,
    after: PubRunView<S>,
)
    requires
        before.sound(),
        before.serves_in_order(),
        before.polled(step, after),
        before.on_time(after),
    ensures
        after.serves_in_order(),
{
    let msgs = before.published();
    match before.phase {
        Phase::Idle => {
            let (round, pre, publisher) = choose|
                round: PubRound<S>,
                pre: Step<()>,
                publisher: PubView<S>,
            | #[trigger]
                before.publisher.pre_polled(round, pre, publisher) && match pre {
                    Step::Again => after == (PubRunView { publisher, ..before }) && step is Again,
                    Step::Ready(()) => {
                        &&& after == PubRunView { publisher, phase: Phase::Closing, ..before }
                        &&& step is Again
                    },
                    Step::Pending => before.received(publisher, step, after),
                };
            round_serves(before.publisher, round, pre, publisher, msgs);
            round_keeps_streams(before.publisher, round, pre, publisher);
            if pre is Pending {
                received_published(before, publisher, step, after);
            }
        },
        Phase::Feeding(msg, owed) => {
            let (ready, publisher) = choose|ready: Step<()>, publisher: PubView<S>| #[trigger]
                before.publisher.ready_polled(ready, publisher) && match ready {
                    Step::Again => after == (PubRunView { publisher, ..before }) && step is Again,
                    Step::Pending => after == (PubRunView { publisher, ..before })
                        && step is Pending,
                    Step::Ready(()) => {
                        &&& exists|hands: Seq<PubHand<S>>| #[trigger]
                            publisher.started(msg, hands, after.publisher)
                        &&& after == PubRunView {
                            publisher: after.publisher,
                            phase: Phase::Flushing(owed),
                            ..before
                        }
                        &&& step is Again
                    },
                };
            let (round, pre, mid) = choose|round: PubRound<S>, pre: Step<()>, mid: PubView<S>| #[trigger]
                before.publisher.pre_polled(round, pre, mid) && if pre is Pending {
                    if !mid.readying {
                        publisher == mid.ask_ready() && ready is Again
                    } else if mid.some_readying() {
                        publisher == mid && ready is Pending
                    } else {
                        publisher == (PubView { readying: false, ..mid }) && ready is Ready
                    }
                } else {
                    publisher == mid && ready == pre
                };
            round_serves(before.publisher, round, pre, mid, msgs);
            assert(all_served(publisher.members, msgs)) by {
                assert forall|i: int| 0 <= i < publisher.members.len() implies served_last(
                    (#[trigger] publisher.members[i]).peer,
                    msgs,
                ) by {
                    assert(served_last(mid.members[i].peer, msgs));
                }
            }
            ready_waits_for_all(before.publisher, ready, publisher);
            if ready is Ready {
                let hands = choose|hands: Seq<PubHand<S>>| #[trigger]
                    publisher.started(msg, hands, after.publisher);
                started_serves(publisher, msg, hands, after.publisher, msgs);
                assert(after.published() =~= msgs.push(msg));
            }
        },
        Phase::Flushing(owed) => {
            let (flush, publisher) = choose|flush: Step<()>, publisher: PubView<S>| #[trigger]
                before.publisher.flush_polled(flush, publisher) && match flush {
                    Step::Again => after == (PubRunView { publisher, ..before }) && step is Again,
                    Step::Pending => after == (PubRunView { publisher, ..before })
                        && step is Pending,
                    Step::Ready(()) => {
                        &&& after == PubRunView {
                            publisher,
                            phase: Phase::Idle,
                            kept: before.kept.push((owed.promise(), ())),
                            ..before
                        }
                        &&& step is Again
                    },
                };
            let (round, pre, mid) = choose|round: PubRound<S>, pre: Step<()>, mid: PubView<S>| #[trigger]
                before.publisher.pre_polled(round, pre, mid) && if pre is Pending {
                    if !mid.flushing {
                        publisher == mid.ask_flush() && flush is Again
                    } else if mid.some_flushing() {
                        publisher == mid && flush is Pending
                    } else {
                        publisher == (PubView { flushing: false, ..mid }) && flush is Ready
                    }
                } else {
                    publisher == mid && flush == pre
                };
            round_serves(before.publisher, round, pre, mid, msgs);
            assert forall|i: int| 0 <= i < publisher.members.len() implies served_last(
                (#[trigger] publisher.members[i]).peer,
                msgs,
            ) by {
                assert(served_last(mid.members[i].peer, msgs));
            }
        },
        Phase::Closing => {
            close_serves(before.publisher, step, after.publisher, msgs);
        },
        Phase::Finished => {},
    }
}

/// **At all times each stream got the last messages, in order and each once.** However often a
/// publishing machine is polled, what was handed to a stream that is there, or is being closed, are
/// copies of the last messages that have come, one of each, in the order in which they came: once
/// it has got one, none is left out. Left out is that a stream joins after it was said that none
/// can.
pub proof fn pub_always_serves_in_order<S: PatternStream>(history: Seq<PubRunView<S>>, n: int)
    requires
        publishes(history),
        0 <= n < history.len(),
    ensures
        history[n].serves_in_order(),
    decreases n,
{
    if n > 0 {
        pub_always_serves_in_order(history, n - 1);
        pub_always(history, n - 1);
        assert(moves_on(history, n - 1));
        let step = choose|step: Step<()>| #[trigger] history[n - 1].polled(step, history[n]);
        pub_serves_in_order(history[n - 1], step, history[n]);
    }
}

/// **Streams that want to join come first.** One that has come joins at the end, is not waited for,
/// and no stream is polled. Unless there is more to do at once, none is left waiting to join. It is
/// through exactly when there are no streams and it was just said that none can come.
pub proof fn joiners_come_first<S: PatternStream>(
    before: PubView<S>,
    round: PubRound<S>,
    step: Step<()>,
    after: PubView<S>,
)
    requires
        before.pre_polled(round, step, after),
    ensures
        round.arrival matches Poll::Ready(Some(stream)) ==> {
            &&& step is Again
            &&& after.members.len() == before.members.len() + 1
            &&& after.members.drop_last() == before.members
            &&& after.members.last().peer.origin() == stream
            &&& after.members.last().peer.calls().len() == 0
            &&& !after.members.last().readying
            &&& !after.members.last().flushing
            &&& !after.members.last().ready
            &&& !after.members.last().gone
            &&& after.done.handed() == before.done.handed()
        },
        !(step is Again) ==> inbox_watched(after.ready.receipts()),
        step is Ready <==> after.out_of_streams(),
{
    if round.arrival matches Poll::Ready(Some(_)) {
        let all = before.members + round.joined;
        assert(after.members =~= before.members.push(round.joined[0]));
        assert(after.members.drop_last() =~= before.members);
        assert(reports(round.visits) =~= Seq::empty());
        assert(after.done.handed() =~= before.done.handed());
    }
    if !(step is Again) {
        look_is_watched(before.ready.receipts(), round.arrival, round.closed);
    }
    assert(after.ready.receipts().last() == round.receipts().last());
}

impl<S: PatternStream> PubStream<S> {
    /// It is not waited for, and it was not said that it is ready.
    pub open spec fn is_idle(self) -> bool {
        !self.readying && !self.flushing && !self.ready
    }

    /// `after` is this stream, later. If it is waited for until it is ready, it is or still is.
    pub open spec fn stays(self, after: Self) -> bool {
        &&& after.peer.origin() == self.peer.origin()
        &&& self.engaged() ==> after.engaged()
    }
}

/// This is one of `first`, later, or it is not waited for.
pub open spec fn old_or_idle<S: PatternStream>(
    first: Seq<PubStream<S>>,
    member: PubStream<S>,
) -> bool {
    member.is_idle() || exists|i: int| 0 <= i < first.len() && (#[trigger] first[i]).stays(member)
}

/// Rounds one after the other: these are the streams between them, and `step` is what the last one
/// says. All the others say that there is more to do at once.
pub open spec fn drains<S: PatternStream>(
    views: Seq<PubView<S>>,
    rounds: Seq<PubRound<S>>,
    step: Step<()>,
) -> bool
    decreases rounds.len(),
{
    let n = rounds.len() as int;
    &&& n > 0
    &&& views.len() == n + 1
    &&& views[n - 1].pre_polled(rounds[n - 1], step, views[n])
    &&& n > 1 ==> drains(views.drop_last(), rounds.drop_last(), Step::Again)
}

/// What holds of rounds one after the other.
proof fn drains_law<S: PatternStream>(
    views: Seq<PubView<S>>,
    rounds: Seq<PubRound<S>>,
    step: Step<()>,
)
    requires
        drains(views, rounds, step),
    ensures
        views[0].told_all(views.last()),
        forall|j: int|
            0 <= j < views.last().members.len() ==> old_or_idle(
                views[0].members,
                #[trigger] views.last().members[j],
            ),
    decreases rounds.len(),
{
    let n = rounds.len() as int;
    let first = views[0].members;
    let before = views[n - 1];
    let round = rounds[n - 1];
    let after = views[n];
    if n > 1 {
        drains_law(views.drop_last(), rounds.drop_last(), Step::Again);
        assert(views.drop_last().last() == before);
        told_on(views[0], before, round, step, after);
    } else {
        pub_round_lost(before, round, step, after);
    }
    let all = before.members + round.joined;
    round_is_among(before, round, step, after);
    assert forall|j: int| 0 <= j < after.members.len() implies old_or_idle(
        first,
        #[trigger] after.members[j],
    ) by {
        assert(among(all, all.len() as int, after.members[j]));
        let i = choose|i: int| 0 <= i < all.len() && #[trigger] later(all[i], after.members[j]);
        later_keeps(all[i], after.members[j]);
        if i >= before.members.len() {
            assert(all[i] == round.joined[0]);
            assert(all[i].is_idle());
        } else {
            assert(all[i] == before.members[i]);
            if n > 1 {
                assert(old_or_idle(first, views.drop_last().last().members[i]));
                if !all[i].is_idle() {
                    let k = choose|k: int| 0 <= k < first.len() && (#[trigger] first[k]).stays(all[i]);
                    assert(first[k].stays(after.members[j]));
                }
            } else {
                assert(first[i].stays(after.members[j]));
            }
        }
    }
}

/// **All that want to join are taken in.** When rounds follow each other until there is nothing
/// more to do at once, none is left waiting to join. Each stream that was there, or has joined, is
/// there or was reported; those that have joined are not waited for. It is through exactly when
/// there are no streams, and it was just said that none can come.
pub proof fn all_that_join_are_taken_in<S: PatternStream>(
    views: Seq<PubView<S>>,
    rounds: Seq<PubRound<S>>,
    step: Step<()>,
)
    requires
        drains(views, rounds, step),
        !(step is Again),
    ensures
        inbox_watched(views.last().ready.receipts()),
        step is Ready <==> views.last().out_of_streams(),
        views[0].told_all(views.last()),
        forall|j: int|
            0 <= j < views.last().members.len() ==> old_or_idle(
                views[0].members,
                #[trigger] views.last().members[j],
            ),
{
    let n = rounds.len() as int;
    drains_law(views, rounds, step);
    joiners_come_first(views[n - 1], rounds[n - 1], step, views[n]);
}

impl<S: PatternStream> PubRunView<S> {
    /// It was just said that no more messages come.
    pub open spec fn hears_the_end(self, after: Self) -> bool {
        self.msgs.asked(Receipt::Polled(Poll::Ready(None)), after.msgs)
    }
}

/// **Publishing ends when there are no more messages, or no more streams.** It begins to close
/// exactly when no message is at work and it is found that there are no streams and none can come,
/// so that no message is asked for; or else that no more messages come. It is never given up while
/// a message is at work.
pub proof fn pub_ends_for_cause<S: PatternStream>(
    before: PubRunView<S>,
    step: Step<()>,
    after: PubRunView<S>,
)
    requires
        before.polled(step, after),
        !(before.phase is Closing || before.phase is Finished),
    ensures
        !(after.phase is Finished),
        after.phase is Closing <==> before.phase is Idle && {
            ||| after.msgs == before.msgs && after.publisher.out_of_streams()
            ||| before.hears_the_end(after)
        },
        !(step is Ready),
{
    if before.phase is Idle {
        let (round, pre, publisher) = choose|
            round: PubRound<S>,
            pre: Step<()>,
            publisher: PubView<S>,
        | #[trigger]
            before.publisher.pre_polled(round, pre, publisher) && match pre {
                Step::Again => after == (PubRunView { publisher, ..before }) && step is Again,
                Step::Ready(()) => {
                    &&& after == PubRunView { publisher, phase: Phase::Closing, ..before }
                    &&& step is Again
                },
                Step::Pending => before.received(publisher, step, after),
            };
        joiners_come_first(before.publisher, round, pre, publisher);
        if pre is Pending {
            let received = choose|received: Poll<Option<(S::Msg, Owed<S::Msg>)>>| #[trigger]
                before.msgs.asked(Receipt::Polled(plain(received)), after.msgs) && after == (
                PubRunView {
                    publisher,
                    msgs: after.msgs,
                    phase: match received {
                        Poll::Ready(Some((msg, owed))) => Phase::Feeding(msg, owed),
                        Poll::Ready(None) => Phase::Closing,
                        Poll::Pending => Phase::Idle,
                    },
                    ..before
                });
            let receipts = after.msgs.receipts();
            assert(receipts.last() == Receipt::Polled(plain(received)));
            assert(receipts.len() > before.msgs.receipts().len());
        }
    }
}

impl<S: PatternStream> PubRunView<S> {
    /// There is a cause to end: no more messages come, or it was said that no more streams can come.
    pub open spec fn has_cause(self) -> bool {
        ||| said_closed(self.publisher.ready.receipts())
        ||| exists|i: int|
            0 <= i < self.msgs.receipts().len() && #[trigger] self.msgs.receipts()[i]
                == Receipt::<(S::Msg, QPromise)>::Polled(Poll::Ready(None))
    }
}

/// **A machine that closes or is done has a cause.** Unless it was said that no more streams can
/// come, or that no more messages do, publishing goes on. Left out is that a stream joins after it
/// was said that none can.
pub proof fn pub_always_has_cause<S: PatternStream>(history: Seq<PubRunView<S>>, n: int)
    requires
        publishes(history),
        0 <= n < history.len(),
    ensures
        history[n].phase is Closing || history[n].phase is Finished ==> history[n].has_cause(),
    decreases n,
{
    if n > 0 {
        let before = history[n - 1];
        let after = history[n];
        pub_always_has_cause(history, n - 1);
        assert(moves_on(history, n - 1));
        let step = choose|step: Step<()>| #[trigger] before.polled(step, after);
        if before.phase is Closing || before.phase is Finished {
            assert(after.msgs == before.msgs);
            assert(after.publisher.ready == before.publisher.ready);
        } else {
            pub_ends_for_cause(before, step, after);
            if after.phase is Closing {
                let receipts = after.publisher.ready.receipts();
                let heard = after.msgs.receipts();
                if before.hears_the_end(after) {
                    assert(heard[heard.len() - 1] == Receipt::<(S::Msg, QPromise)>::Polled(
                        Poll::Ready(None),
                    ));
                } else {
                    assert(receipts[receipts.len() - 1] == Receipt::<S>::Closed(true));
                }
            }
        }
    }
}

} // verus!
