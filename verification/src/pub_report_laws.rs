//! Which streams a publishing machine reports, with what, and in which order.
use crate::channel::Receipt;
use crate::owned_close::closed_round;
use crate::pub_impl::{
    refusals, remain, reports, served, Phase, PubAnswers, PubHand, PubRound, PubRunView, PubStream,
    PubView, PubVisit,
};
use crate::pub_laws::{moves_on, pub_always, publishes};
use crate::report_laws::{
    all_gone, closed_count, count, count_concat, count_one, is_gone, joins, joins_concat, report_of,
};
use crate::stream::{Call, Done, PatternStream, Peer};
use crate::task::Step;
use core::task::Poll;
use vstd::prelude::*;

verus! {

/// The streams of these.
pub open spec fn peers_of<S: PatternStream>(members: Seq<PubStream<S>>) -> Seq<Peer<S>> {
    members.map_values(|member: PubStream<S>| member.peer)
}

/// Those that were found gone at these visits.
pub open spec fn ended_of<S: PatternStream>(visits: Seq<PubVisit<S>>) -> Seq<Peer<S>>
    decreases visits.len(),
{
    if visits.len() == 0 {
        Seq::empty()
    } else if visits.last().answers.poll() is Ended {
        ended_of(visits.drop_last()).push(visits.last().after.peer)
    } else {
        ended_of(visits.drop_last())
    }
}

/// Those that failed when these were handed to them.
pub open spec fn refused_of<S: PatternStream>(
    members: Seq<PubStream<S>>,
    hands: Seq<PubHand<S>>,
) -> Seq<Peer<S>>
    decreases members.len(),
{
    if members.len() == 0 {
        Seq::empty()
    } else {
        let before = refused_of(members.drop_last(), hands.drop_last());
        if members.last().ready && hands.last().sent is Err {
            before.push(hands.last().after)
        } else {
            before
        }
    }
}

/// The stream has closed without an error.
pub open spec fn closed_well<S: PatternStream>(peer: Peer<S>) -> bool {
    peer.calls().last() matches Call::Close(Poll::Ready(Ok(_)))
}

/// None of these has closed without an error.
pub open spec fn none_closed<S: PatternStream>(peers: Seq<Peer<S>>) -> bool {
    forall|i: int| 0 <= i < peers.len() ==> !closed_well(#[trigger] peers[i])
}

/// What is reported of these streams, in order: nothing of those that have closed without an error.
pub open spec fn told_of<S: PatternStream>(peers: Seq<Peer<S>>) -> Seq<Done<S>>
    decreases peers.len(),
{
    if peers.len() == 0 {
        Seq::empty()
    } else if closed_well(peers.last()) {
        told_of(peers.drop_last())
    } else {
        told_of(peers.drop_last()).push(report_of(peers.last()))
    }
}

/// What is reported of some streams and then of others.
proof fn told_concat<S: PatternStream>(left: Seq<Peer<S>>, right: Seq<Peer<S>>)
    ensures
        told_of(left + right) == told_of(left) + told_of(right),
    decreases right.len(),
{
    if right.len() == 0 {
        assert(left + right =~= left);
        assert(told_of(left) + told_of(right) =~= told_of(left));
    } else {
        told_concat(left, right.drop_last());
        assert((left + right).drop_last() =~= left + right.drop_last());
        assert(told_of(left + right) =~= told_of(left) + told_of(right));
    }
}

/// What is reported of one stream that is polled are its last words.
proof fn polled_report<S: PatternStream>(
    before: PubStream<S>,
    answers: PubAnswers<S::Msg, S::Err>,
    after: PubStream<S>,
)
    requires
        before.polled(answers, after),
    ensures
        answers.poll() is Ended ==> is_gone(after.peer) && !closed_well(after.peer)
            && answers.report() == seq![report_of(after.peer)],
        !(answers.poll() is Ended) ==> answers.report() == Seq::<Done<S>>::empty(),
{
    let calls = answers.calls();
    if answers.poll() is Ended {
        if answers.ready_failed() {
            assert(calls.last() == Call::<S::Msg, S::Err>::Ready(answers.ready.unwrap()));
        } else if answers.flush_failed() {
            assert(calls.last() == Call::<S::Msg, S::Err>::Flush(answers.flush.unwrap()));
        } else {
            assert(calls.last() == Call::<S::Msg, S::Err>::Next(answers.next.unwrap()));
        }
        assert(after.peer.calls().last() == calls.last());
        assert(answers.report() =~= seq![report_of(after.peer)]);
    }
}

/// What is reported of visits, and who is left.
proof fn ended_are_reported<S: PatternStream>(
    all: Seq<PubStream<S>>,
    visits: Seq<PubVisit<S>>,
    stream: S,
)
    requires
        visits.len() <= all.len(),
        forall|i: int|
            0 <= i < visits.len() ==> all[i].polled(
                (#[trigger] visits[i]).answers,
                visits[i].after,
            ),
    ensures
        reports(visits) == told_of(ended_of(visits)),
        all_gone(ended_of(visits)),
        none_closed(ended_of(visits)),
        count(peers_of(all.take(visits.len() as int)), stream) == count(
            peers_of(remain(visits)),
            stream,
        ) + count(ended_of(visits), stream),
    decreases visits.len(),
{
    let n = visits.len() as int;
    if n > 0 {
        let less = visits.drop_last();
        let last = visits.last();
        assert forall|i: int| 0 <= i < less.len() implies all[i].polled(
            (#[trigger] less[i]).answers,
            less[i].after,
        ) by {
            assert(less[i] == visits[i]);
        }
        ended_are_reported(all, less, stream);
        assert(all[n - 1].polled(visits[n - 1].answers, visits[n - 1].after));
        polled_report(all[n - 1], last.answers, last.after);
        assert(peers_of(all.take(n)).drop_last() =~= peers_of(all.take(n - 1)));
        if last.answers.poll() is Ended {
            assert(ended_of(visits).drop_last() =~= ended_of(less));
            assert(told_of(ended_of(visits)) =~= told_of(ended_of(less)) + seq![
                report_of(last.after.peer),
            ]);
        } else {
            assert(reports(visits) =~= reports(less));
            assert(peers_of(remain(visits)).drop_last() =~= peers_of(remain(less)));
        }
    } else {
        assert(reports(visits) =~= told_of(ended_of(visits)));
        assert(peers_of(all.take(0)) =~= Seq::empty());
        assert(peers_of(remain(visits)) =~= Seq::empty());
    }
}

/// What is reported of those that fail to take a message, and who is left.
proof fn refused_are_reported<S: PatternStream>(
    members: Seq<PubStream<S>>,
    hands: Seq<PubHand<S>>,
    stream: S,
)
    requires
        hands.len() == members.len(),
        forall|i: int|
            0 <= i < hands.len() && members[i].ready ==> members[i].peer.called(
                Call::Send((#[trigger] hands[i]).handed, hands[i].sent),
                hands[i].after,
            ),
    ensures
        refusals(members, hands) == told_of(refused_of(members, hands)),
        all_gone(refused_of(members, hands)),
        none_closed(refused_of(members, hands)),
        count(peers_of(members), stream) == count(peers_of(served(members, hands)), stream) + count(
            refused_of(members, hands),
            stream,
        ),
    decreases members.len(),
{
    let n = members.len() as int;
    if n > 0 {
        let less = members.drop_last();
        let few = hands.drop_last();
        assert forall|i: int| 0 <= i < few.len() && less[i].ready implies less[i].peer.called(
            Call::Send((#[trigger] few[i]).handed, few[i].sent),
            few[i].after,
        ) by {
            assert(few[i] == hands[i]);
        }
        refused_are_reported(less, few, stream);
        assert(peers_of(members).drop_last() =~= peers_of(less));
        if members[n - 1].ready {
            assert(members[n - 1].peer.called(
                Call::Send(hands[n - 1].handed, hands[n - 1].sent),
                hands[n - 1].after,
            ));
        }
        if members.last().ready && hands.last().sent is Err {
            assert(hands.last().after.calls().last() == Call::<S::Msg, S::Err>::Send(
                hands.last().handed,
                hands.last().sent,
            ));
            assert(refused_of(members, hands).drop_last() =~= refused_of(less, few));
            assert(told_of(refused_of(members, hands)) =~= told_of(refused_of(less, few)).push(
                report_of(hands.last().after),
            ));
        } else {
            assert(peers_of(served(members, hands)).drop_last() =~= peers_of(served(less, few)));
        }
    } else {
        assert(refusals(members, hands) =~= told_of(refused_of(members, hands)));
        assert(peers_of(members) =~= Seq::empty());
        assert(peers_of(served(members, hands)) =~= Seq::empty());
    }
}

impl<S: PatternStream> PubView<S> {
    /// How many times this stream has joined without being here now.
    pub open spec fn absent(self, stream: S) -> int {
        joins(self.ready.receipts(), stream) - count(peers_of(self.members), stream) - count(
            self.closing,
            stream,
        )
    }

    /// These streams have gone since, and this was reported in the order in which it was found,
    /// unless they have closed without an error. All others that were here or have joined are here.
    pub open spec fn lost(self, gone: Seq<Peer<S>>, after: Self) -> bool {
        &&& all_gone(gone)
        &&& self.done.handing(told_of(gone), after.done)
        &&& forall|stream: S| #[trigger]
            after.absent(stream) == self.absent(stream) + count(gone, stream)
    }

    /// Only such streams were let go of that were reported or have closed without an error.
    pub open spec fn lost_some(self, after: Self) -> bool {
        exists|gone: Seq<Peer<S>>| #[trigger] self.lost(gone, after)
    }

    /// Only such streams were let go of that were reported.
    pub open spec fn told_all(self, after: Self) -> bool {
        exists|gone: Seq<Peer<S>>| #[trigger] self.lost(gone, after) && none_closed(gone)
    }
}

/// What goes in two steps is gone in the end.
proof fn pub_lost_twice<S: PatternStream>(
    before: PubView<S>,
    first: Seq<Peer<S>>,
    mid: PubView<S>,
    second: Seq<Peer<S>>,
    after: PubView<S>,
)
    requires
        before.lost(first, mid),
        mid.lost(second, after),
    ensures
        before.lost(first + second, after),
        none_closed(first) && none_closed(second) ==> none_closed(first + second)
            && before.told_all(after),
{
    let all = first + second;
    told_concat(first, second);
    assert(after.done.handed() =~= before.done.handed() + told_of(all));
    assert forall|stream: S| #[trigger]
        after.absent(stream) == before.absent(stream) + count(all, stream) by {
        count_concat(first, second, stream);
        assert(mid.absent(stream) == before.absent(stream) + count(first, stream));
    }
}

/// Nothing is gone if the same streams are here, whatever is wanted of them.
proof fn pub_lost_none<S: PatternStream>(before: PubView<S>, after: PubView<S>)
    requires
        after.done == before.done,
        after.ready == before.ready,
        after.closing == before.closing,
        peers_of(after.members) == peers_of(before.members),
    ensures
        before.lost(Seq::empty(), after),
        before.told_all(after),
{
    let none = Seq::<Peer<S>>::empty();
    assert(after.done.handed() =~= before.done.handed() + told_of(none));
    assert(before.lost(none, after));
}

/// A round over the streams.
pub(crate) proof fn pub_round_lost<S: PatternStream>(
    before: PubView<S>,
    round: PubRound<S>,
    step: Step<()>,
    after: PubView<S>,
)
    requires
        before.pre_polled(round, step, after),
    ensures
        before.lost(ended_of(round.visits), after),
        none_closed(ended_of(round.visits)),
        before.told_all(after),
{
    let all = before.members + round.joined;
    let visits = round.visits;
    let n = visits.len() as int;
    let gone = ended_of(visits);
    assert forall|stream: S| #[trigger]
        after.absent(stream) == before.absent(stream) + count(gone, stream) by {
        ended_are_reported(all, visits, stream);
        joins_concat(before.ready.receipts(), round.receipts(), stream);
        joins_of_pub_round(round, stream);
        assert(peers_of(all) =~= peers_of(before.members) + peers_of(round.joined));
        count_concat(peers_of(before.members), peers_of(round.joined), stream);
        assert(peers_of(all) =~= peers_of(all.take(n)) + peers_of(all.skip(n)));
        count_concat(peers_of(all.take(n)), peers_of(all.skip(n)), stream);
        assert(peers_of(after.members) =~= peers_of(remain(visits)) + peers_of(all.skip(n)));
        count_concat(peers_of(remain(visits)), peers_of(all.skip(n)), stream);
        if round.joined.len() > 0 {
            assert(peers_of(round.joined) =~= seq![round.joined[0].peer]);
            count_one(round.joined[0].peer, stream);
        } else {
            assert(peers_of(round.joined) =~= Seq::empty());
        }
    }
    let any = arbitrary();
    ended_are_reported(all, visits, any);
}

/// What is reported up to a round, and in it.
pub(crate) proof fn told_on<S: PatternStream>(
    first: PubView<S>,
    before: PubView<S>,
    round: PubRound<S>,
    step: Step<()>,
    after: PubView<S>,
)
    requires
        first.told_all(before),
        before.pre_polled(round, step, after),
    ensures
        first.told_all(after),
{
    pub_round_lost(before, round, step, after);
    let gone = choose|gone: Seq<Peer<S>>| #[trigger]
        first.lost(gone, before) && none_closed(gone);
    pub_lost_twice(first, gone, before, ended_of(round.visits), after);
}

/// Who has joined in a round.
proof fn joins_of_pub_round<S: PatternStream>(round: PubRound<S>, stream: S)
    ensures
        joins(round.receipts(), stream) == if round.arrival == Poll::Ready(Some(stream)) {
            1int
        } else {
            0
        },
{
    reveal_with_fuel(joins, 3);
    match round.closed {
        Some(_) => {
            assert(round.receipts().drop_last() =~= seq![Receipt::Polled(round.arrival)]);
            assert(seq![Receipt::Polled(round.arrival)].drop_last() =~= Seq::empty());
        },
        None => {
            assert(round.receipts().drop_last() =~= Seq::empty());
        },
    }
}

/// Closing.
proof fn pub_close_lost<S: PatternStream>(before: PubView<S>, step: Step<()>, after: PubView<S>)
    requires
        before.close_polled(step, after),
    ensures
        before.lost_some(after),
{
    let none = Seq::<Peer<S>>::empty();
    if before.members.len() > 0 {
        let peers = peers_of(before.members);
        assert(after.closing == before.closing + peers);
        assert forall|stream: S| #[trigger]
            after.absent(stream) == before.absent(stream) + count(none, stream) by {
            count_concat(before.closing, peers, stream);
            assert(peers_of(after.members) =~= none);
        }
        assert(after.done.handed() =~= before.done.handed() + told_of(none));
        assert(before.lost(none, after));
    } else {
        let (asked, answer) = choose|
            asked: Seq<Peer<S>>,
            answer: Poll<Option<Result<(), S::Err>>>,
        | #[trigger]
            closed_round(before.closing, asked, answer, after.closing) && after == (PubView {
                closing: after.closing,
                done: after.done,
                ..before
            }) && match answer {
                Poll::Ready(Some(Ok(()))) => after.done == before.done && step is Again,
                Poll::Ready(Some(Err(error))) => {
                    &&& before.done.handing(seq![Some(error)], after.done)
                    &&& step is Again
                },
                Poll::Ready(None) => after.done == before.done && step is Ready,
                Poll::Pending => after.done == before.done && step is Pending,
            };
        let gone = match answer {
            Poll::Ready(Some(_)) => seq![asked.last()],
            _ => none,
        };
        assert forall|stream: S| #[trigger]
            after.absent(stream) == before.absent(stream) + count(gone, stream) by {
            closed_count(before.closing, asked, answer, after.closing, stream);
        }
        assert(told_of(none) =~= Seq::empty());
        match answer {
            Poll::Ready(Some(closed)) => {
                let last = asked.last();
                assert(last.calls().last() == Call::<S::Msg, S::Err>::Close(Poll::Ready(closed)));
                assert(gone.drop_last() =~= none);
                match closed {
                    Ok(()) => {
                        assert(closed_well(gone.last()));
                        assert(told_of(gone) == told_of(none));
                    },
                    Err(error) => {
                        assert(told_of(gone) =~= seq![Some(error)]);
                    },
                }
            },
            _ => {},
        }
        assert(after.done.handed() =~= before.done.handed() + told_of(gone));
        assert(before.lost(gone, after));
    }
}

/// **Only the gone are let go of, and each is reported.** What is reported in one poll of a publishing
/// machine are the last words of the streams that were found gone, in that order; all others that were
/// here or have joined are here. Only of those that it closes without an error nothing is reported.
pub proof fn pub_reports_the_gone<S: PatternStream>(
    before: PubRunView<S>,
    step: Step<()>,
    after: PubRunView<S>,
)
    requires
        before.polled(step, after),
    ensures
        before.publisher.lost_some(after.publisher),
        !(before.phase is Closing) ==> before.publisher.told_all(after.publisher),
{
    match before.phase {
        Phase::Idle => {
            let (round, pre, publisher) = choose|
                round: PubRound<S>,
                pre: Step<()>,
                publisher: PubView<S>,
            | #[trigger]
                before.publisher.pre_polled(round, pre, publisher) && match pre {
                    Step::Again => after == (PubRunView { publisher, ..before }) && step is Again,
                    Step::Ready(()) => {
                        &&& after == PubRunView { publisher, phase: Phase::Closing, ..before }
                        &&& step is Again
                    },
                    Step::Pending => before.received(publisher, step, after),
                };
            pub_round_lost(before.publisher, round, pre, publisher);
        },
        Phase::Feeding(msg, owed) => {
            let (ready, publisher) = choose|ready: Step<()>, publisher: PubView<S>| #[trigger]
                before.publisher.ready_polled(ready, publisher) && match ready {
                    Step::Again => after == (PubRunView { publisher, ..before }) && step is Again,
                    Step::Pending => after == (PubRunView { publisher, ..before })
                        && step is Pending,
                    Step::Ready(()) => {
                        &&& exists|hands: Seq<PubHand<S>>| #[trigger]
                            publisher.started(msg, hands, after.publisher)
                        &&& after == PubRunView {
                            publisher: after.publisher,
                            phase: Phase::Flushing(owed),
                            ..before
                        }
                        &&& step is Again
                    },
                };
            let (round, pre, mid) = choose|round: PubRound<S>, pre: Step<()>, mid: PubView<S>| #[trigger]
                before.publisher.pre_polled(round, pre, mid) && if pre is Pending {
                    if !mid.readying {
                        publisher == mid.ask_ready() && ready is Again
                    } else if mid.some_readying() {
                        publisher == mid && ready is Pending
                    } else {
                        publisher == (PubView { readying: false, ..mid }) && ready is Ready
                    }
                } else {
                    publisher == mid && ready == pre
                };
            pub_round_lost(before.publisher, round, pre, mid);
            assert(peers_of(publisher.members) =~= peers_of(mid.members));
            pub_lost_none(mid, publisher);
            pub_lost_twice(
                before.publisher,
                ended_of(round.visits),
                mid,
                Seq::empty(),
                publisher,
            );
            if ready is Ready {
                let hands = choose|hands: Seq<PubHand<S>>| #[trigger]
                    publisher.started(msg, hands, after.publisher);
                let gone = refused_of(publisher.members, hands);
                assert forall|stream: S| #[trigger]
                    after.publisher.absent(stream) == publisher.absent(stream) + count(
                        gone,
                        stream,
                    ) by {
                    refused_are_reported(publisher.members, hands, stream);
                }
                let any = arbitrary();
                refused_are_reported(publisher.members, hands, any);
                assert(publisher.lost(gone, after.publisher));
                pub_lost_twice(
                    before.publisher,
                    ended_of(round.visits) + Seq::empty(),
                    publisher,
                    gone,
                    after.publisher,
                );
            }
        },
        Phase::Flushing(owed) => {
            let (flush, publisher) = choose|flush: Step<()>, publisher: PubView<S>| #[trigger]
                before.publisher.flush_polled(flush, publisher) && after.publisher == publisher;
            let (round, pre, mid) = choose|round: PubRound<S>, pre: Step<()>, mid: PubView<S>| #[trigger]
                before.publisher.pre_polled(round, pre, mid) && if pre is Pending {
                    if !mid.flushing {
                        publisher == mid.ask_flush() && flush is Again
                    } else if mid.some_flushing() {
                        publisher == mid && flush is Pending
                    } else {
                        publisher == (PubView { flushing: false, ..mid }) && flush is Ready
                    }
                } else {
                    publisher == mid && flush == pre
                };
            pub_round_lost(before.publisher, round, pre, mid);
            assert(peers_of(publisher.members) =~= peers_of(mid.members));
            pub_lost_none(mid, publisher);
            pub_lost_twice(
                before.publisher,
                ended_of(round.visits),
                mid,
                Seq::empty(),
                publisher,
            );
        },
        Phase::Closing => {
            pub_close_lost(before.publisher, step, after.publisher);
        },
        Phase::Finished => {
            pub_lost_none(before.publisher, after.publisher);
        },
    }
}

impl<S: PatternStream> PubView<S> {
    /// These are all streams that have joined and are not here. What was reported are their last
    /// words, in this order, but for those that have closed without an error.
    pub open spec fn accounts_for(self, gone: Seq<Peer<S>>) -> bool {
        &&& all_gone(gone)
        &&& self.done.handed() == told_of(gone)
        &&& forall|stream: S| #[trigger] self.absent(stream) == count(gone, stream)
    }
}

/// **At all times each stream is here, was reported, or has closed without an error.** However
/// often a publishing machine is polled, what it has reported are the last words of streams that
/// have joined, each once, in the order in which they were found gone; and all others that have
/// joined are here, or were closed and had no error. A machine that is done has no streams. Left
/// out is that a stream joins after it was said that none can.
pub proof fn pub_always_reports<S: PatternStream>(history: Seq<PubRunView<S>>, n: int)
    requires
        publishes(history),
        0 <= n < history.len(),
    ensures
        exists|gone: Seq<Peer<S>>| #[trigger] history[n].publisher.accounts_for(gone),
        history[n].phase is Finished ==> history[n].publisher.members.len() == 0
            && history[n].publisher.closing.len() == 0,
    decreases n,
{
    pub_always(history, n);
    if n == 0 {
        let none = Seq::<Peer<S>>::empty();
        assert(peers_of(history[0].publisher.members) =~= none);
        assert(history[0].publisher.done.handed() =~= told_of(none));
        assert(history[0].publisher.accounts_for(none));
    } else {
        pub_always_reports(history, n - 1);
        let before = history[n - 1];
        let after = history[n];
        assert(moves_on(history, n - 1));
        let step = choose|step: Step<()>| #[trigger] before.polled(step, after);
        pub_reports_the_gone(before, step, after);
        let known = choose|known: Seq<Peer<S>>| #[trigger] before.publisher.accounts_for(known);
        let more = choose|more: Seq<Peer<S>>| #[trigger]
            before.publisher.lost(more, after.publisher);
        let all = known + more;
        told_concat(known, more);
        assert forall|stream: S| #[trigger]
            after.publisher.absent(stream) == count(all, stream) by {
            count_concat(known, more, stream);
            assert(before.publisher.absent(stream) == count(known, stream));
        }
        assert(after.publisher.accounts_for(all));
    }
}

/// **Each stream that goes meanwhile is reported.** Between any two moments before it is time to
/// close, only such streams have left that were found gone; each was reported, in the order in
/// which this was found.
pub proof fn pub_reports_meanwhile<S: PatternStream>(
    history: Seq<PubRunView<S>>,
    t: int,
    n: int,
)
    requires
        publishes(history),
        0 <= t <= n < history.len(),
        forall|i: int| t <= i < n ==> !((#[trigger] history[i]).phase is Closing),
    ensures
        history[t].publisher.told_all(history[n].publisher),
    decreases n - t,
{
    if t == n {
        pub_lost_none(history[t].publisher, history[n].publisher);
    } else {
        pub_reports_meanwhile(history, t, n - 1);
        assert(moves_on(history, n - 1));
        let step = choose|step: Step<()>| #[trigger] history[n - 1].polled(step, history[n]);
        pub_reports_the_gone(history[n - 1], step, history[n]);
        let first = choose|gone: Seq<Peer<S>>| #[trigger]
            history[t].publisher.lost(gone, history[n - 1].publisher) && none_closed(gone);
        let second = choose|gone: Seq<Peer<S>>| #[trigger]
            history[n - 1].publisher.lost(gone, history[n].publisher) && none_closed(gone);
        pub_lost_twice(
            history[t].publisher,
            first,
            history[n - 1].publisher,
            second,
            history[n].publisher,
        );
    }
}

} // verus!
