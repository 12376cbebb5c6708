//! Which streams are reported, with what, and in which order.
use crate::calls::{arrivals_concat, gone};
use crate::chain_laws::{
    all_ended, arrivals_of_round, no_stream_without_the_turn, none_unlocks, visited,
};
use crate::channel::Receipt;
use crate::owned_close::closed_round;
use crate::push_impl::{Phase, PushError, PushRunView, PushView, State, StatePoll};
use crate::push_laws::{
    flush_at_rest, is_on_time, moves_on, push_always, push_always_accounts, stream_polled_law,
};
use crate::push_stream::{ended, endings, stay, unlocks, Chain, Key, Round, Turn, Visit};
use crate::stream::{ending, Call, Done, PatternStream, Peer};
use crate::task::Step;
use core::task::Poll;
use vstd::prelude::*;

verus! {

/// What is reported of a stream that is gone, by the last answer that it gave.
pub open spec fn report_of<S: PatternStream>(peer: Peer<S>) -> Done<S> {
    match peer.calls().last() {
        Call::Next(Poll::Ready(Some(Err(error)))) => Some(error),
        Call::Ready(Poll::Ready(Err(error))) => Some(error),
        Call::Send(_, Err(error)) => Some(error),
        Call::Flush(Poll::Ready(Err(error))) => Some(error),
        Call::Close(Poll::Ready(Err(error))) => Some(error),
        _ => None,
    }
}

/// The last answer of the stream was that it is gone: it ended, or failed, or was closed.
pub open spec fn is_gone<S: PatternStream>(peer: Peer<S>) -> bool {
    peer.calls().len() > 0 && gone(peer.calls().last())
}

/// What is reported of these streams, in order.
pub open spec fn reports_of<S: PatternStream>(peers: Seq<Peer<S>>) -> Seq<Done<S>> {
    peers.map_values(|peer: Peer<S>| report_of(peer))
}

/// All of these are gone.
pub open spec fn all_gone<S: PatternStream>(peers: Seq<Peer<S>>) -> bool {
    forall|i: int| 0 <= i < peers.len() ==> is_gone(#[trigger] peers[i])
}

/// How many of these are this stream.
pub open spec fn count<S: PatternStream>(peers: Seq<Peer<S>>, stream: S) -> int
    decreases peers.len(),
{
    if peers.len() == 0 {
        0
    } else {
        count(peers.drop_last(), stream) + if peers.last().origin() == stream {
            1int
        } else {
            0
        }
    }
}

/// How many times this stream has joined, by this record.
pub open spec fn joins<S>(receipts: Seq<Receipt<S>>, stream: S) -> int
    decreases receipts.len(),
{
    if receipts.len() == 0 {
        0
    } else {
        joins(receipts.drop_last(), stream) + if receipts.last() == Receipt::Polled(
            Poll::Ready(Some(stream)),
        ) {
            1int
        } else {
            0
        }
    }
}

/// Those of two rows are those of the first and those of the second.
pub(crate) proof fn count_concat<S: PatternStream>(left: Seq<Peer<S>>, right: Seq<Peer<S>>, stream: S)
    ensures
        count(left + right, stream) == count(left, stream) + count(right, stream),
    decreases right.len(),
{
    if right.len() == 0 {
        assert(left + right =~= left);
    } else {
        assert((left + right).drop_last() =~= left + right.drop_last());
        count_concat(left, right.drop_last(), stream);
    }
}

/// A row of one.
pub(crate) proof fn count_one<S: PatternStream>(peer: Peer<S>, stream: S)
    ensures
        count(seq![peer], stream) == if peer.origin() == stream {
            1int
        } else {
            0
        },
{
    assert(seq![peer].drop_last() =~= Seq::empty());
    reveal_with_fuel(count, 2);
}

/// Joins by two records are those by the first and those by the second.
pub(crate) proof fn joins_concat<S>(left: Seq<Receipt<S>>, right: Seq<Receipt<S>>, stream: S)
    ensures
        joins(left + right, stream) == joins(left, stream) + joins(right, stream),
    decreases right.len(),
{
    if right.len() == 0 {
        assert(left + right =~= left);
    } else {
        assert((left + right).drop_last() =~= left + right.drop_last());
        joins_concat(left, right.drop_last(), stream);
    }
}

/// Those of a line that were found gone at these visits.
pub open spec fn gone_of<S: PatternStream>(visits: Seq<Visit<S>>) -> Seq<Peer<S>>
    decreases visits.len(),
{
    if visits.len() == 0 {
        Seq::empty()
    } else if ended(visits.last()) {
        gone_of(visits.drop_last()).push(visits.last().after)
    } else {
        gone_of(visits.drop_last())
    }
}

/// What is reported of visits is reported of those that were found gone.
pub(crate) proof fn gone_are_reported<S: PatternStream>(line: Seq<Peer<S>>, visits: Seq<Visit<S>>)
    requires
        visited(line, visits),
    ensures
        endings(visits) == reports_of(gone_of(visits)),
        all_gone(gone_of(visits)),
    decreases visits.len(),
{
    if visits.len() > 0 {
        let before = visits.drop_last();
        gone_are_reported(line, before);
        let last = visits.last();
        assert(line[visits.len() - 1].called(
            Call::Next(visits[visits.len() - 1].answer),
            visits[visits.len() - 1].after,
        ));
        assert(last.after.calls().last() == Call::<S::Msg, S::Err>::Next(last.answer));
        if ended(last) {
            assert(ending(last.answer) =~= seq![report_of(last.after)]);
            assert(reports_of(gone_of(visits)) =~= reports_of(gone_of(before)) + seq![
                report_of(last.after),
            ]);
        } else {
            assert(ending(last.answer) =~= Seq::empty());
            assert(endings(visits) =~= endings(before));
        }
    } else {
        assert(endings(visits) =~= reports_of(gone_of(visits)));
    }
}

/// Who is visited stays in line or is gone, unless the turn is lost.
proof fn stay_or_gone<S: PatternStream>(
    line: Seq<Peer<S>>,
    visits: Seq<Visit<S>>,
    turn: Turn,
    stream: S,
)
    requires
        visited(line, visits),
        !(turn is Lost),
        none_unlocks(visits, turn),
    ensures
        count(line.take(visits.len() as int), stream) == count(stay(visits, turn), stream) + count(
            gone_of(visits),
            stream,
        ),
    decreases visits.len(),
{
    let n = visits.len() as int;
    if n > 0 {
        let before = visits.drop_last();
        assert forall|k: int| 0 <= k <= before.len() implies !unlocks(
            #[trigger] before.take(k),
            turn,
        ) by {
            assert(before.take(k) =~= visits.take(k));
        }
        assert(visits.take(n) =~= visits);
        stay_or_gone(line, before, turn, stream);
        assert(line.take(n).drop_last() =~= line.take(n - 1));
        assert(line[n - 1].called(Call::Next(visits[n - 1].answer), visits[n - 1].after));
        let kept = stay(before, turn);
        assert(kept.push(visits.last().after).drop_last() =~= kept);
        let left = gone_of(before);
        assert(left.push(visits.last().after).drop_last() =~= left);
    }
}

/// Who is found gone before a stream is handed out.
proof fn ended_are_gone<S: PatternStream>(line: Seq<Peer<S>>, visits: Seq<Visit<S>>, stream: S)
    requires
        visited(line, visits),
        all_ended(visits),
    ensures
        count(line.take(visits.len() as int), stream) == count(gone_of(visits), stream),
    decreases visits.len(),
{
    let n = visits.len() as int;
    if n > 0 {
        let before = visits.drop_last();
        assert forall|i: int| 0 <= i < before.len() implies ended(#[trigger] before[i]) by {
            assert(before[i] == visits[i]);
        }
        ended_are_gone(line, before, stream);
        assert(ended(visits[n - 1]));
        assert(line.take(n).drop_last() =~= line.take(n - 1));
        assert(line[n - 1].called(Call::Next(visits[n - 1].answer), visits[n - 1].after));
        let left = gone_of(before);
        assert(left.push(visits.last().after).drop_last() =~= left);
    }
}

impl<S: PatternStream> Chain<S> {
    /// How many times this stream has joined without being in line now.
    pub open spec fn absent(self, stream: S) -> int {
        joins(self.ready.receipts(), stream) - count(self.members, stream)
    }
}

/// What was handed out by this step.
pub open spec fn handed_out<S: PatternStream>(step: Step<Option<(Peer<S>, Key)>>) -> Seq<Peer<S>> {
    match step {
        Step::Ready(Some((peer, _))) => seq![peer],
        _ => Seq::empty(),
    }
}

/// **A line reports those that are gone, in the order in which it finds them so.** Whoever was in line,
/// or joined, is still in line, was handed out, or is among those that are reported.
pub proof fn line_reports_the_gone<S: PatternStream>(
    before: Chain<S>,
    round: Round<S>,
    step: Step<Option<(Peer<S>, Key)>>,
    after: Chain<S>,
)
    requires
        before.polled(round, step, after),
        before.turn is Lost ==> before.members.len() + round.joined.len() == 0,
    ensures
        all_gone(gone_of(round.visits)),
        before.done.handing(reports_of(gone_of(round.visits)), after.done),
        forall|stream: S| #[trigger]
            after.absent(stream) == before.absent(stream) + count(handed_out(step), stream) + count(
                gone_of(round.visits),
                stream,
            ),
{
    let line = before.members + round.joined;
    let visits = round.visits;
    let n = visits.len() as int;
    gone_are_reported(line, visits);
    assert forall|stream: S| #[trigger]
        after.absent(stream) == before.absent(stream) + count(handed_out(step), stream) + count(
            gone_of(visits),
            stream,
        ) by {
        joins_concat(before.ready.receipts(), round.receipts(), stream);
        joins_of_round(round, stream);
        count_concat(before.members, round.joined, stream);
        if round.joined.len() > 0 {
            assert(round.joined =~= seq![round.joined[0]]);
            count_one(round.joined[0], stream);
        } else {
            match step {
                Step::Ready(Some((peer, _))) => {
                    let first = visits.drop_last();
                    assert forall|i: int| 0 <= i < first.len() implies ended(
                        #[trigger] first[i],
                    ) by {
                        assert(first[i] == visits[i]);
                    }
                    ended_are_gone(line, first, stream);
                    assert(line[n - 1].called(Call::Next(visits[n - 1].answer), visits[n - 1].after));
                    assert(line =~= line.take(n - 1) + seq![line[n - 1]] + line.skip(n));
                    count_concat(line.take(n - 1) + seq![line[n - 1]], line.skip(n), stream);
                    count_concat(line.take(n - 1), seq![line[n - 1]], stream);
                    count_one(line[n - 1], stream);
                    count_one(peer, stream);
                },
                _ => {
                    assert(line =~= line.take(n) + line.skip(n));
                    count_concat(line.take(n), line.skip(n), stream);
                    count_concat(stay(visits, before.turn), line.skip(n), stream);
                    assert(stay(visits, before.turn) + Seq::empty() =~= stay(visits, before.turn));
                    assert(n == line.len() ==> line.skip(n) =~= Seq::empty());
                    if before.turn is Lost {
                        assert(line.len() == 0);
                    } else {
                        stay_or_gone(line, visits, before.turn, stream);
                    }
                },
            }
        }
    }
}

/// Who has joined in a round.
pub(crate) proof fn joins_of_round<S: PatternStream>(round: Round<S>, stream: S)
    ensures
        joins(round.receipts(), stream) == if round.arrival == Poll::Ready(Some(stream)) {
            1int
        } else {
            0
        },
{
    reveal_with_fuel(joins, 3);
    match round.closed {
        Some(_) => {
            assert(round.receipts().drop_last() =~= seq![Receipt::Polled(round.arrival)]);
            assert(seq![Receipt::Polled(round.arrival)].drop_last() =~= Seq::empty());
        },
        None => {
            assert(round.receipts().drop_last() =~= Seq::empty());
        },
    }
}

impl<S: PatternStream> PushView<S> {
    /// The stream in hand.
    pub open spec fn in_hand(self) -> Seq<Peer<S>> {
        match self.state.held() {
            Some(peer) => seq![peer],
            None => Seq::empty(),
        }
    }

    /// How many times this stream has joined without being here now.
    pub open spec fn absent(self, stream: S) -> int {
        self.streams.absent(stream) - count(self.in_hand(), stream) - count(self.closing, stream)
    }

    /// These streams have gone since, and this was reported in the order in which it was found. All
    /// others that were here or have joined are here.
    pub open spec fn lost(self, gone: Seq<Peer<S>>, after: Self) -> bool {
        &&& all_gone(gone)
        &&& self.streams.done.handing(reports_of(gone), after.streams.done)
        &&& forall|stream: S| #[trigger]
            after.absent(stream) == self.absent(stream) + count(gone, stream)
    }

    /// Only such streams were let go of that were reported.
    pub open spec fn lost_some(self, after: Self) -> bool {
        exists|gone: Seq<Peer<S>>| #[trigger] self.lost(gone, after)
    }
}

/// What goes in two steps is gone in the end.
proof fn lost_twice<S: PatternStream>(
    before: PushView<S>,
    first: Seq<Peer<S>>,
    mid: PushView<S>,
    second: Seq<Peer<S>>,
    after: PushView<S>,
)
    requires
        before.lost(first, mid),
        mid.lost(second, after),
    ensures
        before.lost(first + second, after),
{
    let all = first + second;
    assert(reports_of(all) =~= reports_of(first) + reports_of(second));
    assert(after.streams.done.handed() =~= before.streams.done.handed() + reports_of(all));
    assert forall|stream: S| #[trigger]
        after.absent(stream) == before.absent(stream) + count(all, stream) by {
        count_concat(first, second, stream);
        assert(mid.absent(stream) == before.absent(stream) + count(first, stream));
    }
}

/// Nothing is gone if everything is still here.
proof fn lost_none<S: PatternStream>(before: PushView<S>, after: PushView<S>)
    requires
        after.streams.done.sender() == before.streams.done.sender(),
        after.streams.done.handed() == before.streams.done.handed(),
        forall|stream: S| #[trigger] after.absent(stream) == before.absent(stream),
    ensures
        before.lost(Seq::empty(), after),
        before.lost_some(after),
{
    let none = Seq::<Peer<S>>::empty();
    assert(reports_of(none) =~= Seq::empty());
    assert(after.streams.done.handed() =~= before.streams.done.handed() + reports_of(none));
    assert(before.lost(none, after));
}

/// A look at the streams.
proof fn look_lost<S: PatternStream>(before: PushView<S>, res: StatePoll<S>, after: PushView<S>)
    requires
        before.sound(),
        before.stream_polled(res, after),
        before.cleared(),
        before.on_time(after),
    ensures
        before.lost_some(after),
{
    let (round, step) = choose|round: Round<S>, step: Step<Option<(Peer<S>, Key)>>| #[trigger]
        before.streams.polled(round, step, after.streams) && after.closing == before.closing && (
        after.state,
        res,
    ) == match step {
            Step::Ready(ready) => before.state.on_streams_spec(Poll::Ready(ready)),
            Step::Pending => before.state.on_streams_spec(Poll::Pending),
            Step::Again => (before.state, StatePoll::Again),
        };
    arrivals_concat(before.streams.ready.receipts(), round.receipts());
    arrivals_of_round(round);
    line_reports_the_gone(before.streams, round, step, after.streams);
    if !(before.streams.turn is Free) {
        no_stream_without_the_turn(before.streams, round, step, after.streams);
    }
    let gone = gone_of(round.visits);
    assert forall|stream: S| #[trigger]
        after.absent(stream) == before.absent(stream) + count(gone, stream) by {
        assert(after.streams.absent(stream) == before.streams.absent(stream) + count(
            handed_out(step),
            stream,
        ) + count(gone, stream));
    }
    assert(before.lost(gone, after));
}

/// The stream in hand fails.
proof fn failed_lost<S: PatternStream>(
    before: PushView<S>,
    msg: S::Msg,
    peer: Peer<S>,
    error: S::Err,
    res: StatePoll<S>,
    after: PushView<S>,
)
    requires
        before.sound(),
        before.state.has_key(),
        before.state.held().unwrap().origin() == peer.origin(),
        is_gone(peer),
        report_of(peer) == Some(error),
        before.failed(msg, error, res, after),
    ensures
        before.lost_some(after),
{
    let mid = choose|mid: Chain<S>| #[trigger]
        before.streams.gave_back(seq![Some(error)], mid) && (PushView {
            streams: mid,
            ..before
        }).assigned(msg, res, after);
    let freed = PushView { streams: mid, state: State::Msg(msg), closing: before.closing };
    let one = seq![peer];
    assert(reports_of(one) =~= seq![Some(error)]);
    assert forall|stream: S| #[trigger]
        freed.absent(stream) == before.absent(stream) + count(one, stream) by {
        count_one(peer, stream);
        count_one(before.state.held().unwrap(), stream);
        assert(freed.in_hand() =~= Seq::empty());
    }
    assert(before.lost(one, freed));
    look_lost(freed, res, after);
    let more = choose|more: Seq<Peer<S>>| #[trigger] freed.lost(more, after);
    lost_twice(before, one, freed, more, after);
}

/// The stream in hand was asked something, and is still in hand.
proof fn asked_lost<S: PatternStream>(before: PushView<S>, asked: Peer<S>, after: PushView<S>)
    requires
        before.state.held() is Some,
        after.state.held() == Some(asked),
        asked.origin() == before.state.held().unwrap().origin(),
        after.streams == before.streams,
        after.closing == before.closing,
    ensures
        before.lost_some(after),
{
    assert forall|stream: S| #[trigger] after.absent(stream) == before.absent(stream) by {
        count_one(asked, stream);
        count_one(before.state.held().unwrap(), stream);
    }
    lost_none(before, after);
}

/// A look at the state, while the message in hand has a stream.
proof fn state_lost<S: PatternStream>(
    before: PushView<S>,
    msg: S::Msg,
    res: StatePoll<S>,
    after: PushView<S>,
)
    requires
        before.sound(),
        before.state.has_key(),
        before.state.msg() == Some(msg),
        before.state_polled(res, after),
    ensures
        before.lost_some(after),
{
    match before.state {
        State::Readying(_, peer, key) => {
            let (ready, asked) = choose|ready: Poll<Result<(), S::Err>>, asked: Peer<S>| #[trigger]
                peer.called(Call::Ready(ready), asked) && match ready {
                    Poll::Pending => {
                        &&& after == PushView { state: State::Readying(msg, asked, key), ..before }
                        &&& res == StatePoll::<S>::Poll(Poll::Pending)
                    },
                    Poll::Ready(Err(error)) => before.failed(msg, error, res, after),
                    Poll::Ready(Ok(())) => before.handed_over(msg, asked, key, res, after),
                };
            assert(asked.calls().last() == Call::<S::Msg, S::Err>::Ready(ready));
            match ready {
                Poll::Pending => {
                    asked_lost(before, asked, after);
                },
                Poll::Ready(Err(error)) => {
                    failed_lost(before, msg, asked, error, res, after);
                },
                Poll::Ready(Ok(())) => {
                    let (handed, sent, given) = choose|
                        handed: S::Msg,
                        sent: Result<(), S::Err>,
                        given: Peer<S>,
                    | #[trigger]
                        asked.called(Call::Send(handed, sent), given) && cloned(msg, handed)
                            && match sent {
                            Ok(()) => {
                                &&& after == PushView {
                                    state: State::Sending(msg, given, key),
                                    ..before
                                }
                                &&& res is Continue
                            },
                            Err(error) => before.failed(msg, error, res, after),
                        };
                    assert(given.calls().last() == Call::<S::Msg, S::Err>::Send(handed, sent));
                    match sent {
                        Ok(()) => {
                            asked_lost(before, given, after);
                        },
                        Err(error) => {
                            failed_lost(before, msg, given, error, res, after);
                        },
                    }
                },
            }
        },
        State::Sending(_, peer, key) => {
            let (flushed, asked) = choose|flushed: Poll<Result<(), S::Err>>, asked: Peer<S>| #[trigger]
                peer.called(Call::Flush(flushed), asked) && match flushed {
                    Poll::Pending => {
                        &&& after == PushView { state: State::Sending(msg, asked, key), ..before }
                        &&& res == StatePoll::<S>::Poll(Poll::Pending)
                    },
                    Poll::Ready(Err(error)) => before.failed(msg, error, res, after),
                    Poll::Ready(Ok(())) => {
                        &&& after.state is Pending
                        &&& after.closing == before.closing
                        &&& (Chain {
                            members: before.streams.members.push(asked),
                            ..before.streams
                        }).gave_back(Seq::empty(), after.streams)
                        &&& res == StatePoll::<S>::Poll(Poll::Ready(Ok(())))
                    },
                };
            assert(asked.calls().last() == Call::<S::Msg, S::Err>::Flush(flushed));
            match flushed {
                Poll::Pending => {
                    asked_lost(before, asked, after);
                },
                Poll::Ready(Err(error)) => {
                    failed_lost(before, msg, asked, error, res, after);
                },
                Poll::Ready(Ok(())) => {
                    assert forall|stream: S| #[trigger]
                        after.absent(stream) == before.absent(stream) by {
                        count_one(peer, stream);
                        assert(after.streams.members.drop_last() =~= before.streams.members);
                    }
                    assert(after.streams.done.handed() =~= before.streams.done.handed());
                    lost_none(before, after);
                },
            }
        },
        _ => {},
    }
}

/// A flush.
proof fn flush_lost<S: PatternStream>(
    before: PushView<S>,
    step: Step<Result<(), PushError<S>>>,
    after: PushView<S>,
)
    requires
        before.sound(),
        before.flushed(step, after),
        before.cleared(),
        before.on_time(after),
    ensures
        before.lost_some(after),
{
    let (first, mid) = choose|first: StatePoll<S>, mid: PushView<S>| #[trigger]
        before.stream_polled(first, mid) && mid.looked(first, step, after);
    stream_polled_law(before, first, mid);
    look_lost(before, first, mid);
    if first is Continue {
        let second = choose|second: StatePoll<S>| #[trigger]
            mid.state_polled(second, after) && step == second.step_spec();
        state_lost(mid, mid.state.msg().unwrap(), second, after);
        let some = choose|some: Seq<Peer<S>>| #[trigger] before.lost(some, mid);
        let more = choose|more: Seq<Peer<S>>| #[trigger] mid.lost(more, after);
        lost_twice(before, some, mid, more, after);
    }
}

/// Streams that were only asked something are the same streams.
proof fn count_same<S: PatternStream>(left: Seq<Peer<S>>, right: Seq<Peer<S>>, stream: S)
    requires
        left.len() == right.len(),
        forall|i: int| 0 <= i < left.len() ==> left[i].origin() == (#[trigger] right[i]).origin(),
    ensures
        count(left, stream) == count(right, stream),
    decreases left.len(),
{
    if left.len() > 0 {
        let n = left.len() - 1;
        assert(left[n].origin() == right[n].origin());
        assert forall|i: int| 0 <= i < n implies left.drop_last()[i].origin() == (
        #[trigger] right.drop_last()[i]).origin() by {
            assert(left[i].origin() == right[i].origin());
        }
        count_same(left.drop_last(), right.drop_last(), stream);
    }
}

/// One of the streams that are being closed leaves, if it has its result.
pub(crate) proof fn closed_count<S: PatternStream>(
    before: Seq<Peer<S>>,
    asked: Seq<Peer<S>>,
    answer: Poll<Option<Result<(), S::Err>>>,
    after: Seq<Peer<S>>,
    stream: S,
)
    requires
        closed_round(before, asked, answer, after),
    ensures
        count(before, stream) == count(after, stream) + match answer {
            Poll::Ready(Some(_)) => count(seq![asked.last()], stream),
            _ => 0,
        },
{
    let n = asked.len() as int;
    match answer {
        Poll::Ready(Some(_)) => {
            let first = asked.drop_last();
            assert forall|i: int| 0 <= i < n - 1 implies before.take(n - 1)[i].origin() == (
            #[trigger] first[i]).origin() by {
                assert(before[i].called(Call::Close(Poll::Pending), asked[i]));
            }
            count_same(before.take(n - 1), first, stream);
            assert(before =~= before.take(n - 1) + seq![before[n - 1]] + before.skip(n));
            count_concat(before.take(n - 1) + seq![before[n - 1]], before.skip(n), stream);
            count_concat(before.take(n - 1), seq![before[n - 1]], stream);
            count_concat(first, before.skip(n), stream);
            count_one(before[n - 1], stream);
            count_one(asked.last(), stream);
        },
        Poll::Ready(None) => {},
        Poll::Pending => {
            count_same(before, after, stream);
        },
    }
}

/// Closing, with no message in hand.
proof fn close_lost<S: PatternStream>(
    before: PushView<S>,
    step: Step<Result<(), PushError<S>>>,
    after: PushView<S>,
)
    requires
        before.sound(),
        before.state.msg() is None,
        before.close_polled(step, after),
        before.cleared(),
        before.on_time(after),
    ensures
        before.lost_some(after),
{
    let (flush, mid) = choose|flush: Step<Result<(), PushError<S>>>, mid: PushView<S>| #[trigger]
        before.flushed(flush, mid) && if flush matches Step::Ready(Ok(())) {
            mid.shut().closing_polled(step, after)
        } else {
            after == mid && step == flush
        };
    flush_at_rest(before, flush, mid);
    flush_lost(before, flush, mid);
    if flush matches Step::Ready(Ok(())) {
        let shut = mid.shut();
        let (asked, answer) = choose|
            asked: Seq<Peer<S>>,
            answer: Poll<Option<Result<(), S::Err>>>,
        | #[trigger]
            closed_round(shut.closing, asked, answer, after.closing) && after == (PushView {
                streams: Chain { done: after.streams.done, ..shut.streams },
                closing: after.closing,
                ..shut
            }) && match answer {
                Poll::Ready(Some(closed)) => {
                    &&& shut.streams.done.handing(seq![closed.err()], after.streams.done)
                    &&& step is Again
                },
                Poll::Ready(None) => {
                    &&& after.streams.done == shut.streams.done
                    &&& step == Step::<Result<(), PushError<S>>>::Ready(Ok(()))
                },
                Poll::Pending => {
                    &&& after.streams.done == shut.streams.done
                    &&& step is Pending
                },
            };
        let gone = match answer {
            Poll::Ready(Some(_)) => seq![asked.last()],
            _ => Seq::empty(),
        };
        assert forall|stream: S| #[trigger] shut.absent(stream) == mid.absent(stream) by {
            count_concat(mid.closing + mid.in_hand(), mid.streams.members, stream);
            count_concat(mid.closing, mid.in_hand(), stream);
            assert(shut.in_hand() =~= Seq::empty());
        }
        lost_none(mid, shut);
        assert forall|stream: S| #[trigger]
            after.absent(stream) == shut.absent(stream) + count(gone, stream) by {
            closed_count(shut.closing, asked, answer, after.closing, stream);
        }
        match answer {
            Poll::Ready(Some(closed)) => {
                assert(asked.last().calls().last() == Call::<S::Msg, S::Err>::Close(
                    Poll::Ready(closed),
                ));
                assert(reports_of(gone) =~= seq![closed.err()]);
            },
            _ => {
                assert(reports_of(gone) =~= Seq::empty());
                assert(after.streams.done.handed() =~= shut.streams.done.handed()
                    + reports_of(gone));
            },
        }
        assert(shut.lost(gone, after));
        let some = choose|some: Seq<Peer<S>>| #[trigger] before.lost(some, mid);
        lost_twice(before, some, mid, Seq::empty(), shut);
        lost_twice(before, some + Seq::empty(), shut, gone, after);
    }
}

/// **Only the gone are let go of, and each is reported.** What is reported in one poll of a pushing
/// machine are the last words of the streams that were found gone, in that order; all others that
/// were here or have joined are here. Left out is that a stream joins after the others have begun
/// to close.
pub proof fn push_reports_the_gone<S: PatternStream>(
    before: PushRunView<S>,
    step: Step<()>,
    after: PushRunView<S>,
)
    requires
        before.sound(),
        before.push.cleared(),
        before.polled(step, after),
        before.push.on_time(after.push),
    ensures
        before.push.lost_some(after.push),
{
    match before.phase {
        Phase::Idle => {
            let (flush, push) = choose|flush: Step<Result<(), PushError<S>>>, push: PushView<S>| #[trigger]
                before.push.flushed(flush, push) && before.idled(flush, push, step, after);
            flush_lost(before.push, flush, push);
        },
        Phase::Feeding(msg, owed) => {
            let (flush, push) = choose|flush: Step<Result<(), PushError<S>>>, push: PushView<S>| #[trigger]
                before.push.flushed(flush, push) && before.fed(
                    msg,
                    owed,
                    flush,
                    push,
                    step,
                    after,
                );
            flush_at_rest(before.push, flush, push);
            flush_lost(before.push, flush, push);
            let some = choose|some: Seq<Peer<S>>| #[trigger] before.push.lost(some, push);
            assert forall|stream: S| #[trigger]
                after.push.absent(stream) == push.absent(stream) by {
                assert(after.push.in_hand() =~= push.in_hand());
            }
            lost_none(push, after.push);
            lost_twice(before.push, some, push, Seq::empty(), after.push);
        },
        Phase::Flushing(owed) => {
            let (flush, push) = choose|flush: Step<Result<(), PushError<S>>>, push: PushView<S>| #[trigger]
                before.push.flushed(flush, push) && before.flushed(
                    owed,
                    flush,
                    push,
                    step,
                    after,
                );
            flush_lost(before.push, flush, push);
        },
        Phase::Closing => {
            let (close, push) = choose|close: Step<Result<(), PushError<S>>>, push: PushView<S>| #[trigger]
                before.push.close_polled(close, push) && before.closed(close, push, step, after);
            close_lost(before.push, close, push);
        },
        Phase::Finished => {
            lost_none(before.push, after.push);
        },
    }
}

impl<S: PatternStream> PushView<S> {
    /// Each stream that has ever joined is here, or among these, which are gone; and what was
    /// reported are their last words, in order.
    pub open spec fn accounts_for(self, gone: Seq<Peer<S>>) -> bool {
        &&& all_gone(gone)
        &&& self.streams.done.handed() == reports_of(gone)
        &&& forall|stream: S| #[trigger] self.absent(stream) == count(gone, stream)
    }
}

/// **At all times each stream is here or was reported.** However often a pushing machine is polled, what
/// it has reported are the last words of streams that have joined, each once, in the order in which they
/// were found gone; and all others that have joined are here. At the end none is left. Left out is that
/// a stream joins after the others have begun to close.
pub proof fn push_always_reports<S: PatternStream>(history: Seq<PushRunView<S>>, n: int)
    requires
        0 <= n < history.len(),
        history[0].begins(),
        forall|i: int| 0 <= i < history.len() - 1 ==> #[trigger] moves_on(history, i),
        forall|i: int| 0 <= i < history.len() - 1 ==> #[trigger] is_on_time(history, i),
    ensures
        exists|gone: Seq<Peer<S>>| #[trigger] history[n].push.accounts_for(gone),
        history[n].phase is Finished ==> history[n].push.is_empty(),
    decreases n,
{
    push_always(history, n);
    if n == 0 {
        let none = Seq::<Peer<S>>::empty();
        assert(history[0].push.streams.done.handed() =~= reports_of(none));
        assert(history[0].push.accounts_for(none));
    } else {
        push_always(history, n - 1);
        push_always_accounts(history, n - 1);
        push_always_reports(history, n - 1);
        let before = history[n - 1];
        let after = history[n];
        assert(moves_on(history, n - 1) && is_on_time(history, n - 1));
        let step = choose|step: Step<()>| #[trigger] before.polled(step, after);
        push_reports_the_gone(before, step, after);
        let known = choose|known: Seq<Peer<S>>| #[trigger] before.push.accounts_for(known);
        let more = choose|more: Seq<Peer<S>>| #[trigger] before.push.lost(more, after.push);
        let all = known + more;
        assert(reports_of(all) =~= reports_of(known) + reports_of(more));
        assert forall|stream: S| #[trigger]
            after.push.absent(stream) == count(all, stream) by {
            count_concat(known, more, stream);
            assert(before.push.absent(stream) == count(known, stream));
        }
        assert(after.push.accounts_for(all));
    }
}

} // verus!
