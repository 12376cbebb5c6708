//! That nobody overtakes another on the way to a message or a request.
use crate::chain_laws::no_stream_without_the_turn;
use crate::line_laws::{in_same_order, keep_order, line_keeps_order};
use crate::promise::Owed;
use crate::push_impl::{PushError, PushView, State as PushState, StatePoll as PushPoll};
use crate::push_laws::stream_polled_law as push_look;
use crate::push_stream::{Chain, Key, Round};
use crate::req_impl::{PrePoll, ReqView, State as ReqState, StatePoll as ReqPoll};
use crate::req_laws::{msg_polled_law, stream_polled_law as req_look};
use crate::stream::{Call, Done, PatternStream, Peer};
use crate::task::Step;
use crate::turn_laws::rising;
use core::task::Poll;
use vstd::prelude::*;

verus! {

/// `after` is the same stream, of which something more may have been asked.
pub open spec fn grew<S: PatternStream>(before: Peer<S>, after: Peer<S>) -> bool {
    &&& after.origin() == before.origin()
    &&& before.calls().len() <= after.calls().len()
    &&& after.calls().take(before.calls().len() as int) == before.calls()
}

/// Each of `after` is the stream that had this place in `before`, and they are in the same order.
pub open spec fn follow<S: PatternStream>(
    before: Seq<Peer<S>>,
    places: Seq<int>,
    after: Seq<Peer<S>>,
) -> bool {
    &&& places.len() == after.len()
    &&& rising(places)
    &&& forall|j: int|
        0 <= j < places.len() ==> 0 <= #[trigger] places[j] < before.len() && grew(
            before[places[j]],
            after[j],
        )
}

/// The streams of `after` are some of `before`, in the same order.
pub open spec fn outlive<S: PatternStream>(before: Seq<Peer<S>>, after: Seq<Peer<S>>) -> bool {
    exists|places: Seq<int>| #[trigger] follow(before, places, after)
}

/// A stream that was asked nothing, or one thing.
proof fn call_grew<S: PatternStream>(before: Peer<S>, after: Peer<S>)
    ensures
        after == before ==> grew(before, after),
        forall|call: Call<S::Msg, S::Err>| #[trigger] before.called(call, after) ==> grew(before, after),
{
    assert(before.calls().take(before.calls().len() as int) =~= before.calls());
    assert forall|call: Call<S::Msg, S::Err>| #[trigger] before.called(call, after) implies grew(
        before,
        after,
    ) by {
        assert(after.calls().take(before.calls().len() as int) =~= before.calls());
    }
}

/// What has grown has grown, however often.
proof fn grew_twice<S: PatternStream>(first: Peer<S>, mid: Peer<S>, after: Peer<S>)
    requires
        grew(first, mid),
        grew(mid, after),
    ensures
        grew(first, after),
{
    let n = first.calls().len() as int;
    assert(after.calls().take(n) =~= after.calls().take(mid.calls().len() as int).take(n));
}

/// All are still there.
proof fn outlive_self<S: PatternStream>(peers: Seq<Peer<S>>)
    ensures
        outlive(peers, peers),
{
    let places = Seq::new(peers.len(), |i: int| i);
    assert forall|j: int| 0 <= j < places.len() implies 0 <= #[trigger] places[j] < peers.len()
        && grew(peers[places[j]], peers[j]) by {
        call_grew(peers[j], peers[j]);
    }
    assert(follow(peers, places, peers));
}

/// Order that is kept twice is kept.
proof fn outlive_twice<S: PatternStream>(
    first: Seq<Peer<S>>,
    mid: Seq<Peer<S>>,
    after: Seq<Peer<S>>,
)
    requires
        outlive(first, mid),
        outlive(mid, after),
    ensures
        outlive(first, after),
{
    let one = choose|places: Seq<int>| #[trigger] follow(first, places, mid);
    let two = choose|places: Seq<int>| #[trigger] follow(mid, places, after);
    let both = Seq::new(two.len(), |j: int| one[two[j]]);
    assert forall|j: int| 0 <= j < both.len() implies 0 <= #[trigger] both[j] < first.len() && grew(
        first[both[j]],
        after[j],
    ) by {
        assert(0 <= two[j] < mid.len());
        assert(0 <= one[two[j]] < first.len());
        grew_twice(first[one[two[j]]], mid[two[j]], after[j]);
    }
    assert forall|i: int, j: int| 0 <= i < j < both.len() implies both[i] < both[j] by {
        assert(two[i] < two[j]);
        assert(0 <= two[i] < mid.len() && 0 <= two[j] < mid.len());
    }
    assert(follow(first, both, after));
}

/// Some are left out.
proof fn outlive_part<S: PatternStream>(peers: Seq<Peer<S>>, from: int, to: int)
    requires
        0 <= from <= to <= peers.len(),
    ensures
        outlive(peers, peers.subrange(from, to)),
{
    let part = peers.subrange(from, to);
    let places = Seq::new((to - from) as nat, |i: int| from + i);
    assert forall|j: int| 0 <= j < places.len() implies 0 <= #[trigger] places[j] < peers.len()
        && grew(peers[places[j]], part[j]) by {
        call_grew(peers[from + j], part[j]);
    }
    assert(follow(peers, places, part));
}

/// The one in front is still in front.
proof fn outlive_behind<S: PatternStream>(
    head: Peer<S>,
    later: Peer<S>,
    before: Seq<Peer<S>>,
    after: Seq<Peer<S>>,
)
    requires
        grew(head, later),
        outlive(before, after),
    ensures
        outlive(seq![head] + before, seq![later] + after),
{
    let one = choose|places: Seq<int>| #[trigger] follow(before, places, after);
    let all = seq![0int] + Seq::new(one.len(), |j: int| one[j] + 1);
    let row = seq![head] + before;
    let rest = seq![later] + after;
    assert forall|j: int| 0 <= j < all.len() implies 0 <= #[trigger] all[j] < row.len() && grew(
        row[all[j]],
        rest[j],
    ) by {
        if j > 0 {
            assert(0 <= one[j - 1] < before.len());
            assert(row[all[j]] == before[one[j - 1]]);
            assert(rest[j] == after[j - 1]);
        }
    }
    assert forall|i: int, j: int| 0 <= i < j < all.len() implies all[i] < all[j] by {
        if i > 0 {
            assert(one[i - 1] < one[j - 1]);
        } else {
            assert(0 <= one[j - 1]);
        }
    }
    assert(follow(row, all, rest));
}

/// Order by places is order.
proof fn same_order_outlives<S: PatternStream>(before: Seq<Peer<S>>, after: Seq<Peer<S>>)
    requires
        in_same_order(before, after),
    ensures
        outlive(before, after),
{
    let places = choose|places: Seq<int>| #[trigger] keep_order(before, places, after);
    assert forall|j: int| 0 <= j < places.len() implies 0 <= #[trigger] places[j] < before.len()
        && grew(before[places[j]], after[j]) by {
        call_grew(before[places[j]], after[j]);
    }
    assert(follow(before, places, after));
}

/// Who has just joined, if someone has, is left out.
pub open spec fn without_comer<S: PatternStream>(row: Seq<Peer<S>>, comer: bool) -> Seq<Peer<S>> {
    if comer {
        row.drop_last()
    } else {
        row
    }
}

/// A round over a line, with who is handed out in front.
proof fn line_in_order<S: PatternStream>(
    before: Chain<S>,
    round: Round<S>,
    step: Step<Option<(Peer<S>, Key)>>,
    after: Chain<S>,
)
    requires
        before.polled(round, step, after),
    ensures
        match step {
            Step::Ready(Some((peer, _))) => outlive(before.members, seq![peer] + after.members),
            _ => outlive(before.members, without_comer(after.members, round.joined.len() > 0)),
        },
{
    let line = before.members + round.joined;
    let n = round.visits.len() as int;
    match step {
        Step::Ready(Some((peer, _))) => {
            assert(line =~= before.members);
            let rest = line.skip(n);
            outlive_self(rest);
            assert(line[n - 1].called(
                Call::Next(round.visits[n - 1].answer),
                round.visits[n - 1].after,
            ));
            call_grew(line[n - 1], peer);
            outlive_behind(line[n - 1], peer, rest, rest);
            assert(seq![line[n - 1]] + rest =~= line.subrange(n - 1, line.len() as int));
            outlive_part(line, n - 1, line.len() as int);
            outlive_twice(line, seq![line[n - 1]] + rest, seq![peer] + rest);
        },
        _ => {
            if round.joined.len() > 0 {
                assert(after.members.drop_last() =~= before.members);
                outlive_self(before.members);
            } else {
                assert(line =~= before.members);
                line_keeps_order(before, round, step, after);
                same_order_outlives(before.members, after.members);
            }
        },
    }
}

/// The stream in hand, if there is one, in front of those in line.
pub open spec fn row<S: PatternStream>(held: Option<Peer<S>>, members: Seq<Peer<S>>) -> Seq<Peer<S>> {
    match held {
        Some(peer) => seq![peer] + members,
        None => members,
    }
}

/// A look at a line, with the stream in hand in front.
proof fn look_in_order<S: PatternStream>(
    held: Option<Peer<S>>,
    before: Chain<S>,
    round: Round<S>,
    step: Step<Option<(Peer<S>, Key)>>,
    later: Option<Peer<S>>,
    after: Chain<S>,
)
    requires
        before.polled(round, step, after),
        match step {
            Step::Ready(Some((peer, _))) => held is None && later == Some(peer),
            _ => later == held,
        },
    ensures
        outlive(
            row(held, before.members),
            without_comer(row(later, after.members), round.joined.len() > 0),
        ),
{
    line_in_order(before, round, step, after);
    match held {
        Some(peer) => {
            call_grew(peer, peer);
            let rest = without_comer(after.members, round.joined.len() > 0);
            outlive_behind(peer, peer, before.members, rest);
            assert(without_comer(row(later, after.members), round.joined.len() > 0) =~= seq![peer]
                + rest);
        },
        None => {},
    }
}

impl<S: PatternStream> PushView<S> {
    /// The streams in the order in which they get messages.
    pub open spec fn row(self) -> Seq<Peer<S>> {
        row(self.state.held(), self.streams.members)
    }
}

/// A look at the streams.
proof fn push_look_in_order<S: PatternStream>(
    before: PushView<S>,
    res: PushPoll<S>,
    after: PushView<S>,
)
    requires
        before.sound(),
        before.stream_polled(res, after),
    ensures
        outlive(before.row(), without_comer(after.row(), after.has_comer())),
        after.has_comer() ==> res is Again,
{
    let (round, step) = choose|round: Round<S>, step: Step<Option<(Peer<S>, Key)>>| #[trigger]
        before.streams.polled(round, step, after.streams) && after.closing == before.closing && (
        after.state,
        res,
    ) == match step {
            Step::Ready(ready) => before.state.on_streams_spec(Poll::Ready(ready)),
            Step::Pending => before.state.on_streams_spec(Poll::Pending),
            Step::Again => (before.state, PushPoll::Again),
        };
    if !(before.streams.turn is Free) {
        no_stream_without_the_turn(before.streams, round, step, after.streams);
    }
    assert(after.streams.ready.receipts().last() == round.receipts().last());
    if before.state is Msg && step matches Step::Ready(None) {
        look_in_order(None, before.streams, round, step, None, after.streams);
    } else {
        look_in_order(
            before.state.held(),
            before.streams,
            round,
            step,
            after.state.held(),
            after.streams,
        );
    }
}

/// The stream that had the message is gone.
proof fn push_failed_in_order<S: PatternStream>(
    before: PushView<S>,
    msg: S::Msg,
    error: S::Err,
    res: PushPoll<S>,
    after: PushView<S>,
)
    requires
        before.sound(),
        before.state.has_key(),
        before.failed(msg, error, res, after),
    ensures
        outlive(before.row(), without_comer(after.row(), after.has_comer())),
{
    let mid = choose|mid: Chain<S>| #[trigger]
        before.streams.gave_back(seq![Some(error)], mid) && (PushView {
            streams: mid,
            ..before
        }).assigned(msg, res, after);
    let freed = PushView { streams: mid, state: PushState::Msg(msg), closing: before.closing };
    push_look_in_order(freed, res, after);
    let all = before.row();
    outlive_part(all, 1, all.len() as int);
    assert(all.subrange(1, all.len() as int) =~= freed.row());
    outlive_twice(all, freed.row(), without_comer(after.row(), after.has_comer()));
}

/// The stream in hand was asked something, and is still in hand.
proof fn asked_in_order<S: PatternStream>(held: Peer<S>, later: Peer<S>, members: Seq<Peer<S>>)
    requires
        grew(held, later),
    ensures
        outlive(row(Some(held), members), row(Some(later), members)),
{
    outlive_self(members);
    outlive_behind(held, later, members, members);
}

/// A look at the state.
proof fn push_state_in_order<S: PatternStream>(
    before: PushView<S>,
    res: PushPoll<S>,
    after: PushView<S>,
)
    requires
        before.sound(),
        before.state is Readying || before.state is Sending,
        !before.has_comer(),
        before.state_polled(res, after),
    ensures
        if res == PushPoll::<S>::Poll(Poll::Ready(Ok(()))) {
            outlive(before.row(), after.row().drop_last()) && after.row().len() > 0
        } else {
            outlive(before.row(), without_comer(after.row(), after.has_comer()))
        },
{
    match before.state {
        PushState::Readying(msg, peer, key) => {
            let (ready, asked) = choose|ready: Poll<Result<(), S::Err>>, asked: Peer<S>| #[trigger]
                peer.called(Call::Ready(ready), asked) && match ready {
                    Poll::Pending => {
                        &&& after == PushView {
                            state: PushState::Readying(msg, asked, key),
                            ..before
                        }
                        &&& res == PushPoll::<S>::Poll(Poll::Pending)
                    },
                    Poll::Ready(Err(error)) => before.failed(msg, error, res, after),
                    Poll::Ready(Ok(())) => before.handed_over(msg, asked, key, res, after),
                };
            call_grew(peer, asked);
            match ready {
                Poll::Pending => {
                    asked_in_order(peer, asked, before.streams.members);
                },
                Poll::Ready(Err(error)) => {
                    push_look_not_done(before, msg, error, res, after);
                    push_failed_in_order(before, msg, error, res, after);
                },
                Poll::Ready(Ok(_)) => {
                    let (handed, done, given) = choose|
                        handed: S::Msg,
                        done: Result<(), S::Err>,
                        given: Peer<S>,
                    | #[trigger]
                        asked.called(Call::Send(handed, done), given) && cloned(msg, handed)
                            && match done {
                            Ok(()) => {
                                &&& after == PushView {
                                    state: PushState::Sending(msg, given, key),
                                    ..before
                                }
                                &&& res is Continue
                            },
                            Err(error) => before.failed(msg, error, res, after),
                        };
                    call_grew(asked, given);
                    grew_twice(peer, asked, given);
                    match done {
                        Ok(_) => {
                            asked_in_order(peer, given, before.streams.members);
                        },
                        Err(error) => {
                            push_look_not_done(before, msg, error, res, after);
                            push_failed_in_order(before, msg, error, res, after);
                        },
                    }
                },
            }
        },
        PushState::Sending(msg, peer, key) => {
            let (flushed, asked) = choose|flushed: Poll<Result<(), S::Err>>, asked: Peer<S>| #[trigger]
                peer.called(Call::Flush(flushed), asked) && match flushed {
                    Poll::Pending => {
                        &&& after == PushView {
                            state: PushState::Sending(msg, asked, key),
                            ..before
                        }
                        &&& res == PushPoll::<S>::Poll(Poll::Pending)
                    },
                    Poll::Ready(Err(error)) => before.failed(msg, error, res, after),
                    Poll::Ready(Ok(())) => {
                        &&& after.state is Pending
                        &&& after.closing == before.closing
                        &&& (Chain {
                            members: before.streams.members.push(asked),
                            ..before.streams
                        }).gave_back(Seq::empty(), after.streams)
                        &&& res == PushPoll::<S>::Poll(Poll::Ready(Ok(())))
                    },
                };
            call_grew(peer, asked);
            match flushed {
                Poll::Pending => {
                    asked_in_order(peer, asked, before.streams.members);
                },
                Poll::Ready(Err(error)) => {
                    push_look_not_done(before, msg, error, res, after);
                    push_failed_in_order(before, msg, error, res, after);
                },
                Poll::Ready(Ok(_)) => {
                    let all = before.row();
                    outlive_part(all, 1, all.len() as int);
                    assert(all.subrange(1, all.len() as int) =~= before.streams.members);
                    assert(after.row().drop_last() =~= before.streams.members);
                },
            }
        },
        _ => {},
    }
}

/// A message whose stream is gone is not sent yet.
proof fn push_look_not_done<S: PatternStream>(
    before: PushView<S>,
    msg: S::Msg,
    error: S::Err,
    res: PushPoll<S>,
    after: PushView<S>,
)
    requires
        before.failed(msg, error, res, after),
    ensures
        res != PushPoll::<S>::Poll(Poll::Ready(Ok(()))),
{
}

/// **Nobody overtakes another.** The stream in hand is in front of those in line. After a flush those that
/// are left are in the same order, and whoever is in hand was in front of all that are in line. Only
/// who has just joined, or has just sent the message in hand, is new at the end.
pub proof fn nobody_overtakes<S: PatternStream>(
    before: PushView<S>,
    step: Step<Result<(), PushError<S>>>,
    after: PushView<S>,
)
    requires
        before.sound(),
        before.flushed(step, after),
    ensures
        if before.state.msg() is Some && step == Step::<Result<(), PushError<S>>>::Ready(Ok(())) {
            outlive(before.row(), after.row().drop_last()) && after.row().len() > 0
        } else {
            outlive(before.row(), without_comer(after.row(), after.has_comer()))
        },
{
    let (first, mid) = choose|first: PushPoll<S>, mid: PushView<S>| #[trigger]
        before.stream_polled(first, mid) && mid.looked(first, step, after);
    push_look(before, first, mid);
    push_look_in_order(before, first, mid);
    if first is Continue {
        let second = choose|second: PushPoll<S>| #[trigger]
            mid.state_polled(second, after) && step == second.step_spec();
        push_state_in_order(mid, second, after);
        if second == PushPoll::<S>::Poll(Poll::Ready(Ok(()))) {
            outlive_twice(before.row(), mid.row(), after.row().drop_last());
        } else {
            outlive_twice(
                before.row(),
                mid.row(),
                without_comer(after.row(), after.has_comer()),
            );
        }
    }
}

impl<S: PatternStream> ReqView<S> {
    /// The streams in the order in which they get requests.
    pub open spec fn row(self) -> Seq<Peer<S>> {
        row(self.state.held(), self.streams.members)
    }
}

/// A look at the streams.
proof fn req_look_in_order<S: PatternStream>(
    before: ReqView<S>,
    res: Option<PrePoll>,
    after: ReqView<S>,
)
    requires
        before.sound(),
        before.stream_polled(res, after),
    ensures
        outlive(before.row(), without_comer(after.row(), after.has_comer())),
        after.has_comer() ==> res is None,
{
    let (round, step) = choose|round: Round<S>, step: Step<Option<(Peer<S>, Key)>>| #[trigger]
        before.streams.polled(round, step, after.streams) && after == (ReqView {
            streams: after.streams,
            state: after.state,
            ..before
        }) && match step {
            Step::Ready(ready) => {
                let next = before.state.on_streams_spec(Poll::Ready(ready));
                after.state == next.0 && res == Some(next.1)
            },
            Step::Pending => {
                let next = before.state.on_streams_spec(Poll::Pending);
                after.state == next.0 && res == Some(next.1)
            },
            Step::Again => after.state == before.state && res is None,
        };
    if !(before.streams.turn is Free) {
        no_stream_without_the_turn(before.streams, round, step, after.streams);
    }
    assert(after.streams.ready.receipts().last() == round.receipts().last());
    look_in_order(
        before.state.held(),
        before.streams,
        round,
        step,
        after.state.held(),
        after.streams,
    );
}

/// The stream that had the request is gone.
proof fn req_failed_in_order<S: PatternStream>(
    before: ReqView<S>,
    msg: S::Msg,
    owed: Owed<S::Msg, S::Msg>,
    done: Done<S>,
    res: ReqPoll,
    after: ReqView<S>,
)
    requires
        before.sound(),
        before.state.is_busy(),
        before.failed(msg, owed, done, res, after),
    ensures
        outlive(before.row(), without_comer(after.row(), after.has_comer())),
        after.kept == before.kept,
{
    let (mid, pre) = choose|mid: Chain<S>, pre: Option<PrePoll>| #[trigger]
        before.streams.gave_back(seq![done], mid) && #[trigger] (ReqView {
            streams: mid,
            state: ReqState::Msg(msg, owed),
            ..before
        }).stream_polled(pre, after) && res == match pre {
            Some(PrePoll::Continue) => ReqPoll::Continue,
            Some(PrePoll::Break) => ReqPoll::End,
            Some(PrePoll::Pending) => ReqPoll::Pending,
            None => ReqPoll::Again,
        };
    let freed = ReqView { streams: mid, state: ReqState::Msg(msg, owed), ..before };
    req_look_in_order(freed, pre, after);
    let all = before.row();
    outlive_part(all, 1, all.len() as int);
    assert(all.subrange(1, all.len() as int) =~= freed.row());
    outlive_twice(all, freed.row(), without_comer(after.row(), after.has_comer()));
}

/// A look at the state.
proof fn req_state_in_order<S: PatternStream>(before: ReqView<S>, res: ReqPoll, after: ReqView<S>)
    requires
        before.sound(),
        before.state.is_busy(),
        !before.has_comer(),
        before.state_polled(res, after),
    ensures
        if after.kept.len() > before.kept.len() {
            outlive(before.row(), after.row().drop_last()) && after.row().len() > 0
        } else {
            outlive(before.row(), without_comer(after.row(), after.has_comer()))
        },
{
    let members = before.streams.members;
    match before.state {
        ReqState::Readying(msg, owed, peer, key) => {
            let (ready, asked) = choose|ready: Poll<Result<(), S::Err>>, asked: Peer<S>| #[trigger]
                peer.called(Call::Ready(ready), asked) && match ready {
                    Poll::Pending => {
                        &&& after == ReqView {
                            state: ReqState::Readying(msg, owed, asked, key),
                            ..before
                        }
                        &&& res is Pending
                    },
                    Poll::Ready(Err(error)) => before.failed(msg, owed, Some(error), res, after),
                    Poll::Ready(Ok(())) => before.handed_over(msg, owed, asked, key, res, after),
                };
            call_grew(peer, asked);
            match ready {
                Poll::Pending => {
                    asked_in_order(peer, asked, members);
                },
                Poll::Ready(Err(error)) => {
                    req_failed_in_order(before, msg, owed, Some(error), res, after);
                },
                Poll::Ready(Ok(_)) => {
                    let (handed, done, given) = choose|
                        handed: S::Msg,
                        done: Result<(), S::Err>,
                        given: Peer<S>,
                    | #[trigger]
                        asked.called(Call::Send(handed, done), given) && cloned(msg, handed)
                            && match done {
                            Ok(()) => {
                                &&& after == ReqView {
                                    state: ReqState::Sending(msg, owed, given, key),
                                    ..before
                                }
                                &&& res is Continue
                            },
                            Err(error) => before.failed(msg, owed, Some(error), res, after),
                        };
                    call_grew(asked, given);
                    grew_twice(peer, asked, given);
                    match done {
                        Ok(_) => {
                            asked_in_order(peer, given, members);
                        },
                        Err(error) => {
                            req_failed_in_order(before, msg, owed, Some(error), res, after);
                        },
                    }
                },
            }
        },
        ReqState::Sending(msg, owed, peer, key) => {
            let (flushed, asked) = choose|flushed: Poll<Result<(), S::Err>>, asked: Peer<S>| #[trigger]
                peer.called(Call::Flush(flushed), asked) && match flushed {
                    Poll::Pending => {
                        &&& after == ReqView {
                            state: ReqState::Sending(msg, owed, asked, key),
                            ..before
                        }
                        &&& res is Pending
                    },
                    Poll::Ready(Err(error)) => before.failed(msg, owed, Some(error), res, after),
                    Poll::Ready(Ok(())) => {
                        &&& after == ReqView {
                            state: ReqState::Receiving(msg, owed, asked, key),
                            ..before
                        }
                        &&& res is Continue
                    },
                };
            call_grew(peer, asked);
            match flushed {
                Poll::Ready(Err(error)) => {
                    req_failed_in_order(before, msg, owed, Some(error), res, after);
                },
                _ => {
                    asked_in_order(peer, asked, members);
                },
            }
        },
        ReqState::Receiving(msg, owed, peer, key) => {
            let (next, asked) = choose|
                next: Poll<Option<Result<S::Msg, S::Err>>>,
                asked: Peer<S>,
            | #[trigger]
                peer.called(Call::Next(next), asked) && match next {
                    Poll::Pending => {
                        &&& after == ReqView {
                            state: ReqState::Receiving(msg, owed, asked, key),
                            ..before
                        }
                        &&& res is Pending
                    },
                    Poll::Ready(Some(Err(error))) => before.failed(
                        msg,
                        owed,
                        Some(error),
                        res,
                        after,
                    ),
                    Poll::Ready(None) => before.failed(msg, owed, None, res, after),
                    Poll::Ready(Some(Ok(reply))) => {
                        &&& after.state is Pending
                        &&& after.requests == before.requests
                        &&& after.kept == before.kept.push((owed.promise(), reply))
                        &&& (Chain {
                            members: before.streams.members.push(asked),
                            ..before.streams
                        }).gave_back(Seq::empty(), after.streams)
                        &&& res is Break
                    },
                };
            call_grew(peer, asked);
            match next {
                Poll::Pending => {
                    asked_in_order(peer, asked, members);
                },
                Poll::Ready(Some(Ok(_))) => {
                    let all = before.row();
                    outlive_part(all, 1, all.len() as int);
                    assert(all.subrange(1, all.len() as int) =~= members);
                    assert(after.row().drop_last() =~= members);
                },
                Poll::Ready(Some(Err(error))) => {
                    req_failed_in_order(before, msg, owed, Some(error), res, after);
                },
                Poll::Ready(None) => {
                    req_failed_in_order(before, msg, owed, None, res, after);
                },
            }
        },
        _ => {},
    }
}

/// A look at the requests. The stream in hand stays in hand, or is dropped.
proof fn req_msg_in_order<S: PatternStream>(before: ReqView<S>, res: PrePoll, after: ReqView<S>)
    requires
        before.msg_polled(res, after),
    ensures
        outlive(before.row(), after.row()),
        after.streams.ready == before.streams.ready,
{
    let all = before.row();
    outlive_self(all);
    if after.state.held() != before.state.held() {
        outlive_part(all, 1, all.len() as int);
        assert(all.subrange(1, all.len() as int) =~= after.row());
    }
}

/// **Nobody overtakes another on the way to a request.** The stream in hand is in front of those in line.
/// Those that are left are in the same order, and whoever is in hand was in front of all that are in
/// line. Only who has just joined, or has just replied, is new at the end.
pub proof fn nobody_overtakes_for_a_request<S: PatternStream>(
    before: ReqView<S>,
    step: Step<()>,
    after: ReqView<S>,
)
    requires
        before.sound(),
        !(before.streams.turn is Lost),
        before.polled(step, after),
    ensures
        if after.kept.len() > before.kept.len() {
            outlive(before.row(), after.row().drop_last()) && after.row().len() > 0
        } else {
            outlive(before.row(), without_comer(after.row(), after.has_comer()))
        },
{
    let (first, seen) = choose|first: Option<PrePoll>, seen: ReqView<S>| #[trigger]
        before.stream_polled(first, seen) && match first {
            None => after == seen && step is Again,
            Some(first) => exists|second: PrePoll, mid: ReqView<S>| #[trigger]
                seen.msg_polled(second, mid) && if first is Break || second is Break {
                    after == mid && step is Ready
                } else if first is Pending || second is Pending {
                    after == mid && step is Pending
                } else {
                    exists|third: ReqPoll| #[trigger]
                        mid.state_polled(third, after) && step == match third {
                            ReqPoll::Pending => Step::<()>::Pending,
                            ReqPoll::End => Step::Ready(()),
                            ReqPoll::Continue | ReqPoll::Break | ReqPoll::Again => Step::Again,
                        }
                },
        };
    req_look(before, first, seen);
    req_look_in_order(before, first, seen);
    match first {
        None => {},
        Some(first) => {
            let (second, mid) = choose|second: PrePoll, mid: ReqView<S>| #[trigger]
                seen.msg_polled(second, mid) && if first is Break || second is Break {
                    after == mid && step is Ready
                } else if first is Pending || second is Pending {
                    after == mid && step is Pending
                } else {
                    exists|third: ReqPoll| #[trigger]
                        mid.state_polled(third, after) && step == match third {
                            ReqPoll::Pending => Step::<()>::Pending,
                            ReqPoll::End => Step::Ready(()),
                            ReqPoll::Continue | ReqPoll::Break | ReqPoll::Again => Step::Again,
                        }
                };
            msg_polled_law(seen, second, mid);
            req_msg_in_order(seen, second, mid);
            outlive_twice(before.row(), seen.row(), mid.row());
            if first is Continue && second is Continue {
                let third = choose|third: ReqPoll| #[trigger]
                    mid.state_polled(third, after) && step == match third {
                        ReqPoll::Pending => Step::<()>::Pending,
                        ReqPoll::End => Step::Ready(()),
                        ReqPoll::Continue | ReqPoll::Break | ReqPoll::Again => Step::Again,
                    };
                req_state_in_order(mid, third, after);
                if after.kept.len() > before.kept.len() {
                    outlive_twice(before.row(), mid.row(), after.row().drop_last());
                } else {
                    outlive_twice(
                        before.row(),
                        mid.row(),
                        without_comer(after.row(), after.has_comer()),
                    );
                }
            }
        },
    }
}

} // verus!
