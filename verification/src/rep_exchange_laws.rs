//! That each request is replied to once, by the stream's own reply, and who is reported while replying.
use crate::calls::{says_ready, will_wake};
use crate::chain_laws::visited;
use crate::exchange_laws::{course_on, Stage};
use crate::push_stream::{ended, Round, Visit};
use crate::rep_impl::{brought, quiet, Phase, RepRunView, RepView};
use crate::rep_laws::moves_on;
use crate::report_laws::{
    all_gone, count, count_concat, count_one, gone_are_reported, gone_of, is_gone, joins,
    joins_concat, joins_of_round, report_of, reports_of,
};
use crate::req_exchange_laws::went_on;
use crate::stream::{Call, PatternStream, Peer};
use crate::task::Step;
use core::task::Poll;
use vstd::prelude::*;

verus! {

/// How far a stream has come that requests come from, one at a time: once it has asked, it is asked
/// for nothing but whether it is ready, is then handed the reply, and is asked for nothing but to
/// send it, until it has. If there is no reply, it is closed.
pub open spec fn answering<M, E>(calls: Seq<Call<M, E>>) -> Stage
    decreases calls.len(),
{
    if calls.len() == 0 {
        Stage::Rest
    } else {
        match (answering(calls.drop_last()), calls.last()) {
            (Stage::Rest, Call::Next(Poll::Pending)) => Stage::Rest,
            (Stage::Rest, Call::Next(Poll::Ready(Some(Ok(_))))) => Stage::Asked,
            (Stage::Asked, Call::Ready(Poll::Pending)) => Stage::Asked,
            (Stage::Asked, Call::Ready(Poll::Ready(Ok(_)))) => Stage::Armed,
            (Stage::Armed, Call::Send(_, Ok(_))) => Stage::Taken,
            (Stage::Taken, Call::Flush(Poll::Pending)) => Stage::Taken,
            (Stage::Taken, Call::Flush(Poll::Ready(Ok(_)))) => Stage::Rest,
            (Stage::Asked, Call::Close(Poll::Pending)) => Stage::Closing,
            (Stage::Closing, Call::Close(Poll::Pending)) => Stage::Closing,
            _ => Stage::Odd,
        }
    }
}

/// How many requests came from the stream, and how many replies it has sent.
pub open spec fn tally<M, E>(calls: Seq<Call<M, E>>) -> (nat, nat)
    decreases calls.len(),
{
    if calls.len() == 0 {
        (0, 0)
    } else {
        let before = tally(calls.drop_last());
        match calls.last() {
            Call::Next(Poll::Ready(Some(Ok(_)))) => (before.0 + 1, before.1),
            Call::Send(_, Ok(_)) => (before.0, before.1 + 1),
            _ => before,
        }
    }
}

/// **One reply for each request.** A stream of which nothing was asked out of order has taken as
/// many replies as requests came from it, but for the last one, while it is at work.
pub proof fn one_reply_each<M, E>(calls: Seq<Call<M, E>>)
    requires
        !(answering(calls) is Odd),
    ensures
        tally(calls).0 == tally(calls).1 + if answering(calls) is Rest || answering(calls) is Taken {
            0nat
        } else {
            1
        },
    decreases calls.len(),
{
    if calls.len() > 0 {
        one_reply_each(calls.drop_last());
    }
}

/// All of these are at rest.
pub open spec fn all_answered<S: PatternStream>(peers: Seq<Peer<S>>) -> bool {
    forall|i: int| 0 <= i < peers.len() ==> answering((#[trigger] peers[i]).calls()) is Rest
}

/// Those that had no request are at rest.
proof fn quiet_rests<S: PatternStream>(line: Seq<Peer<S>>, visits: Seq<Visit<S>>)
    requires
        all_answered(line),
        visited(line, visits),
    ensures
        all_answered(quiet(visits)),
    decreases visits.len(),
{
    if visits.len() > 0 {
        let less = visits.drop_last();
        let n = visits.len() - 1;
        assert forall|i: int| 0 <= i < less.len() implies line[i].called(
            Call::Next((#[trigger] less[i]).answer),
            less[i].after,
        ) by {
            assert(less[i] == visits[i]);
        }
        quiet_rests(line, less);
        assert(line[n].called(Call::Next(visits[n].answer), visits[n].after));
        course_on(line[n], Call::Next(visits[n].answer), visits[n].after);
        assert(answering(line[n].calls()) is Rest);
    }
}

/// A round asks for nothing but requests.
proof fn round_rests<S: PatternStream>(
    before: RepView<S>,
    round: Round<S>,
    step: Step<Option<(Peer<S>, S::Msg)>>,
    after: RepView<S>,
)
    requires
        before.polled(round, step, after),
        all_answered(before.members),
    ensures
        all_answered(after.members),
        step matches Step::Ready(Some((peer, msg))) ==> answering(peer.calls()) is Asked
            && peer.calls().last() == Call::<S::Msg, S::Err>::Next(Poll::Ready(Some(Ok(msg)))),
{
    let line = before.members + round.joined;
    let visits = round.visits;
    let n = visits.len() as int;
    assert(all_answered(line));
    quiet_rests(line, visits);
    match step {
        Step::Ready(Some((peer, msg))) => {
            let less = visits.drop_last();
            assert forall|i: int| 0 <= i < less.len() implies line[i].called(
                Call::Next((#[trigger] less[i]).answer),
                less[i].after,
            ) by {
                assert(less[i] == visits[i]);
            }
            quiet_rests(line, less);
            course_on(line[n - 1], Call::Next(visits[n - 1].answer), peer);
            assert(answering(line[n - 1].calls()) is Rest);
        },
        _ => {},
    }
}

impl<'a, S: PatternStream> RepRunView<'a, S> {
    /// The streams were asked for one thing after the other, each in its time.
    pub open spec fn in_step(self) -> bool {
        &&& all_answered(self.rep.members)
        &&& match self.phase {
            Phase::Requesting(peer, _) => answering(peer.calls()) is Asked,
            Phase::Readying(peer, _) => answering(peer.calls()) is Asked,
            Phase::Flushing(peer) => answering(peer.calls()) is Taken,
            Phase::Refusing(held) => answering(held.peer().calls()) is Asked || answering(
                held.peer().calls(),
            ) is Closing,
            _ => true,
        }
    }

    /// The stream in hand is still in hand, and the others are left alone.
    pub open spec fn keeps_hold_of(self, later: Peer<S>, after: Self) -> bool {
        &&& after.held() == Some(later)
        &&& after.rep == self.rep
        &&& after.reported == self.reported
    }

    /// This stream has just sent its reply, and is the last in line.
    pub open spec fn has_sent(self, later: Peer<S>, after: Self) -> bool {
        &&& later.calls().last() matches Call::Flush(Poll::Ready(Ok(_)))
        &&& after.phase is Next
        &&& after.rep.members == self.rep.members.push(later)
        &&& after.reported == self.reported
    }

    /// This stream is gone, and its last words are under way.
    pub open spec fn has_lost(self, later: Peer<S>, after: Self) -> bool {
        &&& is_gone(later)
        &&& after.rep == self.rep
        &&& after.reported == self.reported.push(report_of(later))
        &&& after.phase matches Phase::Reporting(delivery) && {
            &&& delivery.item() == report_of(later)
            &&& delivery.sender() == self.done_s
            &&& delivery.answers().len() == 0
        }
    }

    /// What was asked of the stream in hand: nothing while the reply is waited for; whether it is
    /// ready, and then it is handed the reply exactly if it is; whether it has sent it; or to
    /// close, if there is no reply.
    pub open spec fn asks_for(self, more: Seq<Call<S::Msg, S::Err>>) -> bool {
        match self.phase {
            Phase::Requesting(_, _) => more.len() == 0,
            Phase::Readying(_, answer) => {
                &&& 0 < more.len() <= 2
                &&& more[0] is Ready
                &&& more.len() == 2 <==> says_ready(more[0])
                &&& more.len() == 2 ==> hands_on(more[1], answer)
            },
            Phase::Flushing(_) => more.len() == 1 && more[0] is Flush,
            Phase::Refusing(_) => more.len() == 1 && more[0] is Close,
            _ => false,
        }
    }

    /// These things more were asked of the stream in hand, and this came of it.
    pub open spec fn attends_to(
        self,
        more: Seq<Call<S::Msg, S::Err>>,
        later: Peer<S>,
        after: Self,
    ) -> bool {
        &&& went_on(self.held().unwrap(), more, later)
        &&& self.asks_for(more)
        &&& self.keeps_hold_of(later, after) || self.has_sent(later, after) || self.has_lost(
            later,
            after,
        )
    }
}

/// This very message is handed to it.
pub open spec fn hands_on<M, E>(call: Call<M, E>, msg: M) -> bool {
    call matches Call::Send(handed, _) && handed == msg
}

/// **Each request is replied to once.** The stream that a request came from is asked for nothing
/// while the reply is waited for. Then it is asked whether it is ready, is handed the reply when it
/// says so, and is asked for nothing but to send it, until it has, and is the last in line. If
/// there is no reply it is closed. If it is gone, its last words are reported. The streams in line
/// wait for no reply. As long as nothing can be done at once, the stream in hand will wake the
/// task, unless the reply is waited for.
pub proof fn a_reply_is_handed_over_once<'a, S: PatternStream>(
    before: RepRunView<'a, S>,
    step: Step<()>,
    after: RepRunView<'a, S>,
)
    requires
        before.in_step(),
        before.polled(step, after),
    ensures
        after.in_step(),
        before.held() is Some ==> exists|more: Seq<Call<S::Msg, S::Err>>, later: Peer<S>| #[trigger]
            before.attends_to(more, later, after),
        before.held() is Some && !(before.phase is Requesting) ==> {
            &&& step is Pending ==> after.held() is Some && will_wake(after.held().unwrap().calls())
            &&& step is Pending <==> after.stands_where(before)
        },
{
    let none = Seq::<Call<S::Msg, S::Err>>::empty();
    match before.phase {
        Phase::Next => {
            let (round, next, rep) = choose|
                round: Round<S>,
                next: Step<Option<(Peer<S>, S::Msg)>>,
                rep: RepView<S>,
            | #[trigger]
                before.rep.polled(round, next, rep) && match next {
                    Step::Again => after == (RepRunView { rep, ..before }) && step is Again,
                    Step::Pending => after == (RepRunView { rep, ..before }) && step is Pending,
                    Step::Ready(Some((peer, msg))) => {
                        &&& before.asks(rep, peer, msg, after)
                        &&& step is Again
                    },
                    Step::Ready(None) => {
                        &&& after == RepRunView {
                            rep: RepView { members: Seq::empty(), ..rep },
                            phase: Phase::Closing,
                            closing: before.closing + rep.members,
                            ..before
                        }
                        &&& step is Again
                    },
                };
            round_rests(before.rep, round, next, rep);
        },
        Phase::Requesting(peer, request) => {
            assert(peer.calls() + none =~= peer.calls());
            assert(before.attends_to(none, peer, after));
        },
        Phase::Refusing(held) => {
            let peer = held.peer();
            let (closed, asked) = choose|closed: Poll<Result<(), S::Err>>, asked: Peer<S>| #[trigger]
                peer.called(Call::Close(closed), asked) && match closed {
                    Poll::Pending => {
                        &&& after == RepRunView { phase: after.phase, ..before }
                        &&& after.phase matches Phase::Refusing(closing) && closing.peer() == asked
                        &&& step is Pending
                    },
                    Poll::Ready(closed) => before.reports(closed.err(), after) && step is Again,
                };
            course_on(peer, Call::Close(closed), asked);
            let one = seq![Call::Close(closed)];
            assert(asked.calls() =~= peer.calls() + one);
            assert(before.attends_to(one, asked, after));
        },
        Phase::Readying(peer, answer) => {
            let (ready, asked) = choose|ready: Poll<Result<(), S::Err>>, asked: Peer<S>| #[trigger]
                peer.called(Call::Ready(ready), asked) && match ready {
                    Poll::Pending => {
                        &&& after == RepRunView { phase: Phase::Readying(asked, answer), ..before }
                        &&& step is Pending
                    },
                    Poll::Ready(Err(error)) => before.reports(Some(error), after) && step is Again,
                    Poll::Ready(Ok(())) => before.handed_over(asked, answer, step, after),
                };
            course_on(peer, Call::Ready(ready), asked);
            let one = seq![Call::Ready(ready)];
            assert(asked.calls() =~= peer.calls() + one);
            if ready matches Poll::Ready(Ok(_)) {
                let (sent, given) = choose|sent: Result<(), S::Err>, given: Peer<S>| #[trigger]
                    asked.called(Call::Send(answer, sent), given) && step is Again && match sent {
                        Ok(()) => after == (RepRunView { phase: Phase::Flushing(given), ..before }),
                        Err(error) => before.reports(Some(error), after),
                    };
                course_on(asked, Call::Send(answer, sent), given);
                let two = one.push(Call::Send(answer, sent));
                assert(given.calls() =~= peer.calls() + two);
                assert(answering(asked.calls()) is Armed);
                assert(before.attends_to(two, given, after));
            } else {
                assert(before.attends_to(one, asked, after));
            }
        },
        Phase::Flushing(peer) => {
            let (flushed, asked) = choose|flushed: Poll<Result<(), S::Err>>, asked: Peer<S>| #[trigger]
                peer.called(Call::Flush(flushed), asked) && match flushed {
                    Poll::Pending => {
                        &&& after == RepRunView { phase: Phase::Flushing(asked), ..before }
                        &&& step is Pending
                    },
                    Poll::Ready(Err(error)) => before.reports(Some(error), after) && step is Again,
                    Poll::Ready(Ok(())) => {
                        &&& after == RepRunView {
                            rep: RepView { members: before.rep.members.push(asked), ..before.rep },
                            phase: Phase::Next,
                            ..before
                        }
                        &&& step is Again
                    },
                };
            course_on(peer, Call::Flush(flushed), asked);
            let one = seq![Call::Flush(flushed)];
            assert(asked.calls() =~= peer.calls() + one);
            if flushed matches Poll::Ready(Ok(_)) {
                assert(answering(asked.calls()) is Rest);
            }
            assert(before.attends_to(one, asked, after));
        },
        _ => {},
    }
}

impl<'a, S: PatternStream> RepRunView<'a, S> {
    /// It is as far with the stream in hand as the other was.
    pub open spec fn stands_where(self, other: Self) -> bool {
        match other.phase {
            Phase::Readying(_, _) => self.phase is Readying,
            Phase::Flushing(_) => self.phase is Flushing,
            Phase::Refusing(_) => self.phase is Refusing,
            _ => false,
        }
    }
}

/// Who is asked and brings no request is quiet or gone.
proof fn quiet_or_gone<S: PatternStream>(line: Seq<Peer<S>>, visits: Seq<Visit<S>>, stream: S)
    requires
        visited(line, visits),
        forall|i: int| 0 <= i < visits.len() ==> brought(#[trigger] visits[i]) is None,
    ensures
        count(line.take(visits.len() as int), stream) == count(quiet(visits), stream) + count(
            gone_of(visits),
            stream,
        ),
    decreases visits.len(),
{
    let n = visits.len() as int;
    if n > 0 {
        let less = visits.drop_last();
        assert forall|i: int| 0 <= i < less.len() implies line[i].called(
            Call::Next((#[trigger] less[i]).answer),
            less[i].after,
        ) && brought(less[i]) is None by {
            assert(less[i] == visits[i]);
        }
        quiet_or_gone(line, less, stream);
        assert(line.take(n).drop_last() =~= line.take(n - 1));
        assert(line[n - 1].called(Call::Next(visits[n - 1].answer), visits[n - 1].after));
        assert(brought(visits[n - 1]) is None);
        let kept = quiet(less);
        assert(kept.push(visits.last().after).drop_last() =~= kept);
        let left = gone_of(less);
        assert(left.push(visits.last().after).drop_last() =~= left);
    }
}

impl<S: PatternStream> RepView<S> {
    /// How many times this stream has joined without being here now.
    pub open spec fn absent(self, stream: S) -> int {
        joins(self.ready.receipts(), stream) - count(self.members, stream)
    }
}

/// Who leaves with a request.
pub open spec fn leaver<S: PatternStream>(step: Step<Option<(Peer<S>, S::Msg)>>) -> Seq<Peer<S>> {
    match step {
        Step::Ready(Some((peer, _))) => seq![peer],
        _ => Seq::empty(),
    }
}

/// **A round reports those that are gone, in the order in which it finds them so.** Whoever was
/// there, or joined, is still there, leaves with a request, or is among those that are reported.
pub proof fn round_reports_the_gone<S: PatternStream>(
    before: RepView<S>,
    round: Round<S>,
    step: Step<Option<(Peer<S>, S::Msg)>>,
    after: RepView<S>,
)
    requires
        before.polled(round, step, after),
    ensures
        all_gone(gone_of(round.visits)),
        before.done.handing(reports_of(gone_of(round.visits)), after.done),
        forall|stream: S| #[trigger]
            after.absent(stream) == before.absent(stream) + count(leaver(step), stream) + count(
                gone_of(round.visits),
                stream,
            ),
{
    let line = before.members + round.joined;
    let visits = round.visits;
    let n = visits.len() as int;
    gone_are_reported(line, visits);
    assert forall|stream: S| #[trigger]
        after.absent(stream) == before.absent(stream) + count(leaver(step), stream) + count(
            gone_of(visits),
            stream,
        ) by {
        joins_concat(before.ready.receipts(), round.receipts(), stream);
        joins_of_round(round, stream);
        count_concat(before.members, round.joined, stream);
        if round.joined.len() > 0 {
            assert(round.joined =~= seq![round.joined[0]]);
            count_one(round.joined[0], stream);
        } else {
            match step {
                Step::Ready(Some((peer, _))) => {
                    let first = visits.drop_last();
                    assert forall|i: int| 0 <= i < first.len() implies line[i].called(
                        Call::Next((#[trigger] first[i]).answer),
                        first[i].after,
                    ) && brought(first[i]) is None by {
                        assert(first[i] == visits[i]);
                    }
                    quiet_or_gone(line, first, stream);
                    assert(!ended(visits.last()));
                    assert(line[n - 1].called(
                        Call::Next(visits[n - 1].answer),
                        visits[n - 1].after,
                    ));
                    assert(line =~= line.take(n - 1) + seq![line[n - 1]] + line.skip(n));
                    count_concat(line.take(n - 1) + seq![line[n - 1]], line.skip(n), stream);
                    count_concat(line.take(n - 1), seq![line[n - 1]], stream);
                    count_concat(quiet(first), line.skip(n), stream);
                    count_one(line[n - 1], stream);
                    count_one(peer, stream);
                },
                _ => {
                    assert forall|i: int| 0 <= i < visits.len() implies brought(
                        #[trigger] visits[i],
                    ) is None by {}
                    assert(line.take(n) =~= line);
                    quiet_or_gone(line, visits, stream);
                },
            }
        }
    }
}

impl<'a, S: PatternStream> RepRunView<'a, S> {
    /// The stream in hand.
    pub open spec fn in_hand(self) -> Seq<Peer<S>> {
        match self.held() {
            Some(peer) => seq![peer],
            None => Seq::empty(),
        }
    }

    /// How many times this stream has joined without being here now.
    pub open spec fn absent(self, stream: S) -> int {
        self.rep.absent(stream) - count(self.in_hand(), stream)
    }

    /// The first of these have gone since while they had no request, and the others while they had
    /// one. Each was reported with its last words, in the order in which this was found. All others
    /// that were here, or have joined, are here.
    pub open spec fn lost(self, idle: Seq<Peer<S>>, busy: Seq<Peer<S>>, after: Self) -> bool {
        &&& all_gone(idle)
        &&& all_gone(busy)
        &&& self.rep.done.handing(reports_of(idle), after.rep.done)
        &&& after.reported == self.reported + reports_of(busy)
        &&& forall|stream: S| #[trigger]
            after.absent(stream) == self.absent(stream) + count(idle, stream) + count(busy, stream)
    }
}

/// **Only the gone are let go of, and each is reported.** What is reported in one poll of a machine
/// that replies are the last words of the streams that were found gone, in that order. All others
/// that were here or have joined are here.
pub proof fn rep_reports_the_gone<'a, S: PatternStream>(
    before: RepRunView<'a, S>,
    step: Step<()>,
    after: RepRunView<'a, S>,
)
    requires
        before.sound(),
        before.in_step(),
        before.polled(step, after),
    ensures
        exists|idle: Seq<Peer<S>>, busy: Seq<Peer<S>>| #[trigger] before.lost(idle, busy, after),
{
    let none = Seq::<Peer<S>>::empty();
    assert(reports_of(none) =~= Seq::empty());
    a_reply_is_handed_over_once(before, step, after);
    match before.held() {
        Some(peer) => {
            let (more, later) = choose|more: Seq<Call<S::Msg, S::Err>>, later: Peer<S>| #[trigger]
                before.attends_to(more, later, after);
            let busy = if before.has_lost(later, after) {
                seq![later]
            } else {
                none
            };
            assert(reports_of(seq![later]) =~= seq![report_of(later)]);
            assert(after.reported =~= before.reported + reports_of(busy));
            assert(after.rep.done.handed() =~= before.rep.done.handed() + reports_of(none));
            assert forall|stream: S| #[trigger]
                after.absent(stream) == before.absent(stream) + count(none, stream) + count(
                    busy,
                    stream,
                ) by {
                count_one(peer, stream);
                count_one(later, stream);
                count_concat(before.rep.members, seq![later], stream);
                assert(before.rep.members + seq![later] =~= before.rep.members.push(later));
            }
            assert(before.lost(none, busy, after));
        },
        None => {
            if before.phase is Next {
                let (round, next, rep) = choose|
                    round: Round<S>,
                    next: Step<Option<(Peer<S>, S::Msg)>>,
                    rep: RepView<S>,
                | #[trigger]
                    before.rep.polled(round, next, rep) && match next {
                        Step::Again => after == (RepRunView { rep, ..before }) && step is Again,
                        Step::Pending => after == (RepRunView { rep, ..before }) && step is Pending,
                        Step::Ready(Some((peer, msg))) => {
                            &&& before.asks(rep, peer, msg, after)
                            &&& step is Again
                        },
                        Step::Ready(None) => {
                            &&& after == RepRunView {
                                rep: RepView { members: Seq::empty(), ..rep },
                                phase: Phase::Closing,
                                closing: before.closing + rep.members,
                                ..before
                            }
                            &&& step is Again
                        },
                    };
                round_reports_the_gone(before.rep, round, next, rep);
                let idle = gone_of(round.visits);
                assert(after.reported =~= before.reported + reports_of(none));
                assert forall|stream: S| #[trigger]
                    after.absent(stream) == before.absent(stream) + count(idle, stream) + count(
                        none,
                        stream,
                    ) by {
                    assert(rep.absent(stream) == before.rep.absent(stream) + count(
                        leaver(next),
                        stream,
                    ) + count(idle, stream));
                    assert(after.in_hand() =~= leaver(next));
                    if next matches Step::Ready(None) {
                        assert(rep.members =~= none);
                    }
                }
                assert(before.lost(idle, none, after));
            } else {
                assert(after.rep.done.handed() =~= before.rep.done.handed() + reports_of(none));
                assert(after.reported =~= before.reported + reports_of(none));
                assert(before.lost(none, none, after));
            }
        },
    }
}

/// **All this holds at all times.** However often a machine is polled, the streams in line have
/// taken one reply for each request that came from them, and the stream in hand one for each but
/// the last.
pub proof fn rep_always_in_step<'a, S: PatternStream>(history: Seq<RepRunView<'a, S>>, n: int)
    requires
        0 <= n < history.len(),
        history[0].begins(),
        forall|i: int| 0 <= i < history.len() - 1 ==> #[trigger] moves_on(history, i),
    ensures
        history[n].in_step(),
        forall|i: int| #![trigger history[n].rep.members[i]]
            0 <= i < history[n].rep.members.len() ==> {
                let (asked, replied) = tally(history[n].rep.members[i].calls());
                asked == replied
            },
        history[n].held() matches Some(peer) ==> {
            let (asked, replied) = tally(peer.calls());
            replied <= asked <= replied + 1
        },
    decreases n,
{
    if n > 0 {
        rep_always_in_step(history, n - 1);
        assert(moves_on(history, n - 1));
        let step = choose|step: Step<()>| #[trigger] history[n - 1].polled(step, history[n]);
        a_reply_is_handed_over_once(history[n - 1], step, history[n]);
    }
    assert forall|i: int| #![trigger history[n].rep.members[i]]
        0 <= i < history[n].rep.members.len() implies {
        let (asked, replied) = tally(history[n].rep.members[i].calls());
        asked == replied
    } by {
        one_reply_each(history[n].rep.members[i].calls());
    }
    match history[n].held() {
        Some(peer) => {
            one_reply_each(peer.calls());
        },
        None => {},
    }
}

} // verus!
