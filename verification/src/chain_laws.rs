//! What holds of streams that take turns, whatever they answer.
use crate::calls::{
    all_good, all_will_wake, arrivals, arrivals_concat, call_is_proper, fresh_is_good, good,
    inbox_watched, look_is_watched, will_wake,
};
use crate::push_stream::{
    ended, endings, stay, unlocks, waiting, Chain, Key, Round, Turn, Visit,
};
use crate::stream::{Call, PatternStream, Peer};
use crate::task::Step;
use core::task::Poll;
use vstd::prelude::*;

verus! {

/// These visits are to the first streams of this line.
pub open spec fn visited<S: PatternStream>(line: Seq<Peer<S>>, visits: Seq<Visit<S>>) -> bool {
    &&& visits.len() <= line.len()
    &&& forall|i: int|
        0 <= i < visits.len() ==> line[i].called(
            Call::Next((#[trigger] visits[i]).answer),
            visits[i].after,
        )
}

/// All of these visits were to streams that are gone.
pub open spec fn all_ended<S: PatternStream>(visits: Seq<Visit<S>>) -> bool {
    forall|i: int| 0 <= i < visits.len() ==> ended(#[trigger] visits[i])
}

/// No stream takes the turn in the course of these visits.
pub open spec fn none_unlocks<S: PatternStream>(visits: Seq<Visit<S>>, turn: Turn) -> bool {
    forall|k: int| 0 <= k <= visits.len() ==> !unlocks(#[trigger] visits.take(k), turn)
}

/// What was true of all visits is true of all but the last.
proof fn visits_before<S: PatternStream>(
    line: Seq<Peer<S>>,
    visits: Seq<Visit<S>>,
    turn: Turn,
)
    requires
        visits.len() > 0,
    ensures
        visited(line, visits) ==> visited(line, visits.drop_last()),
        none_unlocks(visits, turn) ==> none_unlocks(visits.drop_last(), turn),
        none_unlocks(visits, turn) ==> !unlocks(visits, turn),
{
    let before = visits.drop_last();
    if none_unlocks(visits, turn) {
        assert forall|k: int| 0 <= k <= before.len() implies !unlocks(
            #[trigger] before.take(k),
            turn,
        ) by {
            assert(before.take(k) =~= visits.take(k));
        }
        assert(visits.take(visits.len() as int) =~= visits);
    }
}

/// Those that stay in line were used as they should be.
pub proof fn stay_is_good<S: PatternStream>(
    line: Seq<Peer<S>>,
    visits: Seq<Visit<S>>,
    turn: Turn,
)
    requires
        all_good(line),
        visited(line, visits),
    ensures
        all_good(stay(visits, turn)),
    decreases visits.len(),
{
    if visits.len() > 0 {
        visits_before(line, visits, turn);
        stay_is_good(line, visits.drop_last(), turn);
        let last = visits.last();
        let i = visits.len() - 1;
        call_is_proper(line[i], Call::Next(last.answer), last.after);
    }
}

/// Each stream that is visited stays in line or is reported, unless the turn is lost.
pub proof fn stay_or_report<S: PatternStream>(visits: Seq<Visit<S>>, turn: Turn)
    requires
        none_unlocks(visits, turn),
    ensures
        stay(visits, turn).len() + endings(visits).len() <= visits.len(),
        !(turn is Lost) ==> stay(visits, turn).len() + endings(visits).len() == visits.len(),
    decreases visits.len(),
{
    if visits.len() > 0 {
        visits_before(Seq::empty(), visits, turn);
        stay_or_report(visits.drop_last(), turn);
    }
}

impl<S: PatternStream> Chain<S> {
    /// How many streams have joined that are neither in line nor were reported.
    pub open spec fn abroad(self) -> int {
        arrivals(self.ready.receipts()) - self.members.len() - self.done.handed().len()
    }
}

/// **One at a time.** While someone has the turn, or it is lost, no stream is handed out.
pub proof fn no_stream_without_the_turn<S: PatternStream>(
    before: Chain<S>,
    round: Round<S>,
    step: Step<Option<(Peer<S>, Key)>>,
    after: Chain<S>,
)
    requires
        before.polled(round, step, after),
        !(before.turn is Free),
    ensures
        !(step matches Step::Ready(Some(_))),
        after.turn == before.turn,
{
}

/// **First come, first served.** A stream is handed out only once all that want to join are in line.
/// It is the first in line that is not gone; it takes the turn with it; and those behind it keep their
/// order.
pub proof fn first_in_line_is_served<S: PatternStream>(
    before: Chain<S>,
    round: Round<S>,
    peer: Peer<S>,
    key: Key,
    after: Chain<S>,
)
    requires
        before.polled(round, Step::Ready(Some((peer, key))), after),
    ensures
        ({
            let line = before.members;
            let n = round.visits.len() as int;
            &&& round.arrival is Pending || round.arrival == Poll::<Option<S>>::Ready(None)
            &&& 0 < n <= line.len()
            &&& all_ended(round.visits.drop_last())
            &&& line[n - 1].called(Call::Next(Poll::Pending), peer)
            &&& after.members == line.skip(n)
            &&& before.turn is Free
            &&& after.turn is Held
        }),
{
    assert(before.members + round.joined =~= before.members);
}

/// What is reported of streams that are all gone is one report each.
proof fn ended_are_reported<S: PatternStream>(visits: Seq<Visit<S>>)
    requires
        all_ended(visits),
    ensures
        endings(visits).len() == visits.len(),
    decreases visits.len(),
{
    if visits.len() > 0 {
        let before = visits.drop_last();
        ended_are_reported(before);
    }
}

/// **Nobody gets lost.** Each stream that has joined is in line, was reported, or is with
/// the one it was handed out to. Only while the turn is lost are streams let go of without
/// a word.
pub proof fn streams_are_accounted_for<S: PatternStream>(
    before: Chain<S>,
    round: Round<S>,
    step: Step<Option<(Peer<S>, Key)>>,
    after: Chain<S>,
)
    requires
        before.polled(round, step, after),
    ensures
        after.abroad() >= before.abroad(),
        !(before.turn is Lost) ==> after.abroad() == before.abroad() + if step matches Step::Ready(
            Some(_),
        ) {
            1int
        } else {
            0
        },
{
    let visits = round.visits;
    arrivals_concat(before.ready.receipts(), round.receipts());
    arrivals_of_round(round);
    match step {
        Step::Ready(Some(_)) => {
            let first = visits.drop_last();
            ended_are_reported(first);
        },
        _ => {
            stay_or_report(visits, before.turn);
        },
    }
}

/// One stream has joined in a round if one arrived.
pub proof fn arrivals_of_round<S: PatternStream>(round: Round<S>)
    ensures
        arrivals(round.receipts()) == if round.arrival matches Poll::Ready(Some(_)) {
            1nat
        } else {
            0
        },
{
    reveal_with_fuel(arrivals, 3);
}

/// **Streams are used as they should be.** If those in line were, they still are, and so was
/// the one that is handed out.
pub proof fn line_stays_good<S: PatternStream>(
    before: Chain<S>,
    round: Round<S>,
    step: Step<Option<(Peer<S>, Key)>>,
    after: Chain<S>,
)
    requires
        before.polled(round, step, after),
        all_good(before.members),
    ensures
        all_good(after.members),
        step matches Step::Ready(Some((peer, _))) ==> good(peer),
{
    let visits = round.visits;
    let line = before.members + round.joined;
    assert forall|i: int| 0 <= i < line.len() implies good(#[trigger] line[i]) by {
        if i >= before.members.len() {
            fresh_is_good(line[i]);
        }
    }
    match step {
        Step::Ready(Some((peer, _))) => {
            let n = visits.len() as int;
            call_is_proper(line[n - 1], Call::Next(visits.last().answer), peer);
        },
        _ => {
            stay_is_good(line, visits, before.turn);
        },
    }
}

/// Those that stay in line were asked; those that had no message are pending.
proof fn stay_will_wake<S: PatternStream>(
    line: Seq<Peer<S>>,
    visits: Seq<Visit<S>>,
    turn: Turn,
)
    requires
        visited(line, visits),
        forall|i: int|
            0 <= i < visits.len() ==> !(waiting(
                (#[trigger] visits[i]).answer,
                Turn::Held,
            ) is Again),
    ensures
        forall|j: int|
            0 <= j < stay(visits, turn).len() ==> will_wake(
                (#[trigger] stay(visits, turn)[j]).calls(),
            ),
    decreases visits.len(),
{
    if visits.len() > 0 {
        let before = visits.drop_last();
        visits_before(line, visits, turn);
        stay_will_wake(line, before, turn);
        assert forall|j: int| 0 <= j < stay(visits, turn).len() implies will_wake(
            (#[trigger] stay(visits, turn)[j]).calls(),
        ) by {
            if j < stay(before, turn).len() {
                assert(stay(visits, turn)[j] == stay(before, turn)[j]);
            }
        }
    }
}

/// **No wake-up is missed.** When nothing can be done now, each stream in line was just asked and
/// will wake the task, and so will the place that new streams come from, unless it is at its end.
pub proof fn pending_will_wake<S: PatternStream>(
    before: Chain<S>,
    round: Round<S>,
    after: Chain<S>,
)
    requires
        before.polled(round, Step::Pending, after),
    ensures
        all_will_wake(after.members),
        round.arrival is Pending || round.arrival == Poll::<Option<S>>::Ready(None),
{
    stay_will_wake(before.members + round.joined, round.visits, before.turn);
}

/// **No stream is left unseen.** Unless there is more to do at once, the place that new streams
/// come from will wake the task or is at its end. So will each stream in line, unless one was just
/// handed out: those behind it are asked the next time.
pub proof fn look_will_wake<S: PatternStream>(
    before: Chain<S>,
    round: Round<S>,
    step: Step<Option<(Peer<S>, Key)>>,
    after: Chain<S>,
)
    requires
        before.polled(round, step, after),
        !(step is Again),
    ensures
        inbox_watched(after.ready.receipts()),
        !(step matches Step::Ready(Some(_))) ==> all_will_wake(after.members),
{
    look_is_watched(before.ready.receipts(), round.arrival, round.closed);
    if step is Pending {
        pending_will_wake(before, round, after);
    }
}

} // verus!
