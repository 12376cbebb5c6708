//! Who is in line, in which order, and that nobody waits in vain.
use crate::chain_laws::{none_unlocks, visited};
use crate::channel::Receipt;
use crate::push_stream::{endings, had_more, stay, unlocks, Chain, Key, Round, Turn, Visit};
use crate::rep_impl::{quiet, RepView};
use crate::stream::{Call, PatternStream, Peer};
use crate::task::Step;
use crate::turn_laws::rising;
use core::task::Poll;
use vstd::prelude::*;

verus! {

/// `after` is the same stream, of which nothing more was asked but for at most one message.
pub open spec fn looked_at<S: PatternStream>(before: Peer<S>, after: Peer<S>) -> bool {
    ||| after == before
    ||| exists|answer: Poll<Option<Result<S::Msg, S::Err>>>| #[trigger]
        before.called(Call::Next(answer), after)
}

/// Each of `after` is the stream that had this place in `before`, and they are in the same order.
pub open spec fn keep_order<S: PatternStream>(
    before: Seq<Peer<S>>,
    places: Seq<int>,
    after: Seq<Peer<S>>,
) -> bool {
    &&& places.len() == after.len()
    &&& rising(places)
    &&& forall|j: int|
        0 <= j < places.len() ==> 0 <= #[trigger] places[j] < before.len() && looked_at(
            before[places[j]],
            after[j],
        )
}

/// The streams of `after` are some of `before`, in the same order.
pub open spec fn in_same_order<S: PatternStream>(before: Seq<Peer<S>>, after: Seq<Peer<S>>) -> bool {
    exists|places: Seq<int>| #[trigger] keep_order(before, places, after)
}

/// One more of the streams is kept, or the rest of them.
proof fn order_goes_on<S: PatternStream>(
    line: Seq<Peer<S>>,
    places: Seq<int>,
    first: Seq<Peer<S>>,
    n: int,
)
    requires
        keep_order(line, places, first),
        0 <= n <= line.len(),
        forall|j: int| 0 <= j < places.len() ==> #[trigger] places[j] < n,
    ensures
        in_same_order(line, first + line.skip(n)),
        forall|one: Peer<S>|
            n < line.len() && #[trigger] looked_at(line[n], one) ==> keep_order(
                line,
                places.push(n),
                first.push(one),
            ),
{
    let all = places + Seq::new((line.len() - n) as nat, |i: int| n + i);
    assert(keep_order(line, all, first + line.skip(n))) by {
        assert forall|j: int| 0 <= j < all.len() implies 0 <= #[trigger] all[j] < line.len()
            && looked_at(line[all[j]], (first + line.skip(n))[j]) by {
            if j < places.len() {
                assert(places[j] == all[j]);
            }
        }
    }
    assert forall|one: Peer<S>| n < line.len() && #[trigger] looked_at(line[n], one) implies keep_order(
        line,
        places.push(n),
        first.push(one),
    ) by {
        let more = places.push(n);
        assert forall|j: int| 0 <= j < more.len() implies 0 <= #[trigger] more[j] < line.len()
            && looked_at(line[more[j]], first.push(one)[j]) by {
            if j < places.len() {
                assert(places[j] == more[j]);
            }
        }
    }
}

/// Those that stay in line keep their order.
proof fn stay_keeps_order<S: PatternStream>(
    line: Seq<Peer<S>>,
    visits: Seq<Visit<S>>,
    turn: Turn,
) -> (places: Seq<int>)
    requires
        visited(line, visits),
    ensures
        keep_order(line, places, stay(visits, turn)),
        forall|j: int| 0 <= j < places.len() ==> #[trigger] places[j] < visits.len(),
    decreases visits.len(),
{
    if visits.len() == 0 {
        Seq::empty()
    } else {
        let less = visits.drop_last();
        let n = visits.len() - 1;
        assert forall|i: int| 0 <= i < less.len() implies line[i].called(
            Call::Next((#[trigger] less[i]).answer),
            less[i].after,
        ) by {
            assert(less[i] == visits[i]);
        }
        let places = stay_keeps_order(line, less, turn);
        order_goes_on(line, places, stay(less, turn), n);
        assert(line[n].called(Call::Next(visits[n].answer), visits[n].after));
        assert(looked_at(line[n], visits[n].after));
        if stay(visits, turn).len() > stay(less, turn).len() {
            places.push(n)
        } else {
            places
        }
    }
}

/// **A line keeps its order.** Whoever is in line after a round was in line before, or has just
/// joined at the end, and nobody has overtaken another. It was asked for at most one message.
pub proof fn line_keeps_order<S: PatternStream>(
    before: Chain<S>,
    round: Round<S>,
    step: Step<Option<(Peer<S>, Key)>>,
    after: Chain<S>,
)
    requires
        before.polled(round, step, after),
    ensures
        in_same_order(before.members + round.joined, after.members),
{
    let line = before.members + round.joined;
    let visits = round.visits;
    let n = visits.len() as int;
    let none = Seq::<int>::empty();
    assert(keep_order(line, none, Seq::empty()));
    order_goes_on(line, none, Seq::empty(), 0);
    assert(Seq::<Peer<S>>::empty() + line.skip(0) =~= line);
    order_goes_on(line, none, Seq::empty(), n);
    assert(Seq::<Peer<S>>::empty() + line.skip(n) =~= line.skip(n));
    let places = stay_keeps_order(line, visits, before.turn);
    order_goes_on(line, places, stay(visits, before.turn), n);
    if n == line.len() {
        assert(stay(visits, before.turn) + line.skip(n) =~= stay(visits, before.turn));
    }
}

/// **Who wants to join does, at the end of the line.** Nothing is asked of it or of the others
/// then, nobody is handed out, and nothing is reported.
pub proof fn who_comes_joins<S: PatternStream>(
    before: Chain<S>,
    round: Round<S>,
    step: Step<Option<(Peer<S>, Key)>>,
    after: Chain<S>,
)
    requires
        before.polled(round, step, after),
    ensures
        after.ready.receipts().last() matches Receipt::Polled(Poll::Ready(Some(stream))) ==> {
            &&& step is Again
            &&& after.members.len() == before.members.len() + 1
            &&& after.members.drop_last() == before.members
            &&& after.members.last().origin() == stream
            &&& after.members.last().calls().len() == 0
            &&& after.turn == before.turn
            &&& after.done.handed() == before.done.handed()
        },
{
    assert(after.ready.receipts().last() == round.receipts().last());
    if round.joined.len() > 0 {
        assert(after.members.drop_last() =~= before.members);
        assert(endings(round.visits) =~= Seq::empty());
        assert(after.done.handed() =~= before.done.handed());
    }
}

/// A message came from the stream when it was last asked for one.
pub open spec fn has_more<S: PatternStream>(peer: Peer<S>) -> bool {
    &&& peer.calls().len() > 0
    &&& peer.calls().last() matches Call::Next(Poll::Ready(Some(Ok(_))))
}

/// One of these had a message.
pub open spec fn some_has_more<S: PatternStream>(members: Seq<Peer<S>>) -> bool {
    exists|i: int| 0 <= i < members.len() && has_more(#[trigger] members[i])
}

/// If the turn is free, and nobody takes it, all are gone.
proof fn free_turn_stays<S: PatternStream>(visits: Seq<Visit<S>>)
    requires
        none_unlocks(visits, Turn::Free),
        forall|i: int| 0 <= i < visits.len() ==> !had_more(#[trigger] visits[i]),
    ensures
        stay(visits, Turn::Free).len() == 0,
    decreases visits.len(),
{
    if visits.len() > 0 {
        let less = visits.drop_last();
        assert forall|k: int| 0 <= k <= less.len() implies !unlocks(
            #[trigger] less.take(k),
            Turn::Free,
        ) by {
            assert(less.take(k) =~= visits.take(k));
        }
        assert forall|i: int| 0 <= i < less.len() implies !had_more(#[trigger] less[i]) by {
            assert(less[i] == visits[i]);
        }
        free_turn_stays(less);
        assert(visits.take(visits.len() as int) =~= visits);
        assert(!had_more(visits[visits.len() - 1]));
    }
}

/// **A free turn is taken.** While the turn is free, and there is a stream in line, one is handed
/// out, unless there is more to do at once. There is only when a stream has come, or one in line had
/// a message. It is said that no stream will ever be handed out exactly if there are none, and it was
/// just said that none can come.
pub proof fn a_free_turn_is_taken<S: PatternStream>(
    before: Chain<S>,
    round: Round<S>,
    step: Step<Option<(Peer<S>, Key)>>,
    after: Chain<S>,
)
    requires
        before.polled(round, step, after),
    ensures
        before.turn is Free && after.members.len() > 0 ==> step is Again
            || step matches Step::Ready(Some(_)),
        step is Again ==> some_has_more(after.members)
            || after.ready.receipts().last() matches Receipt::Polled(Poll::Ready(Some(_))),
        step == Step::<Option<(Peer<S>, Key)>>::Ready(None) <==> after.members.len() == 0
            && after.ready.receipts().last() == Receipt::<S>::Closed(true),
{
    let line = before.members + round.joined;
    let visits = round.visits;
    let n = visits.len() as int;
    assert(after.ready.receipts().last() == round.receipts().last());
    if before.turn is Free && round.joined.len() == 0 && !(step is Again) && !(
    step matches Step::Ready(Some(_))) {
        free_turn_stays(visits);
    }
    if step is Again && round.joined.len() == 0 {
        let kept = stay(visits, before.turn);
        assert(line[n - 1].called(Call::Next(visits[n - 1].answer), visits[n - 1].after));
        assert(kept.last() == visits.last().after);
        assert(has_more(after.members[kept.len() - 1]));
    }
}

/// Those that had no request keep their order.
proof fn quiet_keeps_order<S: PatternStream>(line: Seq<Peer<S>>, visits: Seq<Visit<S>>) -> (places:
    Seq<int>)
    requires
        visited(line, visits),
    ensures
        keep_order(line, places, quiet(visits)),
        forall|j: int| 0 <= j < places.len() ==> #[trigger] places[j] < visits.len(),
    decreases visits.len(),
{
    if visits.len() == 0 {
        Seq::empty()
    } else {
        let less = visits.drop_last();
        let n = visits.len() - 1;
        assert forall|i: int| 0 <= i < less.len() implies line[i].called(
            Call::Next((#[trigger] less[i]).answer),
            less[i].after,
        ) by {
            assert(less[i] == visits[i]);
        }
        let places = quiet_keeps_order(line, less);
        order_goes_on(line, places, quiet(less), n);
        assert(line[n].called(Call::Next(visits[n].answer), visits[n].after));
        assert(looked_at(line[n], visits[n].after));
        if quiet(visits).len() > quiet(less).len() {
            places.push(n)
        } else {
            places
        }
    }
}

/// **Streams that are asked for requests keep their order.**
pub proof fn repliers_keep_order<S: PatternStream>(
    before: RepView<S>,
    round: Round<S>,
    step: Step<Option<(Peer<S>, S::Msg)>>,
    after: RepView<S>,
)
    requires
        before.polled(round, step, after),
    ensures
        in_same_order(before.members + round.joined, after.members),
{
    let line = before.members + round.joined;
    let visits = round.visits;
    let n = visits.len() as int;
    let none = Seq::<int>::empty();
    assert(keep_order(line, none, Seq::empty()));
    order_goes_on(line, none, Seq::empty(), 0);
    assert(Seq::<Peer<S>>::empty() + line.skip(0) =~= line);
    match step {
        Step::Ready(Some(_)) => {
            let less = visits.drop_last();
            assert forall|i: int| 0 <= i < less.len() implies line[i].called(
                Call::Next((#[trigger] less[i]).answer),
                less[i].after,
            ) by {
                assert(less[i] == visits[i]);
            }
            let places = quiet_keeps_order(line, less);
            order_goes_on(line, places, quiet(less), n);
        },
        _ => {
            let places = quiet_keeps_order(line, visits);
            assert(in_same_order(line, quiet(visits)));
        },
    }
}

} // verus!
