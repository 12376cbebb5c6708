//! What a published message is for: each stream that is there gets it.
use crate::calls::{arrivals, arrivals_concat};
use crate::pub_impl::{
    remain, served, Phase, PubAnswers, PubHand, PubRound, PubRunView, PubStream, PubView, PubVisit,
};
use crate::pub_laws::{
    all_settled, arrivals_of_round, flush_waits_for_all, moves_on, pub_always, publishes,
    round_keeps_streams,
};
use crate::pub_report_laws::pub_reports_meanwhile;
use crate::stream::{Call, PatternStream};
use crate::task::Step;
use vstd::prelude::*;

verus! {

/// The last thing that was handed over to the stream, and that it has taken, is a copy of `msg`.
pub open spec fn got<M: Clone, E>(calls: Seq<Call<M, E>>, msg: M) -> bool
    decreases calls.len(),
{
    &&& calls.len() > 0
    &&& match calls.last() {
        Call::Send(handed, sent) => sent is Ok && cloned(msg, handed),
        _ => got(calls.drop_last(), msg),
    }
}

/// What was handed over to the stream, the oldest first.
pub open spec fn sends<M, E>(calls: Seq<Call<M, E>>) -> Seq<M>
    decreases calls.len(),
{
    if calls.len() == 0 {
        Seq::empty()
    } else {
        match calls.last() {
            Call::Send(handed, _) => sends(calls.drop_last()).push(handed),
            _ => sends(calls.drop_last()),
        }
    }
}

/// Other calls do not change what a stream has got.
proof fn got_stays<M: Clone, E>(calls: Seq<Call<M, E>>, extra: Seq<Call<M, E>>)
    requires
        forall|i: int| 0 <= i < extra.len() ==> !((#[trigger] extra[i]) is Send),
    ensures
        forall|msg: M| #[trigger] got(calls, msg) ==> got(calls + extra, msg),
        sends(calls + extra) == sends(calls),
    decreases extra.len(),
{
    if extra.len() == 0 {
        assert(calls + extra =~= calls);
    } else {
        let less = extra.drop_last();
        assert forall|i: int| 0 <= i < less.len() implies !((#[trigger] less[i]) is Send) by {
            assert(less[i] == extra[i]);
        }
        got_stays(calls, less);
        assert((calls + extra).drop_last() =~= calls + less);
        assert((calls + extra).last() == extra[extra.len() - 1]);
    }
}

/// `after` is what this stream may be after a round in which it was not found gone.
pub open spec fn later<S: PatternStream>(before: PubStream<S>, after: PubStream<S>) -> bool {
    ||| after == before
    ||| exists|answers: PubAnswers<S::Msg, S::Err>| #[trigger]
        before.polled(answers, after) && !(answers.poll() is Ended)
}

/// What a round does not change.
pub(crate) proof fn later_keeps<S: PatternStream>(before: PubStream<S>, after: PubStream<S>)
    requires
        later(before, after),
    ensures
        after.peer.origin() == before.peer.origin(),
        before.engaged() ==> after.engaged(),
        before.is_idle() ==> after.is_idle(),
        forall|msg: S::Msg| #[trigger]
            got(before.peer.calls(), msg) ==> got(after.peer.calls(), msg),
        sends(after.peer.calls()) == sends(before.peer.calls()),
{
    if after != before {
        let answers = choose|answers: PubAnswers<S::Msg, S::Err>| #[trigger]
            before.polled(answers, after) && !(answers.poll() is Ended);
        got_stays(before.peer.calls(), answers.calls());
    }
}

/// Those that remain of the first visits are the first that remain.
proof fn remain_prefix<S: PatternStream>(visits: Seq<PubVisit<S>>, k: int)
    requires
        0 <= k <= visits.len(),
    ensures
        remain(visits.take(k)).len() <= remain(visits).len(),
        remain(visits).len() - remain(visits.take(k)).len() <= visits.len() - k,
        forall|j: int|
            0 <= j < remain(visits.take(k)).len() ==> #[trigger] remain(visits)[j] == remain(
                visits.take(k),
            )[j],
    decreases visits.len(),
{
    if k == visits.len() {
        assert(visits.take(k) =~= visits);
    } else {
        let less = visits.drop_last();
        remain_prefix(less, k);
        assert(less.take(k) =~= visits.take(k));
        assert forall|j: int| 0 <= j < remain(visits.take(k)).len() implies #[trigger] remain(
            visits,
        )[j] == remain(visits.take(k))[j] by {
            assert(remain(less)[j] == remain(less.take(k))[j]);
        }
    }
}

/// Each that remains is one that was visited, later.
pub(crate) proof fn remain_later<S: PatternStream>(
    all: Seq<PubStream<S>>,
    visits: Seq<PubVisit<S>>,
    j: int,
) -> (i: int)
    requires
        visits.len() <= all.len(),
        forall|i: int|
            0 <= i < visits.len() ==> all[i].polled(
                (#[trigger] visits[i]).answers,
                visits[i].after,
            ),
        0 <= j < remain(visits).len(),
    ensures
        0 <= i < visits.len(),
        later(all[i], remain(visits)[j]),
    decreases visits.len(),
{
    let less = visits.drop_last();
    if j < remain(less).len() {
        assert forall|i: int| 0 <= i < less.len() implies all[i].polled(
            (#[trigger] less[i]).answers,
            less[i].after,
        ) by {
            assert(less[i] == visits[i]);
        }
        remain_later(all, less, j)
    } else {
        let i = visits.len() - 1;
        assert(all[i].polled(visits[i].answers, visits[i].after));
        i
    }
}

/// This is one of the first `k` of these streams, later.
pub open spec fn among<S: PatternStream>(
    members: Seq<PubStream<S>>,
    k: int,
    after: PubStream<S>,
) -> bool {
    exists|i: int| 0 <= i < k && #[trigger] later(members[i], after)
}

/// The first streams of a round keep in front. `r` are left of the first `k`.
proof fn prefix_survives<S: PatternStream>(
    before: PubView<S>,
    round: PubRound<S>,
    step: Step<()>,
    after: PubView<S>,
    k: int,
) -> (r: int)
    requires
        before.pre_polled(round, step, after),
        0 <= k <= before.members.len(),
    ensures
        0 <= r <= after.members.len(),
        after.members.len() - r <= before.members.len() + round.joined.len() - k,
        forall|j: int|
            0 <= j < r ==> among(before.members, k, #[trigger] after.members[j]),
{
    let all = before.members + round.joined;
    let visits = round.visits;
    let n = visits.len() as int;
    let first = remain(visits);
    if k <= n {
        let few = visits.take(k);
        remain_prefix(visits, k);
        let r = remain(few).len() as int;
        assert forall|j: int| 0 <= j < r implies among(
            before.members,
            k,
            #[trigger] after.members[j],
        ) by {
            assert forall|i: int| 0 <= i < few.len() implies all[i].polled(
                (#[trigger] few[i]).answers,
                few[i].after,
            ) by {
                assert(few[i] == visits[i]);
            }
            let i = remain_later(all, few, j);
            assert(after.members[j] == first[j]);
            assert(all[i] == before.members[i]);
            assert(later(before.members[i], after.members[j]));
        }
        r
    } else {
        let r = first.len() + k - n;
        assert forall|j: int| 0 <= j < r implies among(
            before.members,
            k,
            #[trigger] after.members[j],
        ) by {
            if j < first.len() {
                let i = remain_later(all, visits, j);
                assert(after.members[j] == first[j]);
                assert(all[i] == before.members[i]);
                assert(later(before.members[i], after.members[j]));
            } else {
                let i = n + j - first.len();
                assert(after.members[j] == all[i]);
                assert(later(before.members[i], after.members[j]));
            }
        }
        remain_prefix(visits, 0);
        r
    }
}

impl<S: PatternStream> PubView<S> {
    /// How many streams have joined.
    pub open spec fn came(self) -> int {
        arrivals(self.ready.receipts()) as int
    }

    /// All streams are ready or waited for, but for so many at the end.
    pub open spec fn waits_but(self, late: int) -> bool {
        &&& 0 <= late <= self.members.len()
        &&& forall|i: int|
            0 <= i < self.members.len() - late ==> (#[trigger] self.members[i]).engaged()
    }

    /// All streams are ready or waited for, but for such as have joined since so many had.
    pub open spec fn waits_for(self, since: int) -> bool {
        exists|late: int| late <= self.came() - since && #[trigger] self.waits_but(late)
    }

    /// All streams have got a copy of `msg`, but for so many at the end.
    pub open spec fn gave_but(self, msg: S::Msg, late: int) -> bool {
        &&& 0 <= late <= self.members.len()
        &&& forall|i: int|
            0 <= i < self.members.len() - late ==> got(
                (#[trigger] self.members[i]).peer.calls(),
                msg,
            )
    }

    /// All streams have got a copy of `msg`, but for such as have joined since so many had.
    pub open spec fn gave(self, msg: S::Msg, since: int) -> bool {
        exists|late: int| late <= self.came() - since && #[trigger] self.gave_but(msg, late)
    }
}

/// A round leaves those in place that are waited for, or have got the message.
proof fn round_keeps_place<S: PatternStream>(
    before: PubView<S>,
    round: PubRound<S>,
    step: Step<()>,
    after: PubView<S>,
    since: int,
)
    requires
        before.pre_polled(round, step, after),
    ensures
        before.waits_for(since) ==> after.waits_for(since),
        forall|msg: S::Msg| #[trigger] before.gave(msg, since) ==> after.gave(msg, since),
        after.came() == before.came() + round.joined.len(),
{
    arrivals_concat(before.ready.receipts(), round.receipts());
    arrivals_of_round(round);
    if before.waits_for(since) {
        let late = choose|late: int|
            late <= before.came() - since && #[trigger] before.waits_but(late);
        let k = before.members.len() - late;
        let r = prefix_survives(before, round, step, after, k);
        assert forall|j: int| 0 <= j < r implies (#[trigger] after.members[j]).engaged() by {
            let i = choose|i: int|
                0 <= i < k && #[trigger] later(before.members[i], after.members[j]);
            later_keeps(before.members[i], after.members[j]);
            assert(before.members[i].engaged());
        }
        assert(after.waits_but(after.members.len() - r));
    }
    assert forall|msg: S::Msg| #[trigger] before.gave(msg, since) implies after.gave(msg, since) by {
        let late = choose|late: int|
            late <= before.came() - since && #[trigger] before.gave_but(msg, late);
        let k = before.members.len() - late;
        let r = prefix_survives(before, round, step, after, k);
        assert forall|j: int| 0 <= j < r implies got(
            (#[trigger] after.members[j]).peer.calls(),
            msg,
        ) by {
            let i = choose|i: int|
                0 <= i < k && #[trigger] later(before.members[i], after.members[j]);
            later_keeps(before.members[i], after.members[j]);
            assert(got(before.members[i].peer.calls(), msg));
        }
        assert(after.gave_but(msg, after.members.len() - r));
    }
}

/// **Streams that are waited for stay so until they are ready or gone.** When it is first asked
/// whether a message can be taken, all streams begin to be waited for. None of them is forgotten,
/// whoever joins meanwhile. It is not said that a message can be taken before each is ready, unless
/// there are no streams and can be none.
pub proof fn waited_for_until_ready<S: PatternStream>(
    before: PubView<S>,
    step: Step<()>,
    after: PubView<S>,
    since: int,
)
    requires
        before.ready_polled(step, after),
        since <= before.came(),
    ensures
        before.readying && before.waits_for(since) ==> after.waits_for(since),
        !before.readying && after.readying ==> after.waits_for(since),
        before.readying && !after.readying ==> step is Ready && forall|i: int|
            0 <= i < after.members.len() && (#[trigger] after.members[i]).engaged()
                ==> after.members[i].ready,
        step is Ready && !(before.readying && !after.readying) ==> after.members.len() == 0,
        after.came() >= before.came(),
{
    let (round, pre, mid) = choose|round: PubRound<S>, pre: Step<()>, mid: PubView<S>| #[trigger]
        before.pre_polled(round, pre, mid) && if pre is Pending {
            if !mid.readying {
                after == mid.ask_ready() && step is Again
            } else if mid.some_readying() {
                after == mid && step is Pending
            } else {
                after == (PubView { readying: false, ..mid }) && step is Ready
            }
        } else {
            after == mid && step == pre
        };
    round_keeps_place(before, round, pre, mid, since);
    if before.readying && before.waits_for(since) {
        let late = choose|late: int| late <= mid.came() - since && #[trigger] mid.waits_but(late);
        assert(after.waits_but(late));
    }
    if !before.readying && after.readying {
        assert(after.waits_but(0));
    }
}

/// Those that are served of the first streams are the first that are served.
proof fn served_prefix<S: PatternStream>(
    members: Seq<PubStream<S>>,
    hands: Seq<PubHand<S>>,
    k: int,
)
    requires
        hands.len() == members.len(),
        0 <= k <= members.len(),
    ensures
        served(members.take(k), hands.take(k)).len() <= served(members, hands).len(),
        served(members, hands).len() - served(members.take(k), hands.take(k)).len()
            <= members.len() - k,
        forall|j: int|
            0 <= j < served(members.take(k), hands.take(k)).len() ==> #[trigger] served(
                members,
                hands,
            )[j] == served(members.take(k), hands.take(k))[j],
    decreases members.len(),
{
    if k == members.len() {
        assert(members.take(k) =~= members);
        assert(hands.take(k) =~= hands);
    } else {
        let less = members.drop_last();
        let few = hands.drop_last();
        served_prefix(less, few, k);
        assert(less.take(k) =~= members.take(k));
        assert(few.take(k) =~= hands.take(k));
        assert forall|j: int|
            0 <= j < served(members.take(k), hands.take(k)).len() implies #[trigger] served(
            members,
            hands,
        )[j] == served(members.take(k), hands.take(k))[j] by {
            assert(served(less, few)[j] == served(less.take(k), few.take(k))[j]);
        }
    }
}

/// Those that were all ready have all got the message, if they are still here.
proof fn served_got<S: PatternStream>(
    members: Seq<PubStream<S>>,
    item: S::Msg,
    hands: Seq<PubHand<S>>,
    j: int,
)
    requires
        hands.len() == members.len(),
        forall|i: int|
            0 <= i < hands.len() ==> {
                &&& members[i].ready
                &&& members[i].peer.called(
                    Call::Send((#[trigger] hands[i]).handed, hands[i].sent),
                    hands[i].after,
                )
                &&& cloned(item, hands[i].handed)
            },
        0 <= j < served(members, hands).len(),
    ensures
        got(served(members, hands)[j].peer.calls(), item),
    decreases members.len(),
{
    let less = members.drop_last();
    let few = hands.drop_last();
    let n = members.len() - 1;
    assert forall|i: int| 0 <= i < few.len() implies {
        &&& less[i].ready
        &&& less[i].peer.called(Call::Send((#[trigger] few[i]).handed, few[i].sent), few[i].after)
        &&& cloned(item, few[i].handed)
    } by {
        assert(few[i] == hands[i]);
    }
    if j < served(less, few).len() {
        served_got(less, item, few, j);
    } else {
        assert(members[n].peer.called(
            Call::Send(hands[n].handed, hands[n].sent),
            hands[n].after,
        ));
    }
}

/// Handing over to streams that were waited for and are all ready.
proof fn started_gives<S: PatternStream>(
    before: PubView<S>,
    msg: S::Msg,
    hands: Seq<PubHand<S>>,
    after: PubView<S>,
    since: int,
)
    requires
        before.started(msg, hands, after),
        before.waits_for(since),
        forall|i: int|
            0 <= i < before.members.len() && (#[trigger] before.members[i]).engaged()
                ==> before.members[i].ready,
    ensures
        after.gave(msg, since),
        after.came() == before.came(),
{
    let late = choose|late: int| late <= before.came() - since && #[trigger] before.waits_but(late);
    let k = before.members.len() - late;
    let some = before.members.take(k);
    let few = hands.take(k);
    served_prefix(before.members, hands, k);
    let r = served(some, few).len() as int;
    assert forall|j: int| 0 <= j < r implies got(
        (#[trigger] after.members[j]).peer.calls(),
        msg,
    ) by {
        assert forall|i: int| 0 <= i < few.len() implies {
            &&& some[i].ready
            &&& some[i].peer.called(
                Call::Send((#[trigger] few[i]).handed, few[i].sent),
                few[i].after,
            )
            &&& cloned(msg, few[i].handed)
        } by {
            assert(before.members[i].engaged());
            assert(few[i] == hands[i]);
        }
        served_got(some, msg, few, j);
    }
    assert(after.gave_but(msg, after.members.len() - r));
}

/// A flush takes nothing back.
proof fn flush_keeps<S: PatternStream>(
    before: PubView<S>,
    step: Step<()>,
    after: PubView<S>,
    msg: S::Msg,
    since: int,
)
    requires
        before.flush_polled(step, after),
        before.gave(msg, since),
    ensures
        after.gave(msg, since),
        after.came() >= before.came(),
{
    let (round, pre, mid) = choose|round: PubRound<S>, pre: Step<()>, mid: PubView<S>| #[trigger]
        before.pre_polled(round, pre, mid) && if pre is Pending {
            if !mid.flushing {
                after == mid.ask_flush() && step is Again
            } else if mid.some_flushing() {
                after == mid && step is Pending
            } else {
                after == (PubView { flushing: false, ..mid }) && step is Ready
            }
        } else {
            after == mid && step == pre
        };
    round_keeps_place(before, round, pre, mid, since);
    let late = choose|late: int| late <= mid.came() - since && #[trigger] mid.gave_but(msg, late);
    assert(after.gave_but(msg, late));
}

impl<S: PatternStream> PubRunView<S> {
    /// `msg` is at work, and so many streams had joined when it was taken: those that are still here are
    /// waited for until they are ready, and have got it then.
    pub open spec fn works_on(self, msg: S::Msg, since: int) -> bool {
        &&& since <= self.publisher.came()
        &&& match self.phase {
            Phase::Feeding(taken, _) => {
                &&& taken == msg
                &&& self.publisher.readying ==> self.publisher.waits_for(since)
            },
            Phase::Flushing(_) => self.publisher.gave(msg, since),
            _ => false,
        }
    }

    /// All streams have got `msg`, and have sent it, but for such as have joined since so many had.
    pub open spec fn delivered(self, msg: S::Msg, since: int) -> bool {
        &&& self.publisher.gave(msg, since)
        &&& all_settled(self.publisher.members)
    }
}

/// **A message is on its way until all streams have it.** What is begun for a message that was
/// taken goes on until all streams that were there then, and are not gone, have got it and have
/// sent it.
pub proof fn message_goes_to_all<S: PatternStream>(
    before: PubRunView<S>,
    step: Step<()>,
    after: PubRunView<S>,
    msg: S::Msg,
    since: int,
)
    requires
        before.sound(),
        before.on_time(after),
        before.polled(step, after),
        before.works_on(msg, since),
    ensures
        after.works_on(msg, since) || after.phase is Idle && after.delivered(msg, since),
        !(after.phase is Idle) ==> after.job() == before.job() && after.kept == before.kept,
        after.phase is Idle ==> after.kept == before.kept.push((before.job().unwrap(), ())),
{
    match before.phase {
        Phase::Feeding(taken, owed) => {
            let (ready, publisher) = choose|ready: Step<()>, publisher: PubView<S>| #[trigger]
                before.publisher.ready_polled(ready, publisher) && match ready {
                    Step::Again => after == (PubRunView { publisher, ..before }) && step is Again,
                    Step::Pending => after == (PubRunView { publisher, ..before })
                        && step is Pending,
                    Step::Ready(()) => {
                        &&& exists|hands: Seq<PubHand<S>>| #[trigger]
                            publisher.started(taken, hands, after.publisher)
                        &&& after == PubRunView {
                            publisher: after.publisher,
                            phase: Phase::Flushing(owed),
                            ..before
                        }
                        &&& step is Again
                    },
                };
            waited_for_until_ready(before.publisher, ready, publisher, since);
            if ready is Ready {
                let hands = choose|hands: Seq<PubHand<S>>| #[trigger]
                    publisher.started(taken, hands, after.publisher);
                if publisher.members.len() == 0 {
                    assert(after.publisher.gave_but(msg, 0));
                } else {
                    started_gives(publisher, msg, hands, after.publisher, since);
                }
            }
        },
        Phase::Flushing(owed) => {
            let (flush, publisher) = choose|flush: Step<()>, publisher: PubView<S>| #[trigger]
                before.publisher.flush_polled(flush, publisher) && match flush {
                    Step::Again => after == (PubRunView { publisher, ..before }) && step is Again,
                    Step::Pending => after == (PubRunView { publisher, ..before })
                        && step is Pending,
                    Step::Ready(()) => {
                        &&& after == PubRunView {
                            publisher,
                            phase: Phase::Idle,
                            kept: before.kept.push((owed.promise(), ())),
                            ..before
                        }
                        &&& step is Again
                    },
                };
            flush_keeps(before.publisher, flush, publisher, msg, since);
            flush_waits_for_all(before.publisher, flush, publisher);
        },
        _ => {},
    }
}

/// A message that is taken is at work.
proof fn message_is_begun<S: PatternStream>(
    before: PubRunView<S>,
    step: Step<()>,
    after: PubRunView<S>,
    msg: S::Msg,
)
    requires
        before.sound(),
        before.polled(step, after),
        before.on_time(after),
        before.phase is Idle,
        after.phase matches Phase::Feeding(taken, _) && taken == msg,
    ensures
        after.works_on(msg, after.publisher.came()),
{
    if after.publisher.readying {
        let (round, pre, publisher) = choose|
            round: PubRound<S>,
            pre: Step<()>,
            publisher: PubView<S>,
        | #[trigger]
            before.publisher.pre_polled(round, pre, publisher) && match pre {
                Step::Again => after == (PubRunView { publisher, ..before }) && step is Again,
                Step::Ready(()) => {
                    &&& after == PubRunView { publisher, phase: Phase::Closing, ..before }
                    &&& step is Again
                },
                Step::Pending => before.received(publisher, step, after),
            };
        round_keeps_streams(before.publisher, round, pre, publisher);
        assert(after.publisher.waits_but(0));
    }
}

/// While a message is at work.
proof fn message_is_at_work<S: PatternStream>(
    history: Seq<PubRunView<S>>,
    t: int,
    n: int,
    msg: S::Msg,
)
    requires
        publishes(history),
        0 <= t < n < history.len(),
        history[t].phase is Idle,
        history[t + 1].phase matches Phase::Feeding(taken, _) && taken == msg,
        forall|i: int| t < i < n ==> !((#[trigger] history[i]).phase is Idle),
    ensures
        ({
            let since = history[t + 1].publisher.came();
            ||| history[n].works_on(msg, since) && history[n].job() == history[t + 1].job()
                && history[n].kept == history[t + 1].kept
            ||| history[n].phase is Idle && history[n].delivered(msg, since) && history[n].kept
                == history[t + 1].kept.push((history[t + 1].job().unwrap(), ()))
        }),
    decreases n,
{
    let since = history[t + 1].publisher.came();
    pub_always(history, n - 1);
    assert(moves_on(history, n - 1));
    let step = choose|step: Step<()>| #[trigger] history[n - 1].polled(step, history[n]);
    if n == t + 1 {
        message_is_begun(history[t], step, history[n], msg);
    } else {
        message_is_at_work(history, t, n - 1, msg);
        message_goes_to_all(history[n - 1], step, history[n], msg, since);
    }
}

/// **Each stream that is there gets each message.** When a message is through and its promise was
/// kept, all streams that had joined when it was taken, and are still there, have got a copy of it
/// as the last thing that was handed to them, and have said that it is sent. The others that are
/// there are at most as many as have joined since. Each that has left was reported.
pub proof fn each_stream_gets_each_message<S: PatternStream>(
    history: Seq<PubRunView<S>>,
    t: int,
    n: int,
    msg: S::Msg,
)
    requires
        publishes(history),
        0 <= t < n < history.len(),
        history[t].phase is Idle,
        history[t + 1].phase matches Phase::Feeding(taken, _) && taken == msg,
        forall|i: int| t < i < n ==> !((#[trigger] history[i]).phase is Idle),
        history[n].phase is Idle,
    ensures
        history[n].delivered(msg, history[t + 1].publisher.came()),
        history[n].kept == history[t + 1].kept.push((history[t + 1].job().unwrap(), ())),
        history[t].publisher.told_all(history[n].publisher),
{
    message_is_at_work(history, t, n, msg);
    assert forall|i: int| t <= i < n implies !((#[trigger] history[i]).phase is Closing) by {
        if i > t {
            message_is_at_work(history, t, i, msg);
        }
    }
    pub_reports_meanwhile(history, t, n);
}

} // verus!
