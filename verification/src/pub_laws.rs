//! What holds of publishing, whatever the streams answer.
use crate::calls::{
    all_good, all_will_wake, armed, arrivals, arrivals_concat, call_is_proper, calls_are_proper,
    fresh_is_good, fulfilled, good, inbox_watched, inbox_will_wake, look_is_watched, promised,
    says_ready, settled, taken, taken_push, will_wake,
};
use crate::channel::Receipt;
use crate::close_laws::{closing_keeps_count, closing_will_wake};
use crate::owned_close::closed_round;
use crate::promise::{plain, Owed, QPromise};
use crate::pub_impl::{
    refusals, remain, reports, served, Phase, PubAnswers, PubHand, PubRound, PubRunView,
    PubStream, PubView, PubVisit,
};
use crate::stream::{Call, PatternStream, Peer};
use crate::task::Step;
use core::task::Poll;
use vstd::prelude::*;

verus! {

impl<S: PatternStream> PubStream<S> {
    /// The stream is not gone, was used as it should be, and if it is said to be ready, it is.
    pub open spec fn sound(self) -> bool {
        &&& !self.gone
        &&& good(self.peer)
        &&& self.ready ==> armed(self.peer.calls())
    }

    /// It is ready for a message, or waited for until it is.
    pub open spec fn engaged(self) -> bool {
        self.readying || self.ready
    }

    /// If it has taken something that it may not have sent, it is waited for.
    pub open spec fn chased(self) -> bool {
        settled(self.peer.calls()) || self.flushing
    }

    /// `after` is the same stream, later. It is not forgotten that it was waited for.
    pub open spec fn became(self, after: Self) -> bool {
        &&& after.peer.origin() == self.peer.origin()
        &&& self.sound() ==> after.sound()
        &&& self.engaged() ==> after.engaged()
        &&& self.sound() && self.chased() ==> after.chased()
        &&& self.sound() && settled(self.peer.calls()) ==> settled(after.peer.calls())
    }
}

/// All of these were used as they should be.
pub open spec fn all_sound<S: PatternStream>(members: Seq<PubStream<S>>) -> bool {
    forall|i: int| 0 <= i < members.len() ==> (#[trigger] members[i]).sound()
}

/// All of these have sent what they have taken.
pub open spec fn all_settled<S: PatternStream>(members: Seq<PubStream<S>>) -> bool {
    forall|i: int| 0 <= i < members.len() ==> settled((#[trigger] members[i]).peer.calls())
}

/// All of these that may not have sent what they have taken are waited for.
pub open spec fn all_chased<S: PatternStream>(members: Seq<PubStream<S>>) -> bool {
    forall|i: int| 0 <= i < members.len() ==> (#[trigger] members[i]).chased()
}

/// Each of `after` is one of `before`, later.
pub open spec fn descend<S: PatternStream>(
    before: Seq<PubStream<S>>,
    after: Seq<PubStream<S>>,
) -> bool {
    forall|j: int|
        0 <= j < after.len() ==> exists|i: int|
            0 <= i < before.len() && (#[trigger] before[i]).became(#[trigger] after[j])
}

/// What comes of polling one stream that is not gone then.
proof fn polled_became<S: PatternStream>(
    before: PubStream<S>,
    answers: PubAnswers<S::Msg, S::Err>,
    after: PubStream<S>,
)
    requires
        before.polled(answers, after),
        !(answers.poll() is Ended),
    ensures
        before.became(after),
{
    let extra = answers.calls();
    if before.sound() {
        calls_are_proper(before.peer, extra, after.peer);
        match answers.ready {
            Some(Poll::Ready(Ok(()))) => {
                assert(says_ready(extra[0]));
            },
            _ => {},
        }
        match answers.flush {
            Some(Poll::Ready(Ok(()))) => {
                let at: int = if answers.ready is Some {
                    1
                } else {
                    0
                };
                assert(extra[at] == Call::<S::Msg, S::Err>::Flush(answers.flush.unwrap()));
            },
            _ => {},
        }
    }
}

/// **A stream that is gone stays gone.** It is gone exactly once it has ended or failed when it was
/// polled, and that is reported once. From then on nothing is asked of it, and nothing is reported.
pub proof fn gone_stays_gone<S: PatternStream>(
    before: PubStream<S>,
    answers: PubAnswers<S::Msg, S::Err>,
    after: PubStream<S>,
)
    requires
        before.polled(answers, after),
    ensures
        after.gone <==> before.gone || answers.poll() is Ended,
        before.gone ==> after == before && answers.report().len() == 0,
        !before.gone ==> answers.report().len() == if after.gone {
            1nat
        } else {
            0
        },
{
}

/// Those that remain are those that were visited and are not gone.
proof fn remain_descends<S: PatternStream>(all: Seq<PubStream<S>>, visits: Seq<PubVisit<S>>)
    requires
        visits.len() <= all.len(),
        forall|i: int|
            0 <= i < visits.len() ==> all[i].polled(
                (#[trigger] visits[i]).answers,
                visits[i].after,
            ),
    ensures
        descend(all, remain(visits)),
        remain(visits).len() + reports(visits).len() == visits.len(),
    decreases visits.len(),
{
    if visits.len() > 0 {
        let less = visits.drop_last();
        remain_descends(all, less);
        let n = visits.len() - 1;
        let before = remain(less);
        assert forall|j: int| 0 <= j < remain(visits).len() implies exists|i: int|
            0 <= i < all.len() && (#[trigger] all[i]).became(#[trigger] remain(visits)[j]) by {
            if j >= before.len() {
                polled_became(all[n], visits[n].answers, visits[n].after);
            }
        }
    }
}

impl<S: PatternStream> PubView<S> {
    /// All streams were used as they should be.
    pub open spec fn sound(self) -> bool {
        &&& all_sound(self.members)
        &&& all_good(self.closing)
    }

    /// How many streams have joined that are not here any more and were not reported.
    pub open spec fn missing(self) -> int {
        arrivals(self.ready.receipts()) - self.members.len() - self.closing.len()
            - self.done.handed().len()
    }

    /// There are no streams, and when it was last asked whether any can come, the answer
    /// was no.
    pub open spec fn out_of_streams(self) -> bool {
        &&& self.members.len() == 0
        &&& self.ready.receipts().len() > 0
        &&& self.ready.receipts().last() == Receipt::<S>::Closed(true)
    }
}

/// One stream has joined in a round if one arrived.
pub(crate) proof fn arrivals_of_round<S: PatternStream>(round: PubRound<S>)
    ensures
        arrivals(round.receipts()) == if round.arrival matches Poll::Ready(Some(_)) {
            1nat
        } else {
            0
        },
{
    reveal_with_fuel(arrivals, 3);
}

/// Those that remain are those that were not found gone.
pub(crate) proof fn remain_are_not_gone<S: PatternStream>(visits: Seq<PubVisit<S>>, j: int)
    requires
        0 <= j < remain(visits).len(),
    ensures
        exists|i: int|
            0 <= i < visits.len() && remain(visits)[j] == (#[trigger] visits[i]).after && !(
            visits[i].answers.poll() is Ended),
    decreases visits.len(),
{
    let less = visits.drop_last();
    if j < remain(less).len() {
        remain_are_not_gone(less, j);
        let i = choose|i: int|
            0 <= i < less.len() && remain(less)[j] == (#[trigger] less[i]).after && !(
            less[i].answers.poll() is Ended);
        assert(visits[i] == less[i]);
    } else {
        assert(visits[visits.len() - 1] == visits.last());
    }
}

/// **The gone are let go of.** A stream is reported, once, exactly if it is found gone when it is
/// polled; and then it is not among those that can be polled again.
pub proof fn gone_are_let_go_of<S: PatternStream>(
    before: PubView<S>,
    round: PubRound<S>,
    step: Step<()>,
    after: PubView<S>,
)
    requires
        before.pre_polled(round, step, after),
    ensures
        after.members == remain(round.visits) + (before.members + round.joined).skip(
            round.visits.len() as int,
        ),
        forall|i: int|
            0 <= i < round.visits.len() ==> (#[trigger] round.visits[i]).answers.report().len()
                == if round.visits[i].answers.poll() is Ended {
                1nat
            } else {
                0
            },
        forall|j: int| #![trigger after.members[j]]
            0 <= j < remain(round.visits).len() ==> exists|i: int|
                0 <= i < round.visits.len() && after.members[j] == (#[trigger] round.visits[i]).after
                    && !(round.visits[i].answers.poll() is Ended),
{
    assert forall|j: int| #![trigger after.members[j]]
        0 <= j < remain(round.visits).len() implies exists|i: int|
        0 <= i < round.visits.len() && after.members[j] == (#[trigger] round.visits[i]).after && !(
        round.visits[i].answers.poll() is Ended) by {
        remain_are_not_gone(round.visits, j);
    }
}

/// **Nobody gets lost or forgotten.** Each stream that has joined is here or was reported. All are
/// used as they should be. Those that are here afterwards were here before, or have just joined;
/// those that were waited for still are, unless they are through.
pub proof fn round_keeps_streams<S: PatternStream>(
    before: PubView<S>,
    round: PubRound<S>,
    step: Step<()>,
    after: PubView<S>,
)
    requires
        before.pre_polled(round, step, after),
    ensures
        before.sound() ==> after.sound(),
        after.missing() == before.missing(),
        after.closing == before.closing,
        descend(before.members + round.joined, after.members),
        before.sound() && all_settled(before.members) ==> all_settled(after.members),
        before.sound() && all_chased(before.members) ==> all_chased(after.members),
        arrivals(after.ready.receipts()) == arrivals(before.ready.receipts()) + round.joined.len(),
        before.members.len() == 0 && round.joined.len() == 0 ==> after.members.len() == 0,
        step is Ready ==> after.out_of_streams(),
{
    let all = before.members + round.joined;
    remain_descends(all, round.visits);
    arrivals_concat(before.ready.receipts(), round.receipts());
    arrivals_of_round(round);
    let n = round.visits.len() as int;
    let first = remain(round.visits);
    assert forall|j: int| 0 <= j < after.members.len() implies exists|i: int|
        0 <= i < all.len() && (#[trigger] all[i]).became(#[trigger] after.members[j]) by {
        if j < first.len() {
            assert(after.members[j] == first[j]);
        } else {
            let i = n + j - first.len();
            assert(all[i].became(after.members[j]));
        }
    }
    assert(all[0].became(all[0]));
    if round.joined.len() > 0 {
        fresh_is_good(round.joined[0].peer);
    }
}

/// Those that remain were asked, and those that had no message are pending.
proof fn remain_will_wake<S: PatternStream>(all: Seq<PubStream<S>>, visits: Seq<PubVisit<S>>)
    requires
        visits.len() <= all.len(),
        forall|i: int|
            0 <= i < visits.len() ==> all[i].polled(
                (#[trigger] visits[i]).answers,
                visits[i].after,
            ) && !(visits[i].answers.poll() is Again) && !all[i].gone,
    ensures
        forall|j: int|
            0 <= j < remain(visits).len() ==> will_wake(
                (#[trigger] remain(visits)[j]).peer.calls(),
            ) || remain(visits)[j].readying,
    decreases visits.len(),
{
    if visits.len() > 0 {
        let less = visits.drop_last();
        remain_will_wake(all, less);
        assert forall|j: int| 0 <= j < remain(visits).len() implies will_wake(
            (#[trigger] remain(visits)[j]).peer.calls(),
        ) || remain(visits)[j].readying by {
            if j < remain(less).len() {
                assert(remain(visits)[j] == remain(less)[j]);
            }
        }
    }
}

/// **No wake-up is missed.** When nothing can be done now, each stream was just asked and will wake
/// the task, for one thing or another, and so will the place that new streams come from, unless it
/// is at its end.
pub proof fn pending_will_wake<S: PatternStream>(
    before: PubView<S>,
    round: PubRound<S>,
    after: PubView<S>,
)
    requires
        before.all_here(),
        before.pre_polled(round, Step::Pending, after),
    ensures
        forall|j: int|
            0 <= j < after.members.len() ==> will_wake((#[trigger] after.members[j]).peer.calls())
                || after.members[j].readying,
        inbox_watched(after.ready.receipts()),
{
    look_is_watched(before.ready.receipts(), round.arrival, round.closed);
    remain_will_wake(before.members + round.joined, round.visits);
}

/// **All streams are waited for.** When it is first asked whether a message can be taken, all
/// streams that are here begin to be waited for. It is not said that a message can be taken while one
/// is waited for, unless there are no streams.
pub proof fn ready_waits_for_all<S: PatternStream>(
    before: PubView<S>,
    step: Step<()>,
    after: PubView<S>,
)
    requires
        before.sound(),
        before.ready_polled(step, after),
    ensures
        after.sound(),
        after.closing == before.closing,
        after.missing() == before.missing(),
        after.flushing == before.flushing,
        all_settled(before.members) ==> all_settled(after.members),
        !before.readying && after.readying ==> forall|j: int|
            0 <= j < after.members.len() ==> (#[trigger] after.members[j]).engaged(),
        step is Ready ==> {
            ||| after.out_of_streams()
            ||| {
                &&& before.readying
                &&& forall|j: int|
                    0 <= j < after.members.len() && (#[trigger] after.members[j]).engaged()
                        ==> after.members[j].ready
            }
        },
        arrivals(after.ready.receipts()) >= arrivals(before.ready.receipts()),
        after.members.len() > 0 ==> before.members.len() > 0 || arrivals(after.ready.receipts())
            > arrivals(before.ready.receipts()),
        said_closed(before.ready.receipts()) ==> said_closed(after.ready.receipts()),
{
    let (round, pre, mid) = choose|round: PubRound<S>, pre: Step<()>, mid: PubView<S>| #[trigger]
        before.pre_polled(round, pre, mid) && if pre is Pending {
            if !mid.readying {
                after == mid.ask_ready() && step is Again
            } else if mid.some_readying() {
                after == mid && step is Pending
            } else {
                after == (PubView { readying: false, ..mid }) && step is Ready
            }
        } else {
            after == mid && step == pre
        };
    round_keeps_streams(before, round, pre, mid);
    closed_stays_said(before, round, pre, mid);
}

/// It was said that no more streams can come.
pub open spec fn said_closed<S>(receipts: Seq<Receipt<S>>) -> bool {
    exists|i: int| 0 <= i < receipts.len() && #[trigger] receipts[i] == Receipt::<S>::Closed(true)
}

/// What was said stays said.
proof fn closed_stays_said<S: PatternStream>(
    before: PubView<S>,
    round: PubRound<S>,
    step: Step<()>,
    after: PubView<S>,
)
    requires
        before.pre_polled(round, step, after),
    ensures
        said_closed(before.ready.receipts()) ==> said_closed(after.ready.receipts()),
        step is Ready ==> said_closed(after.ready.receipts()),
{
    let old_receipts = before.ready.receipts();
    let receipts = after.ready.receipts();
    if said_closed(old_receipts) {
        let i = choose|i: int|
            0 <= i < old_receipts.len() && #[trigger] old_receipts[i] == Receipt::<S>::Closed(
                true,
            );
        assert(receipts[i] == Receipt::<S>::Closed(true));
    }
    if step is Ready {
        assert(receipts[receipts.len() - 1] == Receipt::<S>::Closed(true));
    }
}

/// `after` is a stream that was `before` when `item` was handed over: a copy was handed to it if
/// it was ready, and else nothing happened.
pub open spec fn was_handed<S: PatternStream>(
    before: PubStream<S>,
    item: S::Msg,
    after: PubStream<S>,
) -> bool {
    if before.ready {
        exists|handed: S::Msg, sent: Result<(), S::Err>| #[trigger]
            before.peer.called(Call::Send(handed, sent), after.peer) && sent is Ok && cloned(
                item,
                handed,
            ) && after == (PubStream { peer: after.peer, ready: false, ..before })
    } else {
        after == before
    }
}

/// Those that a message was handed over to, and those that were left out.
proof fn served_law<S: PatternStream>(
    members: Seq<PubStream<S>>,
    item: S::Msg,
    hands: Seq<PubHand<S>>,
)
    requires
        hands.len() == members.len(),
        all_sound(members),
        forall|i: int|
            0 <= i < hands.len() && members[i].ready ==> {
                &&& members[i].peer.called(
                    Call::Send((#[trigger] hands[i]).handed, hands[i].sent),
                    hands[i].after,
                )
                &&& cloned(item, hands[i].handed)
            },
    ensures
        all_sound(served(members, hands)),
        served(members, hands).len() + refusals(members, hands).len() == members.len(),
        forall|j: int|
            0 <= j < served(members, hands).len() ==> exists|i: int|
                0 <= i < members.len() && was_handed(
                    #[trigger] members[i],
                    item,
                    #[trigger] served(members, hands)[j],
                ),
    decreases members.len(),
{
    if members.len() > 0 {
        let less = members.drop_last();
        let few = hands.drop_last();
        let n = members.len() - 1;
        served_law(less, item, few);
        let before = served(less, few);
        let all = served(members, hands);
        if members[n].ready {
            call_is_proper(
                members[n].peer,
                Call::Send(hands[n].handed, hands[n].sent),
                hands[n].after,
            );
        }
        assert forall|j: int| 0 <= j < all.len() implies (#[trigger] all[j]).sound() && exists|
            i: int,
        |
            0 <= i < members.len() && was_handed(#[trigger] members[i], item, all[j]) by {
            if j < before.len() {
            } else if members[n].ready {
                assert(members[n].peer.called(
                    Call::Send(hands[n].handed, hands[n].sent),
                    all[j].peer,
                ));
            }
        }
    }
}

/// **Each stream that is ready gets one copy.** To each stream that is ready, and to no other, one
/// copy of the message is handed over. Those that fail are reported, and the others stay.
pub proof fn each_ready_stream_gets_a_copy<S: PatternStream>(
    before: PubView<S>,
    item: S::Msg,
    hands: Seq<PubHand<S>>,
    after: PubView<S>,
)
    requires
        before.sound(),
        before.started(item, hands, after),
    ensures
        after.sound(),
        after.closing == before.closing,
        after.missing() == before.missing(),
        after.members.len() <= before.members.len(),
        forall|j: int|
            0 <= j < after.members.len() ==> exists|i: int|
                0 <= i < before.members.len() && was_handed(
                    #[trigger] before.members[i],
                    item,
                    #[trigger] after.members[j],
                ),
{
    served_law(before.members, item, hands);
}

/// **A flush waits for all streams.** When it is first asked whether all was sent, all streams that
/// are here begin to be waited for. It is not said that all was sent before each of them has said
/// so or is gone.
pub proof fn flush_waits_for_all<S: PatternStream>(
    before: PubView<S>,
    step: Step<()>,
    after: PubView<S>,
)
    requires
        before.sound(),
        before.flushing ==> all_chased(before.members),
        before.flush_polled(step, after),
    ensures
        after.sound(),
        after.closing == before.closing,
        after.missing() == before.missing(),
        after.flushing ==> all_chased(after.members),
        step is Ready ==> all_settled(after.members),
        step is Ready && after.flushing ==> after.members.len() == 0 && said_closed(
            after.ready.receipts(),
        ),
        arrivals(after.ready.receipts()) >= arrivals(before.ready.receipts()),
        said_closed(before.ready.receipts()) ==> said_closed(after.ready.receipts()),
{
    let (round, pre, mid) = choose|round: PubRound<S>, pre: Step<()>, mid: PubView<S>| #[trigger]
        before.pre_polled(round, pre, mid) && if pre is Pending {
            if !mid.flushing {
                after == mid.ask_flush() && step is Again
            } else if mid.some_flushing() {
                after == mid && step is Pending
            } else {
                after == (PubView { flushing: false, ..mid }) && step is Ready
            }
        } else {
            after == mid && step == pre
        };
    round_keeps_streams(before, round, pre, mid);
    closed_stays_said(before, round, pre, mid);
}

/// What comes of closing.
proof fn close_law<S: PatternStream>(before: PubView<S>, step: Step<()>, after: PubView<S>)
    requires
        before.sound(),
        before.close_polled(step, after),
    ensures
        after.sound(),
        after.ready == before.ready,
        after.flushing == before.flushing,
        before.missing() <= after.missing() <= before.missing() + 1,
        step is Ready ==> after.members.len() == 0 && after.closing.len() == 0,
{
    if before.members.len() > 0 {
        assert forall|i: int| 0 <= i < after.closing.len() implies good(
            #[trigger] after.closing[i],
        ) by {
            if i >= before.closing.len() {
                assert(before.members[i - before.closing.len()].sound());
            }
        }
    } else {
        let (asked, answer) = choose|
            asked: Seq<Peer<S>>,
            answer: Poll<Option<Result<(), S::Err>>>,
        | #[trigger]
            closed_round(before.closing, asked, answer, after.closing) && after == (PubView {
                closing: after.closing,
                done: after.done,
                ..before
            }) && match answer {
                Poll::Ready(Some(Ok(()))) => after.done == before.done && step is Again,
                Poll::Ready(Some(Err(error))) => {
                    &&& before.done.handing(seq![Some(error)], after.done)
                    &&& step is Again
                },
                Poll::Ready(None) => after.done == before.done && step is Ready,
                Poll::Pending => after.done == before.done && step is Pending,
            };
        closing_keeps_count(before.closing, asked, answer, after.closing);
    }
}

impl<S: PatternStream> PubRunView<S> {
    /// The promise of the message at work.
    pub open spec fn job(self) -> Option<QPromise> {
        match self.phase {
            Phase::Feeding(_, owed) => Some(owed.promise()),
            Phase::Flushing(owed) => Some(owed.promise()),
            Phase::Idle | Phase::Closing | Phase::Finished => None,
        }
    }

    /// The streams are in order. Unless a message is flushed, all streams have sent what they have
    /// taken; while one is, those that may not have are waited for. It is not waited for streams to be
    /// ready but while a message is to be handed over, unless there are none and can be none.
    pub open spec fn sound(self) -> bool {
        &&& self.publisher.sound()
        &&& (self.phase is Idle || self.phase is Flushing) && self.publisher.readying
            ==> self.publisher.members.len() == 0 && said_closed(self.publisher.ready.receipts())
        &&& match self.phase {
            Phase::Idle | Phase::Feeding(_, _) => {
                &&& all_settled(self.publisher.members)
                &&& self.publisher.flushing ==> self.publisher.members.len() == 0 && said_closed(
                    self.publisher.ready.receipts(),
                )
            },
            Phase::Flushing(_) => self.publisher.flushing ==> all_chased(self.publisher.members),
            Phase::Closing => true,
            Phase::Finished => {
                &&& self.publisher.members.len() == 0
                &&& self.publisher.closing.len() == 0
            },
        }
    }

    /// No message has come.
    pub open spec fn took_none(self, after: Self) -> bool {
        &&& after.job() is None
        &&& taken(after.msgs.receipts()) == taken(self.msgs.receipts())
        &&& after.kept == self.kept
    }

    /// The message at work is still at work.
    pub open spec fn goes_on(self, after: Self) -> bool {
        &&& after.job() == self.job()
        &&& after.msgs == self.msgs
        &&& after.kept == self.kept
    }

    /// The message at work is through: all streams have sent what they have taken, and its promise
    /// is kept.
    pub open spec fn finished_job(self, after: Self) -> bool {
        &&& self.job() matches Some(promise) && after.kept == self.kept.push((promise, ()))
        &&& after.job() is None
        &&& all_settled(after.publisher.members)
        &&& after.msgs == self.msgs
    }

    /// A message was asked for, and this is what came.
    pub open spec fn took_job(self, after: Self, msg: S::Msg, promise: QPromise) -> bool {
        &&& after.phase matches Phase::Feeding(taken, owed) && taken == msg && owed.promise() == promise
        &&& self.msgs.asked(Receipt::Polled(Poll::Ready(Some((msg, promise)))), after.msgs)
        &&& after.kept == self.kept
    }
}

impl<S: PatternStream> PubRunView<S> {
    /// The machine was just made.
    pub open spec fn begins(self) -> bool {
        &&& self.publisher.members.len() == 0
        &&& self.publisher.ready.receipts().len() == 0
        &&& self.publisher.done.handed().len() == 0
        &&& self.publisher.closing.len() == 0
        &&& !self.publisher.readying
        &&& !self.publisher.flushing
        &&& self.msgs.receipts().len() == 0
        &&& self.phase is Idle
        &&& self.kept.len() == 0
    }

    /// No stream joins after it was said that none can.
    pub open spec fn on_time(self, after: Self) -> bool {
        said_closed(self.publisher.ready.receipts()) ==> arrivals(
            after.publisher.ready.receipts(),
        ) == arrivals(self.publisher.ready.receipts())
    }

    /// `after` is what may come of one poll.
    pub open spec fn leads_to(self, after: Self) -> bool {
        exists|step: Step<()>| #[trigger] self.polled(step, after)
    }
}

/// A machine that was just made is in order.
pub proof fn pub_starts_sound<S: PatternStream>(run: PubRunView<S>)
    requires
        run.begins(),
    ensures
        run.sound(),
        run.in_order(),
        run.publisher.missing() == 0,
{
    assert(promised(taken(run.msgs.receipts())) =~= fulfilled(run.kept));
}

/// **Publishing works message by message.** The machine stays in order. A message is taken only
/// when none is at work. The one at work goes on until all streams have sent what they have taken,
/// and only then is its promise kept. No stream gets lost before it is time to close, and then
/// only those that close without an error go unreported. Left out is that a stream joins after it
/// was said that none can.
pub proof fn pub_step<S: PatternStream>(
    before: PubRunView<S>,
    step: Step<()>,
    after: PubRunView<S>,
)
    requires
        before.sound(),
        before.polled(step, after),
        before.on_time(after),
    ensures
        after.sound(),
        match before.job() {
            Some(_) => before.goes_on(after) || before.finished_job(after),
            None => {
                ||| exists|msg: S::Msg, promise: QPromise| #[trigger]
                    before.took_job(after, msg, promise)
                ||| before.took_none(after)
            },
        },
        !(before.phase is Closing) ==> after.publisher.missing() == before.publisher.missing(),
        before.phase is Closing || before.phase is Finished ==> after.phase is Closing
            || after.phase is Finished,
        before.publisher.missing() <= after.publisher.missing() <= before.publisher.missing() + 1,
        step is Ready <==> after.phase is Finished,
{
    match before.phase {
        Phase::Idle => {
            let (round, pre, publisher) = choose|
                round: PubRound<S>,
                pre: Step<()>,
                publisher: PubView<S>,
            | #[trigger]
                before.publisher.pre_polled(round, pre, publisher) && match pre {
                    Step::Again => after == (PubRunView { publisher, ..before }) && step is Again,
                    Step::Ready(()) => {
                        &&& after == PubRunView { publisher, phase: Phase::Closing, ..before }
                        &&& step is Again
                    },
                    Step::Pending => before.received(publisher, step, after),
                };
            round_keeps_streams(before.publisher, round, pre, publisher);
            closed_stays_said(before.publisher, round, pre, publisher);
            if pre is Pending {
                let received = choose|received: Poll<Option<(S::Msg, Owed<S::Msg>)>>| #[trigger]
                    before.msgs.asked(Receipt::Polled(plain(received)), after.msgs) && after == (
                    PubRunView {
                        publisher,
                        msgs: after.msgs,
                        phase: match received {
                            Poll::Ready(Some((msg, owed))) => Phase::Feeding(msg, owed),
                            Poll::Ready(None) => Phase::Closing,
                            Poll::Pending => Phase::Idle,
                        },
                        ..before
                    }) && step == if received is Ready {
                        Step::<()>::Again
                    } else {
                        Step::Pending
                    };
                taken_push(before.msgs.receipts(), Receipt::Polled(plain(received)));
                match received {
                    Poll::Ready(Some((msg, owed))) => {
                        assert(before.took_job(after, msg, owed.promise()));
                    },
                    _ => {},
                }
            }
        },
        Phase::Feeding(msg, owed) => {
            let (ready, publisher) = choose|ready: Step<()>, publisher: PubView<S>| #[trigger]
                before.publisher.ready_polled(ready, publisher) && match ready {
                    Step::Again => after == (PubRunView { publisher, ..before }) && step is Again,
                    Step::Pending => after == (PubRunView { publisher, ..before })
                        && step is Pending,
                    Step::Ready(()) => {
                        &&& exists|hands: Seq<PubHand<S>>| #[trigger]
                            publisher.started(msg, hands, after.publisher)
                        &&& after == PubRunView {
                            publisher: after.publisher,
                            phase: Phase::Flushing(owed),
                            ..before
                        }
                        &&& step is Again
                    },
                };
            ready_waits_for_all(before.publisher, ready, publisher);
            if ready is Ready {
                let hands = choose|hands: Seq<PubHand<S>>| #[trigger]
                    publisher.started(msg, hands, after.publisher);
                each_ready_stream_gets_a_copy(publisher, msg, hands, after.publisher);
            }
        },
        Phase::Flushing(owed) => {
            let (flush, publisher) = choose|flush: Step<()>, publisher: PubView<S>| #[trigger]
                before.publisher.flush_polled(flush, publisher) && match flush {
                    Step::Again => after == (PubRunView { publisher, ..before }) && step is Again,
                    Step::Pending => after == (PubRunView { publisher, ..before })
                        && step is Pending,
                    Step::Ready(()) => {
                        &&& after == PubRunView {
                            publisher,
                            phase: Phase::Idle,
                            kept: before.kept.push((owed.promise(), ())),
                            ..before
                        }
                        &&& step is Again
                    },
                };
            flush_waits_for_all(before.publisher, flush, publisher);
        },
        Phase::Closing => {
            close_law(before.publisher, step, after.publisher);
        },
        Phase::Finished => {},
    }
}

impl<S: PatternStream> PubRunView<S> {
    /// The promises that were kept are those that came with the messages, in the order in which
    /// they came, but for that of the message at work.
    pub open spec fn in_order(self) -> bool {
        let came = promised(taken(self.msgs.receipts()));
        let kept = fulfilled(self.kept);
        match self.job() {
            Some(promise) => came == kept.push(promise),
            None => came == kept,
        }
    }
}

/// **Promises are kept in order, and each once.** Left out is that a stream joins after it was said
/// that none can.
pub proof fn pub_keeps_order<S: PatternStream>(
    before: PubRunView<S>,
    step: Step<()>,
    after: PubRunView<S>,
)
    requires
        before.sound(),
        before.in_order(),
        before.polled(step, after),
        before.on_time(after),
    ensures
        after.in_order(),
{
    pub_step(before, step, after);
    let came = promised(taken(before.msgs.receipts()));
    let kept = fulfilled(before.kept);
    match before.job() {
        Some(promise) => {
            if before.finished_job(after) {
                assert(fulfilled(after.kept) =~= kept.push(promise));
            }
        },
        None => {
            if exists|msg: S::Msg, promise: QPromise| #[trigger]
                before.took_job(after, msg, promise) {
                let (msg, promise) = choose|msg: S::Msg, promise: QPromise| #[trigger]
                    before.took_job(after, msg, promise);
                taken_push(
                    before.msgs.receipts(),
                    Receipt::Polled(Poll::Ready(Some((msg, promise)))),
                );
                assert(promised(taken(after.msgs.receipts())) =~= came.push(promise));
            }
        },
    }
}

/// The next of these may come of one poll, in which no stream joins after it was said that none can.
pub open spec fn moves_on<S: PatternStream>(history: Seq<PubRunView<S>>, i: int) -> bool {
    &&& history[i].leads_to(history[i + 1])
    &&& history[i].on_time(history[i + 1])
}

/// These are what a publishing machine goes through, from its start, while no stream joins after it was
/// said that none can.
pub open spec fn publishes<S: PatternStream>(history: Seq<PubRunView<S>>) -> bool {
    &&& history.len() > 0
    &&& history[0].begins()
    &&& forall|i: int| 0 <= i < history.len() - 1 ==> #[trigger] moves_on(history, i)
}

/// **All this holds at all times.** However often a machine is polled after it was made, and whatever
/// the streams and channels answer, it is in order, and its promises are kept in order and each once.
/// Left out is that a stream joins after it was said that none can.
pub proof fn pub_always<S: PatternStream>(history: Seq<PubRunView<S>>, n: int)
    requires
        publishes(history),
        0 <= n < history.len(),
    ensures
        history[n].sound(),
        history[n].in_order(),
        history[n].publisher.missing() >= 0,
        history[n].phase is Closing || history[n].phase is Finished
            || history[n].publisher.missing() == 0,
    decreases n,
{
    if n == 0 {
        pub_starts_sound(history[0]);
    } else {
        pub_always(history, n - 1);
        assert(moves_on(history, n - 1));
        let step = choose|step: Step<()>| #[trigger] history[n - 1].polled(step, history[n]);
        pub_step(history[n - 1], step, history[n]);
        pub_keeps_order(history[n - 1], step, history[n]);
    }
}

impl<S: PatternStream> PubView<S> {
    /// All streams will wake the task, and so will the place that new ones come from, unless it is
    /// at its end.
    pub open spec fn will_wake(self) -> bool {
        &&& forall|j: int|
            0 <= j < self.members.len() ==> will_wake((#[trigger] self.members[j]).peer.calls())
                || self.members[j].readying
        &&& inbox_watched(self.ready.receipts())
    }
}

impl<S: PatternStream> PubRunView<S> {
    /// What it waits for will wake the task.
    pub open spec fn will_wake(self) -> bool {
        match self.phase {
            Phase::Idle => inbox_will_wake(self.msgs.receipts()) && self.publisher.will_wake(),
            Phase::Feeding(_, _) | Phase::Flushing(_) => self.publisher.will_wake(),
            Phase::Closing => all_will_wake(self.publisher.closing),
            Phase::Finished => false,
        }
    }
}

/// **No wake-up is missed.** When nothing can be done now, what is waited for was just asked and will
/// wake the task.
pub proof fn pub_will_wake<S: PatternStream>(
    before: PubRunView<S>,
    step: Step<()>,
    after: PubRunView<S>,
)
    requires
        before.sound(),
        before.polled(step, after),
        step is Pending,
    ensures
        after.will_wake(),
{
    match before.phase {
        Phase::Idle | Phase::Feeding(_, _) => {
            let publisher = after.publisher;
            let round = choose|round: PubRound<S>| #[trigger]
                before.publisher.pre_polled(round, Step::Pending, publisher);
            pending_will_wake(before.publisher, round, publisher);
        },
        Phase::Flushing(_) => {
            let publisher = after.publisher;
            let round = choose|round: PubRound<S>| #[trigger]
                before.publisher.pre_polled(round, Step::Pending, publisher);
            pending_will_wake(before.publisher, round, publisher);
        },
        Phase::Closing => {
            let asked = choose|asked: Seq<Peer<S>>| #[trigger]
                closed_round(
                    before.publisher.closing,
                    asked,
                    Poll::<Option<Result<(), S::Err>>>::Pending,
                    after.publisher.closing,
                );
            closing_will_wake(before.publisher.closing, asked, after.publisher.closing);
        },
        Phase::Finished => {},
    }
}

} // verus!
