//! Sending each message to all streams.
use crate::channel::{Inbox, Outbox, Receipt};
use crate::owned_close::{closed_round, CloseSet};
use crate::promise::{plain, Jobs, Owed, QPromise};
use crate::stream::{ending, Call, Done, PatternStream, Peer};
use crate::task::{Machine, Step};
use async_channel::{Receiver, Sender};
use core::task::{Context, Poll};
use vstd::prelude::*;

verus! {

/// A stream that messages are published to.
#[verifier::reject_recursive_types(S)]
pub struct PubStream<S: PatternStream> {
    /// The stream.
    pub peer: Peer<S>,
    /// Whether it is waited for until it is ready for a message.
    pub readying: bool,
    /// Whether it is waited for until it has sent what it has taken.
    pub flushing: bool,
    /// Whether it is ready for a message.
    pub ready: bool,
    /// Whether it ended or failed.
    pub gone: bool,
}

/// How a stream stands after it was polled.
pub enum PubPoll {
    /// Nothing more can be done now.
    Pending,
    /// It had a message, which was thrown away: it may have more.
    Again,
    /// It ended or failed, which was reported when it did.
    Ended,
}

/// The answers of a stream that was polled, as far as it was asked.
pub struct PubAnswers<M, E> {
    /// Whether it is ready for a message.
    pub ready: Option<Poll<Result<(), E>>>,
    /// Whether it has sent what it has taken.
    pub flush: Option<Poll<Result<(), E>>>,
    /// Its next message.
    pub next: Option<Poll<Option<Result<M, E>>>>,
}

impl<M, E> PubAnswers<M, E> {
    /// The stream failed when it was asked whether it is ready.
    pub open spec fn ready_failed(self) -> bool {
        self.ready matches Some(Poll::Ready(Err(_)))
    }

    /// The stream failed when it was asked whether it has sent all.
    pub open spec fn flush_failed(self) -> bool {
        self.flush matches Some(Poll::Ready(Err(_)))
    }

    /// The stream is not through with what it was asked to do.
    pub open spec fn waits(self) -> bool {
        self.ready matches Some(Poll::Pending) || self.flush matches Some(Poll::Pending)
    }

    /// The calls that these answers belong to.
    pub open spec fn calls(self) -> Seq<Call<M, E>> {
        let ready = match self.ready {
            Some(answer) => seq![Call::Ready(answer)],
            None => Seq::empty(),
        };
        let flush = match self.flush {
            Some(answer) => seq![Call::Flush(answer)],
            None => Seq::empty(),
        };
        let next = match self.next {
            Some(answer) => seq![Call::Next(answer)],
            None => Seq::empty(),
        };
        ready + flush + next
    }

    /// What becomes of the stream.
    pub open spec fn poll(self) -> PubPoll {
        if self.ready_failed() || self.flush_failed() {
            PubPoll::Ended
        } else {
            match self.next {
                Some(Poll::Ready(Some(Ok(_)))) => PubPoll::Again,
                Some(Poll::Ready(_)) => PubPoll::Ended,
                Some(Poll::Pending) | None => PubPoll::Pending,
            }
        }
    }

    /// What is reported of the stream: nothing unless it is gone.
    pub open spec fn report(self) -> Seq<Option<E>> {
        match (self.ready, self.flush, self.next) {
            (Some(Poll::Ready(Err(error))), _, _) => seq![Some(error)],
            (_, Some(Poll::Ready(Err(error))), _) => seq![Some(error)],
            (_, _, Some(next)) => ending(next),
            (_, _, None) => Seq::empty(),
        }
    }
}

impl<S: PatternStream> PubStream<S> {
    /// `answers` and `after` are what may come of polling this stream. If it is gone, nothing
    /// is asked of it.
    pub open spec fn polled(self, answers: PubAnswers<S::Msg, S::Err>, after: Self) -> bool {
        if self.gone {
            &&& answers.ready is None
            &&& answers.flush is None
            &&& answers.next is None
            &&& after == self
        } else {
            self.asked(answers, after)
        }
    }

    /// `answers` and `after` are what may come of polling this stream, which is not gone. It is
    /// asked for what it is waited for; if it is through with that, for its next message.
    pub open spec fn asked(self, answers: PubAnswers<S::Msg, S::Err>, after: Self) -> bool {
        &&& answers.ready is Some <==> self.readying
        &&& answers.flush is Some <==> self.flushing && !answers.ready_failed()
        &&& answers.next is Some <==> !answers.ready_failed() && !answers.flush_failed()
            && !answers.waits()
        &&& after.peer.origin() == self.peer.origin()
        &&& after.peer.calls() == self.peer.calls() + answers.calls()
        &&& after.readying == (answers.ready matches Some(Poll::Pending))
        &&& after.flushing == if answers.ready_failed() {
            self.flushing
        } else {
            answers.flush matches Some(Poll::Pending)
        }
        &&& after.ready == (self.ready || answers.ready matches Some(Poll::Ready(Ok(_))))
        &&& after.gone == (answers.poll() is Ended)
    }

    /// Asks the stream for what it is waited for, then for a message, to notice when
    /// it is gone. Messages are thrown away. Once it is gone, nothing more is asked or reported.
    pub fn poll_next(
        &mut self,
        done_s: &mut Outbox<Done<S>>,
        cx: &mut Context<'_>,
    ) -> (poll: PubPoll)
        ensures
            exists|answers: PubAnswers<S::Msg, S::Err>| #[trigger]
                old(self).polled(answers, *final(self)) && old(done_s).handing(
                    answers.report(),
                    *final(done_s),
                ) && poll == if old(self).gone {
                    PubPoll::Ended
                } else {
                    answers.poll()
                },
    {
        let ghost mut answers = PubAnswers::<S::Msg, S::Err> {
            ready: None,
            flush: None,
            next: None,
        };
        if self.gone {
            assert(done_s.handed() =~= done_s.handed() + answers.report());
            assert(old(self).polled(answers, *self));
            return PubPoll::Ended;
        }
        let mut pending = false;
        if self.readying {
            let answer = self.peer.poll_ready(cx);
            proof {
                answers = PubAnswers { ready: Some(answer), ..answers };
                assert(self.peer.calls() =~= old(self).peer.calls() + answers.calls());
            }
            match answer {
                Poll::Ready(Ok(())) => {
                    self.readying = false;
                    self.ready = true;
                },
                Poll::Ready(Err(error)) => {
                    self.readying = false;
                    self.gone = true;
                    done_s.hand(Some(error));
                    assert(old(self).polled(answers, *self));
                    return PubPoll::Ended;
                },
                Poll::Pending => {
                    pending = true;
                },
            }
        }
        if self.flushing {
            let answer = self.peer.poll_flush(cx);
            proof {
                answers = PubAnswers { flush: Some(answer), ..answers };
                assert(self.peer.calls() =~= old(self).peer.calls() + answers.calls());
            }
            match answer {
                Poll::Ready(Ok(())) => {
                    self.flushing = false;
                },
                Poll::Ready(Err(error)) => {
                    self.flushing = false;
                    self.gone = true;
                    done_s.hand(Some(error));
                    assert(old(self).polled(answers, *self));
                    return PubPoll::Ended;
                },
                Poll::Pending => {
                    pending = true;
                },
            }
        }
        if pending {
            assert(old(self).polled(answers, *self));
            return PubPoll::Pending;
        }
        let answer = self.peer.poll_next(cx);
        proof {
            answers = PubAnswers { next: Some(answer), ..answers };
            assert(self.peer.calls() =~= old(self).peer.calls() + answers.calls());
        }
        let poll = match answer {
            Poll::Ready(Some(Ok(_))) => PubPoll::Again,
            Poll::Ready(Some(Err(error))) => {
                self.gone = true;
                done_s.hand(Some(error));
                PubPoll::Ended
            },
            Poll::Ready(None) => {
                self.gone = true;
                done_s.hand(None);
                PubPoll::Ended
            },
            Poll::Pending => PubPoll::Pending,
        };
        assert(old(self).polled(answers, *self));
        poll
    }
}

/// Sends each message to all streams.
#[verifier::reject_recursive_types(S)]
pub struct Pub<S: PatternStream> {
    select: Vec<PubStream<S>>,
    ready_r: Inbox<S>,
    done_s: Outbox<Done<S>>,
    closing: CloseSet<S>,
    readying: bool,
    flushing: bool,
}

/// What a [`Pub`] stands for.
#[verifier::ext_equal]
#[verifier::reject_recursive_types(S)]
pub struct PubView<S: PatternStream> {
    /// The streams that messages are published to.
    pub members: Seq<PubStream<S>>,
    /// Where streams that join come from.
    pub ready: Inbox<S>,
    /// Where streams that are gone are reported.
    pub done: Outbox<Done<S>>,
    /// The streams that are being closed.
    pub closing: Seq<Peer<S>>,
    /// Whether it waits for streams to be ready.
    pub readying: bool,
    /// Whether it waits for streams to send what they have taken.
    pub flushing: bool,
}

impl<S: PatternStream> View for Pub<S> {
    type V = PubView<S>;

    closed spec fn view(&self) -> PubView<S> {
        PubView {
            members: self.select@,
            ready: self.ready_r,
            done: self.done_s,
            closing: self.closing@,
            readying: self.readying,
            flushing: self.flushing,
        }
    }
}

/// A stream as it was after it was polled, and its answers.
#[verifier::reject_recursive_types(S)]
pub struct PubVisit<S: PatternStream> {
    /// The answers.
    pub answers: PubAnswers<S::Msg, S::Err>,
    /// The stream afterwards.
    pub after: PubStream<S>,
}

/// The outside answers of one round over the streams.
#[verifier::reject_recursive_types(S)]
pub struct PubRound<S: PatternStream> {
    /// What came when new streams were asked for.
    pub arrival: Poll<Option<S>>,
    /// That stream, if one came.
    pub joined: Seq<PubStream<S>>,
    /// The streams that were polled.
    pub visits: Seq<PubVisit<S>>,
    /// Whether more streams can come, if that was asked.
    pub closed: Option<bool>,
}

/// The streams that are still there after these visits.
pub open spec fn remain<S: PatternStream>(visits: Seq<PubVisit<S>>) -> Seq<PubStream<S>>
    decreases visits.len(),
{
    if visits.len() == 0 {
        Seq::empty()
    } else if visits.last().answers.poll() is Ended {
        remain(visits.drop_last())
    } else {
        remain(visits.drop_last()).push(visits.last().after)
    }
}

/// What is reported of these visits.
pub open spec fn reports<S: PatternStream>(visits: Seq<PubVisit<S>>) -> Seq<Done<S>>
    decreases visits.len(),
{
    if visits.len() == 0 {
        Seq::empty()
    } else {
        reports(visits.drop_last()) + visits.last().answers.report()
    }
}

impl<S: PatternStream> PubRound<S> {
    /// What was asked of the place that new streams come from.
    pub open spec fn receipts(self) -> Seq<Receipt<S>> {
        match self.closed {
            Some(closed) => seq![Receipt::Polled(self.arrival), Receipt::Closed(closed)],
            None => seq![Receipt::Polled(self.arrival)],
        }
    }
}

/// What was handed over to a stream, its answer, and the stream afterwards.
#[verifier::reject_recursive_types(S)]
pub struct PubHand<S: PatternStream> {
    /// The message.
    pub handed: S::Msg,
    /// The answer.
    pub sent: Result<(), S::Err>,
    /// The stream afterwards.
    pub after: Peer<S>,
}

/// The streams that are still there after these were handed to them. Only those
/// that are ready are handed anything, and then they are not ready any more.
pub open spec fn served<S: PatternStream>(
    members: Seq<PubStream<S>>,
    hands: Seq<PubHand<S>>,
) -> Seq<PubStream<S>>
    decreases members.len(),
{
    if members.len() == 0 {
        Seq::empty()
    } else {
        let before = served(members.drop_last(), hands.drop_last());
        let member = members.last();
        if !member.ready {
            before.push(member)
        } else if hands.last().sent is Ok {
            before.push(PubStream { peer: hands.last().after, ready: false, ..member })
        } else {
            before
        }
    }
}

/// What is reported of those that failed when these were handed to them.
pub open spec fn refusals<S: PatternStream>(
    members: Seq<PubStream<S>>,
    hands: Seq<PubHand<S>>,
) -> Seq<Done<S>>
    decreases members.len(),
{
    if members.len() == 0 {
        Seq::empty()
    } else {
        let before = refusals(members.drop_last(), hands.drop_last());
        match hands.last().sent {
            Err(error) if members.last().ready => before.push(Some(error)),
            _ => before,
        }
    }
}

impl<S: PatternStream> PubView<S> {
    /// `step` and `after` are what comes of this round. A stream that arrives joins
    /// at the end, and nothing else happens. Once none arrives, the streams are polled, up
    /// to one that has a message, which is thrown away. It is through when there are no
    /// streams, and none can come.
    pub open spec fn pre_polled(self, round: PubRound<S>, step: Step<()>, after: Self) -> bool {
        let all = self.members + round.joined;
        let visits = round.visits;
        &&& match round.arrival {
            Poll::Ready(Some(stream)) => {
                &&& round.joined.len() == 1
                &&& round.joined[0].peer.origin() == stream
                &&& round.joined[0].peer.calls().len() == 0
                &&& !round.joined[0].readying
                &&& !round.joined[0].flushing
                &&& !round.joined[0].ready
                &&& !round.joined[0].gone
            },
            _ => round.joined.len() == 0,
        }
        &&& visits.len() <= all.len()
        &&& forall|i: int|
            0 <= i < visits.len() ==> all[i].polled(
                (#[trigger] visits[i]).answers,
                visits[i].after,
            )
        &&& self.done.handing(reports(visits), after.done)
        &&& self.ready.origin() == after.ready.origin()
        &&& after.ready.receipts() == self.ready.receipts() + round.receipts()
        &&& after == PubView {
            members: remain(visits) + all.skip(visits.len() as int),
            done: after.done,
            ready: after.ready,
            ..self
        }
        &&& if round.joined.len() > 0 {
            &&& visits.len() == 0
            &&& round.closed is None
            &&& step is Again
        } else if visits.len() > 0 && visits.last().answers.poll() is Again {
            &&& forall|i: int|
                0 <= i < visits.len() - 1 ==> !((#[trigger] visits[i]).answers.poll() is Again)
            &&& round.closed is None
            &&& step is Again
        } else {
            &&& visits.len() == all.len()
            &&& forall|i: int|
                0 <= i < visits.len() ==> !((#[trigger] visits[i]).answers.poll() is Again)
            &&& round.closed is Some <==> after.members.len() == 0
            &&& step == if round.closed == Some(true) {
                Step::<()>::Ready(())
            } else {
                Step::Pending
            }
        }
    }

    /// All streams are waited for until they are ready.
    pub open spec fn ask_ready(self) -> Self {
        PubView {
            members: self.members.map_values(
                |member: PubStream<S>| PubStream { readying: true, ..member },
            ),
            readying: true,
            ..self
        }
    }

    /// All streams are waited for until they have sent what they have taken.
    pub open spec fn ask_flush(self) -> Self {
        PubView {
            members: self.members.map_values(
                |member: PubStream<S>| PubStream { flushing: true, ..member },
            ),
            flushing: true,
            ..self
        }
    }

    /// Some stream is waited for until it is ready.
    pub open spec fn some_readying(self) -> bool {
        exists|i: int| 0 <= i < self.members.len() && (#[trigger] self.members[i]).readying
    }

    /// Some stream is waited for until it has sent what it has taken.
    pub open spec fn some_flushing(self) -> bool {
        exists|i: int| 0 <= i < self.members.len() && (#[trigger] self.members[i]).flushing
    }

    /// `step` and `after` are what may come of asking whether a message can be taken.
    /// All streams there are are waited for; those that join meanwhile are not.
    pub open spec fn ready_polled(self, step: Step<()>, after: Self) -> bool {
        exists|round: PubRound<S>, pre: Step<()>, mid: Self| #[trigger]
            self.pre_polled(round, pre, mid) && if pre is Pending {
                if !mid.readying {
                    after == mid.ask_ready() && step is Again
                } else if mid.some_readying() {
                    after == mid && step is Pending
                } else {
                    after == (PubView { readying: false, ..mid }) && step is Ready
                }
            } else {
                after == mid && step == pre
            }
    }

    /// `step` and `after` are what may come of asking whether all was sent. All
    /// streams there are are waited for; those that join meanwhile are not.
    pub open spec fn flush_polled(self, step: Step<()>, after: Self) -> bool {
        exists|round: PubRound<S>, pre: Step<()>, mid: Self| #[trigger]
            self.pre_polled(round, pre, mid) && if pre is Pending {
                if !mid.flushing {
                    after == mid.ask_flush() && step is Again
                } else if mid.some_flushing() {
                    after == mid && step is Pending
                } else {
                    after == (PubView { flushing: false, ..mid }) && step is Ready
                }
            } else {
                after == mid && step == pre
            }
    }

    /// `after` is what comes of handing copies of `item` to the streams that are
    /// ready.
    pub open spec fn started(self, item: S::Msg, hands: Seq<PubHand<S>>, after: Self) -> bool {
        &&& hands.len() == self.members.len()
        &&& forall|i: int|
            0 <= i < hands.len() && self.members[i].ready ==> {
                &&& self.members[i].peer.called(
                    Call::Send((#[trigger] hands[i]).handed, hands[i].sent),
                    hands[i].after,
                )
                &&& cloned(item, hands[i].handed)
            }
        &&& after == PubView {
            members: served(self.members, hands),
            done: after.done,
            ..self
        }
        &&& self.done.handing(refusals(self.members, hands), after.done)
    }

    /// `step` and `after` are what may come of going on with closing. First all
    /// streams are put with what is being closed. Then only those that fail to close
    /// are reported.
    pub open spec fn close_polled(self, step: Step<()>, after: Self) -> bool {
        if self.members.len() > 0 {
            &&& after == PubView {
                members: Seq::empty(),
                closing: self.closing + self.members.map_values(
                    |member: PubStream<S>| member.peer,
                ),
                ..self
            }
            &&& step is Again
        } else {
            exists|asked: Seq<Peer<S>>, answer: Poll<Option<Result<(), S::Err>>>| #[trigger]
                closed_round(self.closing, asked, answer, after.closing) && after == (PubView {
                    closing: after.closing,
                    done: after.done,
                    ..self
                }) && match answer {
                    Poll::Ready(Some(Ok(()))) => after.done == self.done && step is Again,
                    Poll::Ready(Some(Err(error))) => {
                        &&& self.done.handing(seq![Some(error)], after.done)
                        &&& step is Again
                    },
                    Poll::Ready(None) => after.done == self.done && step is Ready,
                    Poll::Pending => after.done == self.done && step is Pending,
                }
        }
    }
}

impl<S: PatternStream> PubView<S> {
    /// None of the streams is gone.
    pub open spec fn all_here(self) -> bool {
        forall|i: int| 0 <= i < self.members.len() ==> !(#[trigger] self.members[i]).gone
    }
}

impl<S: PatternStream> Pub<S> {
    /// None of the streams is gone.
    pub closed spec fn wf(&self) -> bool {
        self@.all_here()
    }

    /// There are no streams.
    pub fn new(ready_r: Receiver<S>, done_s: Sender<Done<S>>) -> (publisher: Self)
        ensures
            publisher.wf(),
            publisher@.members == Seq::<PubStream<S>>::empty(),
            publisher@.ready.origin() == ready_r,
            publisher@.ready.receipts() == Seq::<Receipt<S>>::empty(),
            publisher@.done.sender() == done_s,
            publisher@.done.handed() == Seq::<Done<S>>::empty(),
            publisher@.closing == Seq::<Peer<S>>::empty(),
            !publisher@.readying,
            !publisher@.flushing,
    {
        Pub {
            select: Vec::new(),
            ready_r: Inbox::new(ready_r),
            done_s: Outbox::new(done_s),
            closing: CloseSet::new(),
            readying: false,
            flushing: false,
        }
    }

    /// Takes in a stream that wants to join, if there is one. If there is none, polls the streams, up to
    /// one that has a message.
    fn pre_poll(&mut self, cx: &mut Context<'_>) -> (step: Step<()>)
        requires
            old(self).wf(),
        ensures
            final(self).wf(),
            exists|round: PubRound<S>| #[trigger]
                old(self)@.pre_polled(round, step, final(self)@),
    {
        let arrival = self.ready_r.poll(cx);
        let ghost arrived = arrival;
        match arrival {
            Poll::Ready(Some(stream)) => {
                let member = PubStream {
                    peer: Peer::new(stream),
                    readying: false,
                    flushing: false,
                    ready: false,
                    gone: false,
                };
                self.select.push(member);
                proof {
                    let round = PubRound {
                        arrival: arrived,
                        joined: seq![member],
                        visits: Seq::empty(),
                        closed: None,
                    };
                    let all = old(self)@.members + round.joined;
                    assert(self@.members =~= remain(round.visits) + all.skip(0));
                    assert(self@.ready.receipts() =~= old(self)@.ready.receipts()
                        + round.receipts());
                    assert(old(self)@.pre_polled(round, Step::Again, self@));
                }
                return Step::Again;
            },
            _ => {},
        }
        let ghost joined = Seq::<PubStream<S>>::empty();
        let ghost all = old(self)@.members;
        let ghost mut visits = Seq::<PubVisit<S>>::empty();
        let ghost ready = self@.ready;
        let mut i: usize = 0;
        while i < self.select.len()
            invariant
                self@ == (PubView {
                    members: self@.members,
                    done: self@.done,
                    ready,
                    ..old(self)@
                }),
                visits.len() <= all.len(),
                self.wf(),
                forall|j: int| 0 <= j < all.len() ==> !(#[trigger] all[j]).gone,
                i == remain(visits).len(),
                self.select@ == remain(visits) + all.skip(visits.len() as int),
                forall|j: int|
                    0 <= j < visits.len() ==> all[j].polled(
                        (#[trigger] visits[j]).answers,
                        visits[j].after,
                    ),
                old(self)@.done.handing(reports(visits), self@.done),
                forall|j: int|
                    0 <= j < visits.len() ==> !((#[trigger] visits[j]).answers.poll() is Again),
                all == old(self)@.members,
                joined == Seq::<PubStream<S>>::empty(),
                !(arrived matches Poll::Ready(Some(_))),
                old(self)@.ready.asked(Receipt::Polled(arrived), ready),
            decreases all.len() - visits.len(),
        {
            let ghost before = self@;
            let ghost asked = self.select@[i as int];
            let poll = self.select[i].poll_next(&mut self.done_s, cx);
            proof {
                let after = self.select@[i as int];
                let answers = choose|answers: PubAnswers<S::Msg, S::Err>| #[trigger]
                    asked.polled(answers, after) && before.done.handing(
                        answers.report(),
                        self.done_s,
                    ) && poll == if asked.gone {
                        PubPoll::Ended
                    } else {
                        answers.poll()
                    };
                let known = visits;
                visits = visits.push(PubVisit { answers, after });
                assert(visits.drop_last() =~= known);
                assert(self@.done.handed() =~= old(self)@.done.handed() + reports(visits));
            }
            match poll {
                PubPoll::Pending => {
                    i += 1;
                },
                PubPoll::Again => {
                    proof {
                        let round = PubRound { arrival: arrived, joined, visits, closed: None };
                        assert(old(self)@.members + joined =~= all);
                        assert(self@.members =~= remain(visits) + all.skip(visits.len() as int));
                        assert(self@.ready.receipts() =~= old(self)@.ready.receipts()
                            + round.receipts());
                        assert(old(self)@.pre_polled(round, Step::Again, self@));
                    }
                    return Step::Again;
                },
                PubPoll::Ended => {
                    let _ = self.select.remove(i);
                },
            }
        }
        let ghost mut closed: Option<bool> = None;
        let step = if self.select.len() > 0 {
            Step::Pending
        } else {
            let answer = self.ready_r.is_closed();
            proof {
                closed = Some(answer);
            }
            if answer {
                Step::Ready(())
            } else {
                Step::Pending
            }
        };
        proof {
            let round = PubRound { arrival: arrived, joined, visits, closed };
            assert(old(self)@.members + joined =~= all);
            assert(self@.members =~= remain(visits) + all.skip(visits.len() as int));
            assert(self@.ready.receipts() =~= old(self)@.ready.receipts() + round.receipts());
            assert(old(self)@.pre_polled(round, step, self@));
        }
        step
    }

    /// Waits for all streams to be ready.
    fn ask_ready(&mut self)
        ensures
            final(self)@ == old(self)@.ask_ready(),
    {
        self.readying = true;
        let ghost before = old(self)@.members;
        let mut i: usize = 0;
        while i < self.select.len()
            invariant
                i <= self.select@.len(),
                self.select@.len() == before.len(),
                self@ == (PubView { members: self.select@, readying: true, ..old(self)@ }),
                forall|j: int|
                    0 <= j < i ==> #[trigger] self.select@[j] == (PubStream {
                        readying: true,
                        ..before[j]
                    }),
                forall|j: int| i <= j < before.len() ==> #[trigger] self.select@[j] == before[j],
            decreases before.len() - i,
        {
            self.select[i].readying = true;
            i += 1;
        }
    }

    /// Waits for all streams to send what they have taken.
    fn ask_flush(&mut self)
        ensures
            final(self)@ == old(self)@.ask_flush(),
    {
        self.flushing = true;
        let ghost before = old(self)@.members;
        let mut i: usize = 0;
        while i < self.select.len()
            invariant
                i <= self.select@.len(),
                self.select@.len() == before.len(),
                self@ == (PubView { members: self.select@, flushing: true, ..old(self)@ }),
                forall|j: int|
                    0 <= j < i ==> #[trigger] self.select@[j] == (PubStream {
                        flushing: true,
                        ..before[j]
                    }),
                forall|j: int| i <= j < before.len() ==> #[trigger] self.select@[j] == before[j],
            decreases before.len() - i,
        {
            self.select[i].flushing = true;
            i += 1;
        }
    }

    /// Whether some stream is waited for until it is ready.
    fn some_readying(&self) -> (some: bool)
        ensures
            some == self@.some_readying(),
    {
        for i in 0..self.select.len()
            invariant
                forall|j: int| 0 <= j < i ==> !(#[trigger] self.select@[j]).readying,
        {
            if self.select[i].readying {
                assert(self@.members[i as int].readying);
                return true;
            }
        }
        false
    }

    /// Whether some stream is waited for until it has sent what it has taken.
    fn some_flushing(&self) -> (some: bool)
        ensures
            some == self@.some_flushing(),
    {
        for i in 0..self.select.len()
            invariant
                forall|j: int| 0 <= j < i ==> !(#[trigger] self.select@[j]).flushing,
        {
            if self.select[i].flushing {
                assert(self@.members[i as int].flushing);
                return true;
            }
        }
        false
    }

    /// Asks whether a message can be taken: it can once all streams that were there
    /// when this was first asked are ready or gone.
    pub fn poll_ready(&mut self, cx: &mut Context<'_>) -> (step: Step<()>)
        requires
            old(self).wf(),
        ensures
            final(self).wf(),
            old(self)@.ready_polled(step, final(self)@),
    {
        let pre = self.pre_poll(cx);
        match pre {
            Step::Pending => {},
            _ => {
                return pre;
            },
        }
        if !self.readying {
            self.ask_ready();
            Step::Again
        } else if self.some_readying() {
            Step::Pending
        } else {
            self.readying = false;
            Step::Ready(())
        }
    }

    /// Hands a copy of a message over to each stream that is ready for one. Those
    /// that fail are reported.
    pub fn start_send(&mut self, item: S::Msg)
        requires
            old(self).wf(),
        ensures
            final(self).wf(),
            exists|hands: Seq<PubHand<S>>| #[trigger]
                old(self)@.started(item, hands, final(self)@),
    {
        let ghost all = old(self)@.members;
        let ghost mut hands = Seq::<PubHand<S>>::empty();
        let mut i: usize = 0;
        while i < self.select.len()
            invariant
                all == old(self)@.members,
                self.wf(),
                self@ == (PubView { members: self.select@, done: self.done_s, ..old(self)@ }),
                hands.len() <= all.len(),
                i == served(all.take(hands.len() as int), hands).len(),
                self.select@ == served(all.take(hands.len() as int), hands) + all.skip(
                    hands.len() as int,
                ),
                forall|j: int|
                    0 <= j < hands.len() && all[j].ready ==> {
                        &&& all[j].peer.called(
                            Call::Send((#[trigger] hands[j]).handed, hands[j].sent),
                            hands[j].after,
                        )
                        &&& cloned(item, hands[j].handed)
                    },
                old(self)@.done.handing(
                    refusals(all.take(hands.len() as int), hands),
                    self.done_s,
                ),
            decreases all.len() - hands.len(),
        {
            let ghost n = hands.len() as int;
            let ghost known = hands;
            assert(!self@.members[i as int].gone);
            assert(all.take(n + 1).drop_last() =~= all.take(n));
            if self.select[i].ready {
                self.select[i].ready = false;
                let handed = item.clone();
                let ghost copy = handed;
                let sent = self.select[i].peer.start_send(handed);
                proof {
                    hands = hands.push(
                        PubHand { handed: copy, sent, after: self.select@[i as int].peer },
                    );
                    assert(hands.drop_last() =~= known);
                }
                match sent {
                    Ok(()) => {
                        i += 1;
                    },
                    Err(error) => {
                        let ghost asked = self.select@;
                        let _ = self.select.remove(i);
                        self.done_s.hand(Some(error));
                        assert(forall|j: int| 0 <= j < i ==> #[trigger] self.select@[j] == asked[j]);
                        assert(forall|j: int|
                            i <= j < self.select@.len() ==> #[trigger] self.select@[j] == asked[j + 1]);
                    },
                }
            } else {
                proof {
                    hands = hands.push(arbitrary());
                    assert(hands.drop_last() =~= known);
                }
                i += 1;
            }
            assert(self.done_s.handed() =~= old(self)@.done.handed() + refusals(
                all.take(n + 1),
                hands,
            ));
        }
        assert(all.take(all.len() as int) =~= all);
        assert(old(self)@.started(item, hands, self@));
    }

    /// Asks whether all was sent: it is once all streams that were there when this
    /// was first asked are through or gone.
    pub fn poll_flush(&mut self, cx: &mut Context<'_>) -> (step: Step<()>)
        requires
            old(self).wf(),
        ensures
            final(self).wf(),
            old(self)@.flush_polled(step, final(self)@),
    {
        let pre = self.pre_poll(cx);
        match pre {
            Step::Pending => {},
            _ => {
                return pre;
            },
        }
        if !self.flushing {
            self.ask_flush();
            Step::Again
        } else if self.some_flushing() {
            Step::Pending
        } else {
            self.flushing = false;
            Step::Ready(())
        }
    }

    /// Closes all streams. Those that fail are reported.
    pub fn poll_close(&mut self, cx: &mut Context<'_>) -> (step: Step<()>)
        requires
            old(self).wf(),
        ensures
            final(self).wf(),
            old(self)@.close_polled(step, final(self)@),
    {
        if self.select.len() > 0 {
            let mut select = Vec::new();
            core::mem::swap(&mut self.select, &mut select);
            let ghost all = select@;
            let ghost peers = all.map_values(|member: PubStream<S>| member.peer);
            for member in iter: select
                invariant
                    iter.seq() == all,
                    peers == all.map_values(|member: PubStream<S>| member.peer),
                    self@ == (PubView {
                        members: Seq::empty(),
                        closing: old(self)@.closing + peers.take(iter.index()),
                        ..old(self)@
                    }),
            {
                self.closing.push(member.peer);
            }
            assert(peers.take(peers.len() as int) =~= peers);
            return Step::Again;
        }
        let answer = self.closing.poll_next(cx);
        let step = match answer {
            Poll::Ready(Some(Ok(()))) => Step::Again,
            Poll::Ready(Some(Err(error))) => {
                self.done_s.hand(Some(error));
                Step::Again
            },
            Poll::Ready(None) => Step::Ready(()),
            Poll::Pending => Step::Pending,
        };
        step
    }
}

/// How far a [`PubRun`] has come.
#[verifier::reject_recursive_types(S)]
pub enum Phase<S: PatternStream> {
    /// It waits for a message.
    Idle,
    /// This message is to be handed over.
    Feeding(S::Msg, Owed<S::Msg>),
    /// The message that this promise belongs to was handed over.
    Flushing(Owed<S::Msg>),
    /// No more messages will be taken.
    Closing,
    /// All is done.
    Finished,
}

/// Takes messages off a channel and publishes them, until the channel ends or there
/// are no streams.
#[verifier::reject_recursive_types(S)]
pub struct PubRun<S: PatternStream> {
    publisher: Pub<S>,
    msg_r: Jobs<S::Msg>,
    phase: Phase<S>,
}

/// What a [`PubRun`] stands for.
#[verifier::ext_equal]
#[verifier::reject_recursive_types(S)]
pub struct PubRunView<S: PatternStream> {
    /// The streams.
    pub publisher: PubView<S>,
    /// Where messages come from.
    pub msgs: Inbox<(S::Msg, QPromise)>,
    /// How far it has come.
    pub phase: Phase<S>,
    /// The promises that were kept, the oldest first.
    pub kept: Seq<(QPromise, ())>,
}

impl<S: PatternStream> View for PubRun<S> {
    type V = PubRunView<S>;

    closed spec fn view(&self) -> PubRunView<S> {
        PubRunView {
            publisher: self.publisher@,
            msgs: self.msg_r.inbox(),
            phase: self.phase,
            kept: self.msg_r.kept(),
        }
    }
}

impl<S: PatternStream> PubRunView<S> {
    /// `step` and `after` are what may come of asking for a message, with the
    /// streams at `publisher`.
    pub open spec fn received(self, publisher: PubView<S>, step: Step<()>, after: Self) -> bool {
        exists|received: Poll<Option<(S::Msg, Owed<S::Msg>)>>| #[trigger]
            self.msgs.asked(Receipt::Polled(plain(received)), after.msgs) && after == (PubRunView {
                publisher,
                msgs: after.msgs,
                phase: match received {
                    Poll::Ready(Some((msg, owed))) => Phase::Feeding(msg, owed),
                    Poll::Ready(None) => Phase::Closing,
                    Poll::Pending => Phase::Idle,
                },
                ..self
            }) && step == if received is Ready {
                Step::<()>::Again
            } else {
                Step::Pending
            }
    }

    /// `step` and `after` are what may come of one poll.
    pub open spec fn polled(self, step: Step<()>, after: Self) -> bool {
        match self.phase {
            Phase::Idle => exists|round: PubRound<S>, pre: Step<()>, publisher: PubView<S>| #[trigger]
                self.publisher.pre_polled(round, pre, publisher) && match pre {
                    Step::Again => after == (PubRunView { publisher, ..self }) && step is Again,
                    Step::Ready(()) => {
                        &&& after == PubRunView { publisher, phase: Phase::Closing, ..self }
                        &&& step is Again
                    },
                    Step::Pending => self.received(publisher, step, after),
                },
            Phase::Feeding(msg, owed) => exists|ready: Step<()>, publisher: PubView<S>| #[trigger]
                self.publisher.ready_polled(ready, publisher) && match ready {
                    Step::Again => after == (PubRunView { publisher, ..self }) && step is Again,
                    Step::Pending => after == (PubRunView { publisher, ..self }) && step is Pending,
                    Step::Ready(()) => {
                        &&& exists|hands: Seq<PubHand<S>>| #[trigger]
                            publisher.started(msg, hands, after.publisher)
                        &&& after == PubRunView {
                            publisher: after.publisher,
                            phase: Phase::Flushing(owed),
                            ..self
                        }
                        &&& step is Again
                    },
                },
            Phase::Flushing(owed) => exists|flush: Step<()>, publisher: PubView<S>| #[trigger]
                self.publisher.flush_polled(flush, publisher) && match flush {
                    Step::Again => after == (PubRunView { publisher, ..self }) && step is Again,
                    Step::Pending => after == (PubRunView { publisher, ..self }) && step is Pending,
                    Step::Ready(()) => {
                        &&& after == PubRunView {
                            publisher,
                            phase: Phase::Idle,
                            kept: self.kept.push((owed.promise(), ())),
                            ..self
                        }
                        &&& step is Again
                    },
                },
            Phase::Closing => {
                &&& self.publisher.close_polled(step, after.publisher)
                &&& after == PubRunView {
                    publisher: after.publisher,
                    phase: if step is Ready {
                        Phase::Finished
                    } else {
                        Phase::Closing
                    },
                    ..self
                }
            },
            Phase::Finished => after == self && step is Ready,
        }
    }
}

impl<S: PatternStream> PubRun<S> {
    /// None of the streams is gone, and the promise that is owed came with a message from here.
    pub closed spec fn wf(&self) -> bool {
        &&& self.publisher.wf()
        &&& match self.phase {
            Phase::Feeding(_, owed) => owed.origin() == self.msg_r.inbox().origin(),
            Phase::Flushing(owed) => owed.origin() == self.msg_r.inbox().origin(),
            _ => true,
        }
    }

    /// Goes on as far as one answer of the streams or of the channel leads.
    pub fn poll(&mut self, cx: &mut Context<'_>) -> (step: Step<()>)
        requires
            old(self).wf(),
        ensures
            final(self).wf(),
            old(self)@.polled(step, final(self)@),
    {
        let mut phase = Phase::Idle;
        core::mem::swap(&mut self.phase, &mut phase);
        match phase {
            Phase::Idle => {
                let pre = self.publisher.pre_poll(cx);
                let ghost round = choose|round: PubRound<S>| #[trigger]
                    old(self)@.publisher.pre_polled(round, pre, self@.publisher);
                assert(old(self)@.publisher.pre_polled(round, pre, self@.publisher));
                match pre {
                    Step::Again => Step::Again,
                    Step::Ready(()) => {
                        self.phase = Phase::Closing;
                        Step::Again
                    },
                    Step::Pending => {
                        let received = self.msg_r.poll(cx);
                        match received {
                            Poll::Ready(Some((msg, owed))) => {
                                self.phase = Phase::Feeding(msg, owed);
                                Step::Again
                            },
                            Poll::Ready(None) => {
                                self.phase = Phase::Closing;
                                Step::Again
                            },
                            Poll::Pending => Step::Pending,
                        }
                    },
                }
            },
            Phase::Feeding(msg, owed) => {
                let ready = self.publisher.poll_ready(cx);
                match ready {
                    Step::Ready(()) => {
                        self.publisher.start_send(msg);
                        self.phase = Phase::Flushing(owed);
                        Step::Again
                    },
                    ready => {
                        self.phase = Phase::Feeding(msg, owed);
                        ready
                    },
                }
            },
            Phase::Flushing(owed) => {
                let flush = self.publisher.poll_flush(cx);
                match flush {
                    Step::Ready(()) => {
                        self.msg_r.keep(owed, ());
                        Step::Again
                    },
                    flush => {
                        self.phase = Phase::Flushing(owed);
                        flush
                    },
                }
            },
            Phase::Closing => {
                let step = self.publisher.poll_close(cx);
                self.phase = match step {
                    Step::Ready(()) => Phase::Finished,
                    _ => Phase::Closing,
                };
                step
            },
            Phase::Finished => {
                self.phase = Phase::Finished;
                Step::Ready(())
            },
        }
    }
}

/// Publishes each message of `msg_r` to all streams that have come out of `ready_r`,
/// and keeps its promise once all of them have sent it. Streams that are gone are
/// reported to `done_s`.
pub fn publish<S: PatternStream>(
    ready_r: Receiver<S>,
    done_s: Sender<Done<S>>,
    msg_r: Receiver<(S::Msg, QPromise)>,
) -> (run: PubRun<S>)
    ensures
        run.wf(),
        run@.publisher.members == Seq::<PubStream<S>>::empty(),
        run@.publisher.ready.origin() == ready_r,
        run@.publisher.ready.receipts() == Seq::<Receipt<S>>::empty(),
        run@.publisher.done.sender() == done_s,
        run@.publisher.done.handed() == Seq::<Done<S>>::empty(),
        run@.publisher.closing == Seq::<Peer<S>>::empty(),
        !run@.publisher.readying,
        !run@.publisher.flushing,
        run@.msgs.origin() == msg_r,
        run@.msgs.receipts() == Seq::<Receipt<(S::Msg, QPromise)>>::empty(),
        run@.phase is Idle,
        run@.kept == Seq::<(QPromise, ())>::empty(),
{
    PubRun {
        publisher: Pub::new(ready_r, done_s),
        msg_r: Jobs::new(msg_r),
        phase: Phase::Idle,
    }
}

impl<S: PatternStream> Machine for PubRun<S> {
    type Model = PubRunView<S>;

    open spec fn model(&self) -> PubRunView<S> {
        self@
    }

    open spec fn in_order(&self) -> bool {
        self.wf()
    }

    open spec fn steps(before: PubRunView<S>, step: Step<()>, after: PubRunView<S>) -> bool {
        before.polled(step, after)
    }

    fn poll_once(&mut self, cx: &mut Context<'_>) -> (step: Step<()>) {
        self.poll(cx)
    }
}

} // verus!
