//! Answering the requests that come from many streams, one at a time.
use crate::channel::{Courier, Delivery, Inbox, Outbox, Receipt, Refused};
use crate::owned_close::{closed_round, CloseSet, OwnedClose};
use crate::promise::{paired, Asker, Error, QPromise, Request};
use crate::push_stream::{endings, Round, Visit};
use crate::stream::{ending, Call, Done, PatternStream, Peer};
use crate::task::{Machine, Step};
use async_channel::{Receiver, Sender};
use core::task::{Context, Poll};
use vstd::prelude::*;

verus! {

/// A stream that requests may come from.
#[verifier::reject_recursive_types(S)]
pub struct RepStream<S: PatternStream> {
    peer: Peer<S>,
}

impl<S: PatternStream> RepStream<S> {
    /// The stream.
    pub closed spec fn peer(&self) -> Peer<S> {
        self.peer
    }

    /// Asks the stream for a request. If it is gone, that is reported.
    pub fn poll_next(
        &mut self,
        done_s: &mut Outbox<Done<S>>,
        cx: &mut Context<'_>,
    ) -> (poll: Poll<Option<S::Msg>>)
        ensures
            exists|answer: Poll<Option<Result<S::Msg, S::Err>>>| #[trigger]
                old(self).peer().called(Call::Next(answer), final(self).peer()) && poll == request(
                    answer,
                ) && old(done_s).handing(ending(answer), *final(done_s)),
    {
        let answer = self.peer.poll_next(cx);
        let ghost seen = answer;
        let poll = match answer {
            Poll::Ready(Some(Ok(msg))) => Poll::Ready(Some(msg)),
            Poll::Ready(Some(Err(error))) => {
                done_s.hand(Some(error));
                Poll::Ready(None)
            },
            Poll::Ready(None) => {
                done_s.hand(None);
                Poll::Ready(None)
            },
            Poll::Pending => Poll::Pending,
        };
        assert(old(self).peer().called(Call::Next(seen), self.peer()));
        poll
    }
}

/// The request in this answer of a stream; none if the stream is gone.
pub open spec fn request<M, E>(answer: Poll<Option<Result<M, E>>>) -> Poll<Option<M>> {
    match answer {
        Poll::Ready(Some(Ok(msg))) => Poll::Ready(Some(msg)),
        Poll::Ready(_) => Poll::Ready(None),
        Poll::Pending => Poll::Pending,
    }
}

/// The streams that requests may come from.
#[verifier::reject_recursive_types(S)]
pub struct Rep<S: PatternStream> {
    select: Vec<RepStream<S>>,
    ready_r: Inbox<S>,
    done_s: Outbox<Done<S>>,
}

/// What a [`Rep`] stands for.
#[verifier::ext_equal]
#[verifier::reject_recursive_types(S)]
pub struct RepView<S: PatternStream> {
    /// The streams, the one that is asked first in front.
    pub members: Seq<Peer<S>>,
    /// Where streams that join come from.
    pub ready: Inbox<S>,
    /// Where streams that are gone are reported.
    pub done: Outbox<Done<S>>,
}

impl<S: PatternStream> View for Rep<S> {
    type V = RepView<S>;

    closed spec fn view(&self) -> RepView<S> {
        RepView {
            members: Seq::new(self.select@.len(), |i: int| self.select@[i].peer()),
            ready: self.ready_r,
            done: self.done_s,
        }
    }
}

/// The streams that are still there after these visits: those that had nothing yet.
pub open spec fn quiet<S: PatternStream>(visits: Seq<Visit<S>>) -> Seq<Peer<S>>
    decreases visits.len(),
{
    if visits.len() == 0 {
        Seq::empty()
    } else if visits.last().answer is Pending {
        quiet(visits.drop_last()).push(visits.last().after)
    } else {
        quiet(visits.drop_last())
    }
}

/// The request that this visit brought.
pub open spec fn brought<S: PatternStream>(visit: Visit<S>) -> Option<S::Msg> {
    match visit.answer {
        Poll::Ready(Some(Ok(msg))) => Some(msg),
        _ => None,
    }
}

impl<S: PatternStream> RepView<S> {
    /// `step` and `after` are what comes of this round. A stream that arrives joins
    /// at the end, and nothing else happens. Once none arrives, the streams are asked in
    /// order, up to the first that has a request, which leaves with it.
    pub open spec fn polled(
        self,
        round: Round<S>,
        step: Step<Option<(Peer<S>, S::Msg)>>,
        after: Self,
    ) -> bool {
        let line = self.members + round.joined;
        let visits = round.visits;
        let n = visits.len() as int;
        &&& match round.arrival {
            Poll::Ready(Some(stream)) => {
                &&& round.joined.len() == 1
                &&& round.joined[0].origin() == stream
                &&& round.joined[0].calls().len() == 0
            },
            _ => round.joined.len() == 0,
        }
        &&& n <= line.len()
        &&& forall|i: int|
            0 <= i < n ==> line[i].called(
                Call::Next((#[trigger] visits[i]).answer),
                visits[i].after,
            )
        &&& forall|i: int| 0 <= i < n - 1 ==> brought(#[trigger] visits[i]) is None
        &&& self.done.handing(endings(visits), after.done)
        &&& self.ready.origin() == after.ready.origin()
        &&& after.ready.receipts() == self.ready.receipts() + round.receipts()
        &&& match step {
            _ if round.joined.len() > 0 => {
                &&& n == 0
                &&& after.members == line
                &&& round.closed is None
                &&& step is Again
            },
            Step::Ready(Some((peer, msg))) => {
                &&& round.joined.len() == 0
                &&& n > 0
                &&& brought(visits[n - 1]) == Some(msg)
                &&& peer == visits[n - 1].after
                &&& after.members == quiet(visits.drop_last()) + line.skip(n)
                &&& round.closed is None
            },
            _ => {
                &&& n == line.len()
                &&& n > 0 ==> brought(visits[n - 1]) is None
                &&& after.members == quiet(visits)
                &&& round.closed is Some <==> after.members.len() == 0
                &&& step == if round.closed == Some(true) {
                    Step::<Option<(Peer<S>, S::Msg)>>::Ready(None)
                } else {
                    Step::Pending
                }
            },
        }
    }
}

impl<S: PatternStream> Rep<S> {
    /// There are no streams.
    pub fn new(ready_r: Receiver<S>, done_s: Sender<Done<S>>) -> (rep: Self)
        ensures
            rep@.members == Seq::<Peer<S>>::empty(),
            rep@.ready.origin() == ready_r,
            rep@.ready.receipts() == Seq::<Receipt<S>>::empty(),
            rep@.done.sender() == done_s,
            rep@.done.handed() == Seq::<Done<S>>::empty(),
    {
        Rep { select: Vec::new(), ready_r: Inbox::new(ready_r), done_s: Outbox::new(done_s) }
    }

    /// Puts a stream at the end.
    pub fn add(&mut self, peer: Peer<S>)
        ensures
            final(self)@ == (RepView { members: old(self)@.members.push(peer), ..old(self)@ }),
    {
        self.select.push(RepStream { peer });
    }

    /// Takes in a stream that wants to join, if there is one. Else it asks the streams for
    /// a request, and the one that has one leaves with it.
    pub fn poll_next(&mut self, cx: &mut Context<'_>) -> (step: Step<Option<(Peer<S>, S::Msg)>>)
        ensures
            exists|round: Round<S>| #[trigger] old(self)@.polled(round, step, final(self)@),
    {
        let arrival = self.ready_r.poll(cx);
        let ghost arrived = arrival;
        match arrival {
            Poll::Ready(Some(stream)) => {
                let peer = Peer::new(stream);
                self.add(peer);
                proof {
                    let round = Round {
                        arrival: arrived,
                        joined: seq![peer],
                        visits: Seq::empty(),
                        closed: None,
                    };
                    assert(self@.members =~= old(self)@.members + round.joined);
                    assert(self@.ready.receipts() =~= old(self)@.ready.receipts()
                        + round.receipts());
                    assert(old(self)@.polled(round, Step::Again, self@));
                }
                return Step::Again;
            },
            _ => {},
        }
        let ghost joined = Seq::<Peer<S>>::empty();
        let ghost line = old(self)@.members;
        let ghost mut visits = Seq::<Visit<S>>::empty();
        let ghost ready = self@.ready;
        let mut i: usize = 0;
        while i < self.select.len()
            invariant
                self@.ready == ready,
                old(self)@.ready.asked(Receipt::Polled(arrived), ready),
                line == old(self)@.members,
                joined == Seq::<Peer<S>>::empty(),
                !(arrived matches Poll::Ready(Some(_))),
                visits.len() <= line.len(),
                i == quiet(visits).len(),
                self.select@.len() == self@.members.len(),
                self@.members == quiet(visits) + line.skip(visits.len() as int),
                forall|j: int|
                    0 <= j < visits.len() ==> line[j].called(
                        Call::Next((#[trigger] visits[j]).answer),
                        visits[j].after,
                    ) && brought(visits[j]) is None,
                old(self)@.done.handing(endings(visits), self@.done),
            decreases line.len() - visits.len(),
        {
            let ghost asked = self.select@[i as int].peer();
            let ghost before = self@;
            let poll = self.select[i].poll_next(&mut self.done_s, cx);
            let ghost after = self.select@[i as int].peer();
            let ghost known = visits;
            proof {
                let answer = choose|answer: Poll<Option<Result<S::Msg, S::Err>>>| #[trigger]
                    asked.called(Call::Next(answer), after) && poll == request(answer)
                        && before.done.handing(ending(answer), self.done_s);
                assert(asked == before.members[i as int]);
                visits = visits.push(Visit { answer, after });
                assert(visits.drop_last() =~= known);
                assert(self@.members =~= before.members.update(i as int, after));
                assert(self@.done.handed() =~= old(self)@.done.handed() + endings(visits));
            }
            let ghost mid = self@;
            match poll {
                Poll::Pending => {
                    i += 1;
                },
                Poll::Ready(None) => {
                    let _ = self.select.remove(i);
                    assert(self@.members =~= mid.members.remove(i as int));
                },
                Poll::Ready(Some(msg)) => {
                    let member = self.select.remove(i);
                    proof {
                        assert(self@.members =~= mid.members.remove(i as int));
                        assert(self@.members =~= quiet(known) + line.skip(visits.len() as int));
                        let round = Round { arrival: arrived, joined, visits, closed: None };
                        assert(self@.ready.receipts() =~= old(self)@.ready.receipts()
                            + round.receipts());
                        assert(old(self)@.members + joined =~= line);
                        assert(old(self)@.polled(
                            round,
                            Step::Ready(Some((member.peer, msg))),
                            self@,
                        ));
                    }
                    return Step::Ready(Some((member.peer, msg)));
                },
            }
        }
        let ghost mut closed: Option<bool> = None;
        let step = if self.select.len() > 0 {
            Step::Pending
        } else {
            let answer = self.ready_r.is_closed();
            proof {
                closed = Some(answer);
            }
            if answer {
                Step::Ready(None)
            } else {
                Step::Pending
            }
        };
        proof {
            let round = Round { arrival: arrived, joined, visits, closed };
            assert(old(self)@.members + joined =~= line);
            assert(self@.ready.receipts() =~= old(self)@.ready.receipts() + round.receipts());
            assert(old(self)@.polled(round, step, self@));
        }
        step
    }

    /// Takes all streams out.
    pub fn drain(&mut self) -> (peers: Vec<Peer<S>>)
        ensures
            peers@ == old(self)@.members,
            final(self)@ == (RepView { members: Seq::empty(), ..old(self)@ }),
    {
        let mut peers = Vec::new();
        let mut select = Vec::new();
        core::mem::swap(&mut self.select, &mut select);
        let ghost members = old(self)@.members;
        let ghost all = select@;
        for member in iter: select
            invariant
                iter.seq() == all,
                members.len() == all.len(),
                forall|i: int| 0 <= i < all.len() ==> members[i] == (#[trigger] all[i]).peer(),
                peers@ == members.take(iter.index()),
        {
            peers.push(member.peer);
        }
        peers
    }
}

/// What a [`RepRun`] is at.
#[verifier::reject_recursive_types(S)]
pub enum Phase<'a, S: PatternStream> {
    /// It waits for a request.
    Next,
    /// The request of this stream is asked.
    Requesting(Peer<S>, Request<'a, S::Msg, S::Msg>),
    /// There will be no reply for this stream, which is closed.
    Refusing(OwnedClose<S>),
    /// This reply is for this stream, which has not taken it yet.
    Readying(Peer<S>, S::Msg),
    /// This stream has taken the reply and may not have sent it yet.
    Flushing(Peer<S>),
    /// A stream that is gone is reported.
    Reporting(Delivery<'a, Done<S>>),
    /// No more requests will come.
    Closing,
    /// All is done.
    Finished,
}

/// Takes requests off the streams, asks them through a channel, and sends the replies
/// back, until there are no streams.
#[verifier::reject_recursive_types(S)]
pub struct RepRun<'a, S: PatternStream> {
    rep: Rep<S>,
    done_s: Courier<'a, Done<S>>,
    request_s: Asker<'a, S::Msg, S::Msg>,
    phase: Phase<'a, S>,
    closing: CloseSet<S>,
}

/// What a [`RepRun`] stands for.
#[verifier::ext_equal]
#[verifier::reject_recursive_types(S)]
pub struct RepRunView<'a, S: PatternStream> {
    /// The streams that requests may come from.
    pub rep: RepView<S>,
    /// Where the stream of the last request is reported if it is gone.
    pub done_s: Sender<Done<S>>,
    /// Where requests are asked.
    pub request_s: Sender<(S::Msg, QPromise<S::Msg>)>,
    /// What it is at.
    pub phase: Phase<'a, S>,
    /// The streams that are being closed at the end.
    pub closing: Seq<Peer<S>>,
    /// The reports of streams that were gone while they had a request, the oldest
    /// first.
    pub reported: Seq<Done<S>>,
    /// What was asked, each request with the promise that went with it, the oldest first.
    pub asked: Seq<(S::Msg, QPromise<S::Msg>)>,
}

impl<'a, S: PatternStream> View for RepRun<'a, S> {
    type V = RepRunView<'a, S>;

    closed spec fn view(&self) -> RepRunView<'a, S> {
        RepRunView {
            rep: self.rep@,
            done_s: self.done_s.sender(),
            request_s: self.request_s.sender(),
            phase: self.phase,
            closing: self.closing@,
            reported: self.done_s.sent(),
            asked: self.request_s.asked(),
        }
    }
}

impl<'a, S: PatternStream> RepRunView<'a, S> {
    /// `after` is where the request `msg` of `peer` is asked, with the other streams
    /// at `rep`.
    pub open spec fn asks(self, rep: RepView<S>, peer: Peer<S>, msg: S::Msg, after: Self) -> bool {
        &&& after == RepRunView { rep, phase: after.phase, asked: after.asked, ..self }
        &&& after.phase matches Phase::Requesting(asker, request) && {
            &&& asker == peer
            &&& request.sender() == self.request_s
            &&& request.item().0 == msg
            &&& paired(request.item().1, request.future())
            &&& request.is_fresh()
            &&& after.asked == self.asked.push(request.item())
        }
    }

    /// `after` is where `done` is reported.
    pub open spec fn reports(self, done: Done<S>, after: Self) -> bool {
        &&& after == RepRunView {
            phase: after.phase,
            reported: self.reported.push(done),
            ..self
        }
        &&& after.phase matches Phase::Reporting(delivery) && {
            &&& delivery.sender() == self.done_s
            &&& delivery.item() == done
            &&& delivery.answers().len() == 0
        }
    }

    /// `step` and `after` are what may come of handing `reply` over to `peer`, which
    /// is ready for it.
    pub open spec fn handed_over(
        self,
        peer: Peer<S>,
        reply: S::Msg,
        step: Step<()>,
        after: Self,
    ) -> bool {
        exists|sent: Result<(), S::Err>, asked: Peer<S>| #[trigger]
            peer.called(Call::Send(reply, sent), asked) && step is Again && match sent {
                Ok(()) => after == (RepRunView { phase: Phase::Flushing(asked), ..self }),
                Err(error) => self.reports(Some(error), after),
            }
    }

    /// `step` and `after` are what may come of one poll.
    pub open spec fn polled(self, step: Step<()>, after: Self) -> bool {
        match self.phase {
            Phase::Next => exists|
                round: Round<S>,
                next: Step<Option<(Peer<S>, S::Msg)>>,
                rep: RepView<S>,
            | #[trigger]
                self.rep.polled(round, next, rep) && match next {
                    Step::Again => after == (RepRunView { rep, ..self }) && step is Again,
                    Step::Pending => after == (RepRunView { rep, ..self }) && step is Pending,
                    Step::Ready(Some((peer, msg))) => {
                        &&& self.asks(rep, peer, msg, after)
                        &&& step is Again
                    },
                    Step::Ready(None) => {
                        &&& after == RepRunView {
                            rep: RepView { members: Seq::empty(), ..rep },
                            phase: Phase::Closing,
                            closing: self.closing + rep.members,
                            ..self
                        }
                        &&& step is Again
                    },
                },
            Phase::Requesting(peer, request) => exists|
                answer: Poll<Result<S::Msg, Error>>,
                asked: Request<'a, S::Msg, S::Msg>,
            | #[trigger]
                request.polled(answer, asked) && match answer {
                    Poll::Pending => {
                        &&& after == RepRunView { phase: Phase::Requesting(peer, asked), ..self }
                        &&& step is Pending
                    },
                    Poll::Ready(Ok(reply)) => {
                        &&& after == RepRunView { phase: Phase::Readying(peer, reply), ..self }
                        &&& step is Again
                    },
                    Poll::Ready(Err(_)) => {
                        &&& after == RepRunView { phase: after.phase, ..self }
                        &&& after.phase matches Phase::Refusing(closing) && closing.peer() == peer
                        &&& step is Again
                    },
                },
            Phase::Refusing(held) => exists|closed: Poll<Result<(), S::Err>>, asked: Peer<S>| #[trigger]
                held.peer().called(Call::Close(closed), asked) && match closed {
                    Poll::Pending => {
                        &&& after == RepRunView { phase: after.phase, ..self }
                        &&& after.phase matches Phase::Refusing(closing) && closing.peer() == asked
                        &&& step is Pending
                    },
                    Poll::Ready(closed) => self.reports(closed.err(), after) && step is Again,
                },
            Phase::Readying(peer, reply) => exists|
                ready: Poll<Result<(), S::Err>>,
                asked: Peer<S>,
            | #[trigger]
                peer.called(Call::Ready(ready), asked) && match ready {
                    Poll::Pending => {
                        &&& after == RepRunView { phase: Phase::Readying(asked, reply), ..self }
                        &&& step is Pending
                    },
                    Poll::Ready(Err(error)) => self.reports(Some(error), after) && step is Again,
                    Poll::Ready(Ok(())) => self.handed_over(asked, reply, step, after),
                },
            Phase::Flushing(peer) => exists|flushed: Poll<Result<(), S::Err>>, asked: Peer<S>| #[trigger]
                peer.called(Call::Flush(flushed), asked) && match flushed {
                    Poll::Pending => {
                        &&& after == RepRunView { phase: Phase::Flushing(asked), ..self }
                        &&& step is Pending
                    },
                    Poll::Ready(Err(error)) => self.reports(Some(error), after) && step is Again,
                    Poll::Ready(Ok(())) => {
                        &&& after == RepRunView {
                            rep: RepView { members: self.rep.members.push(asked), ..self.rep },
                            phase: Phase::Next,
                            ..self
                        }
                        &&& step is Again
                    },
                },
            Phase::Reporting(delivery) => exists|
                sent: Poll<Result<(), Refused>>,
                asked: Delivery<'a, Done<S>>,
            | #[trigger]
                delivery.asked(sent, asked) && match sent {
                    Poll::Pending => {
                        &&& after == RepRunView { phase: Phase::Reporting(asked), ..self }
                        &&& step is Pending
                    },
                    Poll::Ready(_) => {
                        &&& after == RepRunView { phase: Phase::Next, ..self }
                        &&& step is Again
                    },
                },
            Phase::Closing => exists|
                asked: Seq<Peer<S>>,
                answer: Poll<Option<Result<(), S::Err>>>,
            | #[trigger]
                closed_round(self.closing, asked, answer, after.closing) && match answer {
                    Poll::Ready(Some(_)) => {
                        &&& after == RepRunView { closing: after.closing, ..self }
                        &&& step is Again
                    },
                    Poll::Ready(None) => {
                        &&& after == RepRunView {
                            closing: after.closing,
                            phase: Phase::Finished,
                            ..self
                        }
                        &&& step is Ready
                    },
                    Poll::Pending => {
                        &&& after == RepRunView { closing: after.closing, ..self }
                        &&& step is Pending
                    },
                },
            Phase::Finished => after == self && step is Ready,
        }
    }
}

impl<'a, S: PatternStream> RepRun<'a, S> {
    /// A report that is under way is not over.
    pub closed spec fn wf(&self) -> bool {
        self.phase matches Phase::Reporting(delivery) ==> !delivery.is_over()
    }

    /// Turns to reporting a stream that is gone.
    fn report(&mut self, done: Done<S>)
        ensures
            final(self).wf(),
            old(self)@.reports(done, final(self)@),
    {
        self.phase = Phase::Reporting(self.done_s.deliver(done));
    }

    /// Goes on as far as one answer of a stream or of a channel leads.
    pub fn poll(&mut self, cx: &mut Context<'_>) -> (step: Step<()>)
        requires
            old(self).wf(),
        ensures
            final(self).wf(),
            old(self)@.polled(step, final(self)@),
    {
        let mut phase = Phase::Next;
        core::mem::swap(&mut self.phase, &mut phase);
        match phase {
            Phase::Next => {
                let next = self.rep.poll_next(cx);
                match next {
                    Step::Again => Step::Again,
                    Step::Pending => Step::Pending,
                    Step::Ready(Some((peer, msg))) => {
                        let request = self.request_s.ask(msg);
                        self.phase = Phase::Requesting(peer, request);
                        Step::Again
                    },
                    Step::Ready(None) => {
                        let peers = self.rep.drain();
                        self.closing.extend(peers);
                        self.phase = Phase::Closing;
                        Step::Again
                    },
                }
            },
            Phase::Requesting(peer, request) => {
                let mut request = request;
                let answer = request.poll(cx);
                match answer {
                    Poll::Pending => {
                        self.phase = Phase::Requesting(peer, request);
                        Step::Pending
                    },
                    Poll::Ready(Ok(reply)) => {
                        self.phase = Phase::Readying(peer, reply);
                        Step::Again
                    },
                    Poll::Ready(Err(_)) => {
                        self.phase = Phase::Refusing(OwnedClose::new(peer));
                        Step::Again
                    },
                }
            },
            Phase::Refusing(held) => {
                let mut held = held;
                let closed = held.poll(cx);
                match closed {
                    Poll::Pending => {
                        self.phase = Phase::Refusing(held);
                        Step::Pending
                    },
                    Poll::Ready(Ok(())) => {
                        self.report(None);
                        Step::Again
                    },
                    Poll::Ready(Err(error)) => {
                        self.report(Some(error));
                        Step::Again
                    },
                }
            },
            Phase::Readying(peer, reply) => {
                let mut peer = peer;
                match peer.poll_ready(cx) {
                    Poll::Pending => {
                        self.phase = Phase::Readying(peer, reply);
                        Step::Pending
                    },
                    Poll::Ready(Err(error)) => {
                        self.report(Some(error));
                        Step::Again
                    },
                    Poll::Ready(Ok(())) => {
                        match peer.start_send(reply) {
                            Ok(()) => {
                                self.phase = Phase::Flushing(peer);
                            },
                            Err(error) => {
                                self.report(Some(error));
                            },
                        }
                        Step::Again
                    },
                }
            },
            Phase::Flushing(peer) => {
                let mut peer = peer;
                match peer.poll_flush(cx) {
                    Poll::Pending => {
                        self.phase = Phase::Flushing(peer);
                        Step::Pending
                    },
                    Poll::Ready(Err(error)) => {
                        self.report(Some(error));
                        Step::Again
                    },
                    Poll::Ready(Ok(())) => {
                        self.rep.add(peer);
                        Step::Again
                    },
                }
            },
            Phase::Reporting(delivery) => {
                let mut delivery = delivery;
                let sent = delivery.poll(cx);
                match sent {
                    Poll::Ready(_) => Step::Again,
                    Poll::Pending => {
                        self.phase = Phase::Reporting(delivery);
                        Step::Pending
                    },
                }
            },
            Phase::Closing => {
                self.phase = Phase::Closing;
                let answer = self.closing.poll_next(cx);
                match answer {
                    Poll::Ready(Some(_)) => Step::Again,
                    Poll::Ready(None) => {
                        self.phase = Phase::Finished;
                        Step::Ready(())
                    },
                    Poll::Pending => Step::Pending,
                }
            },
            Phase::Finished => {
                self.phase = Phase::Finished;
                Step::Ready(())
            },
        }
    }
}

/// Asks each request that comes from a stream out of `ready_r` through `request_s`, and
/// sends the reply back to that stream. Streams that are gone are reported to `done_s`.
pub fn rep<'a, S: PatternStream>(
    ready_r: Receiver<S>,
    done_s: &'a Sender<Done<S>>,
    request_s: &'a Sender<(S::Msg, QPromise<S::Msg>)>,
) -> (run: RepRun<'a, S>)
    ensures
        run.wf(),
        run@.rep.members == Seq::<Peer<S>>::empty(),
        run@.rep.ready.origin() == ready_r,
        run@.rep.ready.receipts() == Seq::<Receipt<S>>::empty(),
        run@.rep.done.sender() == *done_s,
        run@.rep.done.handed() == Seq::<Done<S>>::empty(),
        run@.done_s == *done_s,
        run@.request_s == *request_s,
        run@.phase is Next,
        run@.closing == Seq::<Peer<S>>::empty(),
        run@.reported == Seq::<Done<S>>::empty(),
        run@.asked == Seq::<(S::Msg, QPromise<S::Msg>)>::empty(),
{
    RepRun {
        rep: Rep::new(ready_r, done_s.clone()),
        done_s: Courier::new(done_s),
        request_s: Asker::new(request_s),
        phase: Phase::Next,
        closing: CloseSet::new(),
    }
}

impl<'a, S: PatternStream> Machine for RepRun<'a, S> {
    type Model = RepRunView<'a, S>;

    open spec fn model(&self) -> RepRunView<'a, S> {
        self@
    }

    open spec fn in_order(&self) -> bool {
        self.wf()
    }

    open spec fn steps(before: RepRunView<'a, S>, step: Step<()>, after: RepRunView<'a, S>) -> bool {
        before.polled(step, after)
    }

    fn poll_once(&mut self, cx: &mut Context<'_>) -> (step: Step<()>) {
        self.poll(cx)
    }
}

} // verus!
