//! Streams that take turns.
//!
//! [`PushStreams`] keeps the streams that are free, in the order in which they
//! joined, and hands them out one at a time: the next one leaves only after the
//! [`Key`] that came with the one before was given back.
//!
//! The turn is passed along a chain of links. Each stream waits at its own link
//! for the turn to come from the stream before it. A stream that goes away while
//! it waits passes its link on to the one behind it.
use crate::channel::{Inbox, Outbox, Receipt};
use crate::stream::{ending, Call, Done, PatternStream, Peer};
use crate::task::Step;
use async_channel::{Receiver, Sender};
use core::task::{Context, Poll};
use vstd::prelude::*;

verus! {

/// What can come through a link.
pub enum Unlock {
    /// It is your turn.
    Unlock,
    /// Wait at this link instead.
    Skip(Box<Link>),
}

/// A place for one [`Unlock`], between the stream that will put it there and the
/// one that waits for it.
pub enum Link {
    /// Nothing has come yet.
    Empty,
    /// This has come and was not taken yet.
    Full(Unlock),
    /// Nothing has come, and nothing ever will.
    Closed,
}

/// Whose turn it is.
#[derive(Clone, Copy, PartialEq, Eq, Structural)]
pub enum Turn {
    /// Whoever is first in line may go.
    Free,
    /// Someone has the turn.
    Held,
    /// The turn was dropped by the one who had it: nobody will ever get it.
    Lost,
}

impl Unlock {
    /// What the one who takes this learns of the turn.
    pub open spec fn turn(self) -> Turn
        decreases self,
    {
        match self {
            Unlock::Unlock => Turn::Free,
            Unlock::Skip(link) => link.turn(),
        }
    }
}

impl Link {
    /// What the one who waits here, and follows every `Skip`, learns of the turn.
    pub open spec fn turn(self) -> Turn
        decreases self,
    {
        match self {
            Link::Empty => Turn::Held,
            Link::Full(unlock) => unlock.turn(),
            Link::Closed => Turn::Lost,
        }
    }

    /// Puts `unlock` where the waiting one will end up after every `Skip`. It is
    /// dropped if that place is taken or closed.
    pub fn send(&mut self, unlock: Unlock)
        ensures
            final(self).turn() == if old(self).turn() is Held {
                unlock.turn()
            } else {
                old(self).turn()
            },
        decreases *old(self),
    {
        match self {
            Link::Empty => {
                *self = Link::Full(unlock);
            },
            Link::Full(Unlock::Skip(link)) => {
                link.send(unlock);
            },
            Link::Full(Unlock::Unlock) => {},
            Link::Closed => {},
        }
    }

    /// Says that nothing more will be sent. What has come stays.
    pub fn close(&mut self)
        ensures
            final(self).turn() == if old(self).turn() is Held {
                Turn::Lost
            } else {
                old(self).turn()
            },
        decreases *old(self),
    {
        match self {
            Link::Empty => {
                *self = Link::Closed;
            },
            Link::Full(Unlock::Skip(link)) => {
                link.close();
            },
            Link::Full(Unlock::Unlock) => {},
            Link::Closed => {},
        }
    }

    /// Follows every `Skip` and takes the turn if it has come.
    pub fn receive(&mut self) -> (turn: Turn)
        ensures
            turn == old(self).turn(),
            final(self).turn() == if turn is Free {
                Turn::Held
            } else {
                turn
            },
        decreases *old(self),
    {
        let mut link = Link::Empty;
        core::mem::swap(self, &mut link);
        match link {
            Link::Empty => Turn::Held,
            Link::Full(Unlock::Unlock) => Turn::Free,
            Link::Full(Unlock::Skip(inner)) => {
                *self = *inner;
                self.receive()
            },
            Link::Closed => {
                *self = Link::Closed;
                Turn::Lost
            },
        }
    }
}

/// What comes with a stream that is handed out: the right to the turn.
///
/// There is never more than one, and only [`PushStreams`] makes it.
pub struct Key {
    _made_here: (),
}

/// A stream that waits for its turn.
#[verifier::reject_recursive_types(S)]
pub struct PushStream<S: PatternStream> {
    peer: Peer<S>,
    unlock_r: Link,
}

/// How a waiting stream stands after it was polled.
pub enum Waiting {
    /// It goes on waiting.
    Pending,
    /// It had a message, which was thrown away: it may have more.
    Again,
    /// It ended or failed, and that was reported.
    Ended,
    /// The turn can never come.
    Dropped,
    /// The turn has come.
    Unlocked,
}

/// What becomes of a waiting stream that gave `answer` when it was asked for a
/// message, at a link of this turn.
pub open spec fn waiting<M, E>(answer: Poll<Option<Result<M, E>>>, turn: Turn) -> Waiting {
    match answer {
        Poll::Ready(Some(Ok(_))) => Waiting::Again,
        Poll::Ready(Some(Err(_))) => Waiting::Ended,
        Poll::Ready(None) => Waiting::Ended,
        Poll::Pending => match turn {
            Turn::Free => Waiting::Unlocked,
            Turn::Held => Waiting::Pending,
            Turn::Lost => Waiting::Dropped,
        },
    }
}

impl<S: PatternStream> PushStream<S> {
    /// The stream.
    pub closed spec fn peer(&self) -> Peer<S> {
        self.peer
    }

    /// What it knows of the turn.
    pub closed spec fn turn(&self) -> Turn {
        self.unlock_r.turn()
    }

    /// Asks the stream for a message, to notice when it is gone, then looks for the
    /// turn. Messages are thrown away.
    pub fn poll_next(
        &mut self,
        done_s: &mut Outbox<Done<S>>,
        cx: &mut Context<'_>,
    ) -> (waits: Waiting)
        ensures
            exists|answer: Poll<Option<Result<S::Msg, S::Err>>>| #[trigger]
                old(self).peer().called(Call::Next(answer), final(self).peer()) && waits == waiting(
                    answer,
                    old(self).turn(),
                ) && old(done_s).handing(ending(answer), *final(done_s)),
            final(self).turn() == if waits is Unlocked {
                Turn::Held
            } else {
                old(self).turn()
            },
    {
        let answer = self.peer.poll_next(cx);
        let ghost seen = answer;
        let waits = match answer {
            Poll::Ready(Some(Ok(_))) => Waiting::Again,
            Poll::Ready(Some(Err(e))) => {
                done_s.hand(Some(e));
                Waiting::Ended
            },
            Poll::Ready(None) => {
                done_s.hand(None);
                Waiting::Ended
            },
            Poll::Pending => match self.unlock_r.receive() {
                Turn::Free => Waiting::Unlocked,
                Turn::Held => Waiting::Pending,
                Turn::Lost => Waiting::Dropped,
            },
        };
        assert(old(self).peer().called(Call::Next(seen), self.peer()));
        waits
    }
}

/// The streams that take turns.
#[verifier::reject_recursive_types(S)]
pub struct PushStreams<S: PatternStream> {
    select: Vec<PushStream<S>>,
    ready_r: Inbox<S>,
    done_s: Outbox<Done<S>>,
    unlock_r: Link,
}

/// What [`PushStreams`] stands for.
#[verifier::ext_equal]
#[verifier::reject_recursive_types(S)]
pub struct Chain<S: PatternStream> {
    /// The streams that wait, the next one first.
    pub members: Seq<Peer<S>>,
    /// Whose turn it is.
    pub turn: Turn,
    /// Where streams that join come from.
    pub ready: Inbox<S>,
    /// Where streams that are gone are reported.
    pub done: Outbox<Done<S>>,
}

impl<S: PatternStream> View for PushStreams<S> {
    type V = Chain<S>;

    closed spec fn view(&self) -> Chain<S> {
        Chain {
            members: Seq::new(self.select@.len(), |i: int| self.select@[i].peer()),
            turn: if self.select@.len() > 0 {
                self.select@[0].turn()
            } else {
                self.unlock_r.turn()
            },
            ready: self.ready_r,
            done: self.done_s,
        }
    }
}

/// A waiting stream as it was after it was asked for a message, and its answer.
#[verifier::reject_recursive_types(S)]
pub struct Visit<S: PatternStream> {
    /// The answer.
    pub answer: Poll<Option<Result<S::Msg, S::Err>>>,
    /// The stream afterwards.
    pub after: Peer<S>,
}

/// The outside answers of one round over the line.
#[verifier::reject_recursive_types(S)]
pub struct Round<S: PatternStream> {
    /// What came when new streams were asked for.
    pub arrival: Poll<Option<S>>,
    /// That stream, if one came.
    pub joined: Seq<Peer<S>>,
    /// The streams that were asked, in line order.
    pub visits: Seq<Visit<S>>,
    /// Whether more streams can come, if that was asked.
    pub closed: Option<bool>,
}

/// The streams that stay in line after these visits, if the turn stood like this.
/// Those that end leave; so do those at the head of the line when the turn is
/// lost, unless they had a message.
pub open spec fn stay<S: PatternStream>(visits: Seq<Visit<S>>, turn: Turn) -> Seq<Peer<S>>
    decreases visits.len(),
{
    if visits.len() == 0 {
        Seq::empty()
    } else {
        let before = stay(visits.drop_last(), turn);
        let at = if before.len() == 0 {
            turn
        } else {
            Turn::Held
        };
        match waiting(visits.last().answer, at) {
            Waiting::Pending | Waiting::Again => before.push(visits.last().after),
            Waiting::Ended | Waiting::Dropped | Waiting::Unlocked => before,
        }
    }
}

/// What is reported of these visits.
pub open spec fn endings<S: PatternStream>(visits: Seq<Visit<S>>) -> Seq<Done<S>>
    decreases visits.len(),
{
    if visits.len() == 0 {
        Seq::empty()
    } else {
        endings(visits.drop_last()) + ending(visits.last().answer)
    }
}

/// The stream said at this visit that it is gone.
pub open spec fn ended<S: PatternStream>(visit: Visit<S>) -> bool {
    waiting(visit.answer, Turn::Held) is Ended
}

/// The stream had a message at this visit, and may have more.
pub open spec fn had_more<S: PatternStream>(visit: Visit<S>) -> bool {
    waiting(visit.answer, Turn::Held) is Again
}

/// The last of these visits was to the head of the line, which takes the turn.
pub open spec fn unlocks<S: PatternStream>(visits: Seq<Visit<S>>, turn: Turn) -> bool {
    &&& visits.len() > 0
    &&& turn is Free
    &&& visits.last().answer is Pending
    &&& stay(visits.drop_last(), turn).len() == 0
}

impl<S: PatternStream> Round<S> {
    /// What was asked of the place that new streams come from.
    pub open spec fn receipts(self) -> Seq<Receipt<S>> {
        match self.closed {
            Some(closed) => seq![Receipt::Polled(self.arrival), Receipt::Closed(closed)],
            None => seq![Receipt::Polled(self.arrival)],
        }
    }
}

impl Turn {
    /// The turn after it was given back.
    pub open spec fn given_back(self) -> Turn {
        if self is Held {
            Turn::Free
        } else {
            self
        }
    }

    /// The turn after it was dropped.
    pub open spec fn dropped(self) -> Turn {
        if self is Held {
            Turn::Lost
        } else {
            self
        }
    }
}

impl<S: PatternStream> Chain<S> {
    /// `after` differs only in that the turn was given back, and that these streams
    /// were reported.
    pub open spec fn gave_back(self, reports: Seq<Done<S>>, after: Self) -> bool {
        &&& after.members == self.members
        &&& after.turn == self.turn.given_back()
        &&& after.ready == self.ready
        &&& self.done.handing(reports, after.done)
    }

    /// `step` and `after` are what comes of this round.
    ///
    /// A stream that arrives joins at the end, and nothing else happens. Once none
    /// arrives, the streams are asked in line order, up to one that has a message, which
    /// is thrown away, or up to the one that takes the turn, which leaves: the first that
    /// is not gone, if the turn is free.
    pub open spec fn polled(
        self,
        round: Round<S>,
        step: Step<Option<(Peer<S>, Key)>>,
        after: Chain<S>,
    ) -> bool {
        let line = self.members + round.joined;
        let visits = round.visits;
        &&& match round.arrival {
            Poll::Ready(Some(stream)) => {
                &&& round.joined.len() == 1
                &&& round.joined[0].origin() == stream
                &&& round.joined[0].calls().len() == 0
            },
            _ => round.joined.len() == 0,
        }
        &&& visits.len() <= line.len()
        &&& forall|i: int|
            0 <= i < visits.len() ==> line[i].called(
                Call::Next((#[trigger] visits[i]).answer),
                visits[i].after,
            )
        &&& self.done.handing(endings(visits), after.done)
        &&& self.ready.origin() == after.ready.origin()
        &&& after.ready.receipts() == self.ready.receipts() + round.receipts()
        &&& match step {
            _ if round.joined.len() > 0 => {
                &&& visits.len() == 0
                &&& after.members == line
                &&& after.turn == self.turn
                &&& round.closed is None
                &&& step is Again
            },
            Step::Ready(Some((peer, _))) => {
                &&& round.joined.len() == 0
                &&& visits.len() > 0
                &&& forall|i: int| 0 <= i < visits.len() - 1 ==> ended(#[trigger] visits[i])
                &&& visits.last().answer is Pending
                &&& peer == visits.last().after
                &&& self.turn is Free
                &&& after.members == line.skip(visits.len() as int)
                &&& after.turn is Held
                &&& round.closed is None
            },
            Step::Again => {
                &&& visits.len() > 0
                &&& had_more(visits.last())
                &&& forall|i: int| 0 <= i < visits.len() - 1 ==> !had_more(#[trigger] visits[i])
                &&& forall|k: int|
                    0 <= k <= visits.len() ==> !unlocks(#[trigger] visits.take(k), self.turn)
                &&& after.members == stay(visits, self.turn) + line.skip(visits.len() as int)
                &&& after.turn == self.turn
                &&& round.closed is None
            },
            _ => {
                &&& visits.len() == line.len()
                &&& forall|i: int| 0 <= i < visits.len() ==> !had_more(#[trigger] visits[i])
                &&& forall|k: int|
                    0 <= k <= visits.len() ==> !unlocks(#[trigger] visits.take(k), self.turn)
                &&& after.members == stay(visits, self.turn)
                &&& after.turn == self.turn
                &&& round.closed is Some <==> after.members.len() == 0
                &&& step == if round.closed == Some(true) {
                    Step::<Option<(Peer<S>, Key)>>::Ready(None)
                } else {
                    Step::Pending
                }
            },
        }
    }
}

impl<S: PatternStream> PushStreams<S> {
    /// The turn is in one place at most: only the link at the head of the line can
    /// hold anything.
    pub closed spec fn wf(&self) -> bool {
        &&& forall|i: int|
            0 < i < self.select@.len() ==> (#[trigger] self.select@[i]).turn() is Held
        &&& self.select@.len() > 0 ==> self.unlock_r.turn() is Held
    }

    /// Nobody waits, and the turn is free.
    pub fn new(ready_r: Receiver<S>, done_s: Sender<Done<S>>) -> (streams: Self)
        ensures
            streams.wf(),
            streams@.members == Seq::<Peer<S>>::empty(),
            streams@.turn is Free,
            streams@.ready.origin() == ready_r,
            streams@.ready.receipts() == Seq::<Receipt<S>>::empty(),
            streams@.done.sender() == done_s,
            streams@.done.handed() == Seq::<Done<S>>::empty(),
    {
        PushStreams {
            select: Vec::new(),
            ready_r: Inbox::new(ready_r),
            done_s: Outbox::new(done_s),
            unlock_r: Link::Full(Unlock::Unlock),
        }
    }

    /// Puts a stream at the end of the line.
    pub fn add(&mut self, peer: Peer<S>)
        requires
            old(self).wf(),
        ensures
            final(self).wf(),
            final(self)@ == (Chain { members: old(self)@.members.push(peer), ..old(self)@ }),
    {
        let mut unlock_r = Link::Empty;
        core::mem::swap(&mut self.unlock_r, &mut unlock_r);
        self.select.push(PushStream { peer, unlock_r });
    }

    /// Reports a stream that is gone.
    pub fn done(&mut self, done: Done<S>)
        requires
            old(self).wf(),
        ensures
            final(self).wf(),
            final(self)@ == (Chain { done: final(self)@.done, ..old(self)@ }),
            old(self)@.done.handing(seq![done], final(self)@.done),
    {
        self.done_s.hand(done);
    }

    /// Gives the turn back, to whoever is at the head of the line.
    pub fn unlock(&mut self, key: Key)
        requires
            old(self).wf(),
        ensures
            final(self).wf(),
            final(self)@ == (Chain {
                turn: old(self)@.turn.given_back(),
                ..old(self)@
            }),
    {
        let _ = key;
        if self.select.len() > 0 {
            self.select[0].unlock_r.send(Unlock::Unlock);
        } else {
            self.unlock_r.send(Unlock::Unlock);
        }
    }

    /// Drops the turn: nobody will get it any more.
    pub fn forsake(&mut self, key: Key)
        requires
            old(self).wf(),
        ensures
            final(self).wf(),
            final(self)@ == (Chain {
                turn: old(self)@.turn.dropped(),
                ..old(self)@
            }),
    {
        let _ = key;
        if self.select.len() > 0 {
            self.select[0].unlock_r.close();
        } else {
            self.unlock_r.close();
        }
    }

    /// Takes in a stream that wants to join, if there is one. Else it asks the streams in
    /// line, and the one whose turn it is leaves the line, with the turn.
    pub fn poll_next(&mut self, cx: &mut Context<'_>) -> (step: Step<Option<(Peer<S>, Key)>>)
        requires
            old(self).wf(),
        ensures
            final(self).wf(),
            exists|round: Round<S>| #[trigger] old(self)@.polled(round, step, final(self)@),
    {
        let arrival = self.ready_r.poll(cx);
        let ghost arrived = arrival;
        match arrival {
            Poll::Ready(Some(stream)) => {
                let peer = Peer::new(stream);
                self.add(peer);
                proof {
                    let round = Round {
                        arrival: arrived,
                        joined: seq![peer],
                        visits: Seq::empty(),
                        closed: None,
                    };
                    assert(self@.members =~= old(self)@.members + round.joined);
                    assert(self@.ready.receipts() =~= old(self)@.ready.receipts()
                        + round.receipts());
                    assert(old(self)@.polled(round, Step::Again, self@));
                }
                return Step::Again;
            },
            _ => {},
        }
        let ghost joined = Seq::<Peer<S>>::empty();
        let ghost line = old(self)@.members;
        let ghost turn = old(self)@.turn;
        let ghost mut visits = Seq::<Visit<S>>::empty();
        let ghost ready = self@.ready;
        let mut i: usize = 0;
        while i < self.select.len()
            invariant
                self.wf(),
                turn == old(self)@.turn,
                self@.turn == turn,
                self@.ready == ready,
                old(self)@.ready.asked(Receipt::Polled(arrived), ready),
                line == old(self)@.members,
                joined == Seq::<Peer<S>>::empty(),
                !(arrived matches Poll::Ready(Some(_))),
                visits.len() <= line.len(),
                i == stay(visits, turn).len(),
                self.select@.len() == self@.members.len(),
                self@.members == stay(visits, turn) + line.skip(visits.len() as int),
                forall|j: int|
                    0 <= j < visits.len() ==> line[j].called(
                        Call::Next((#[trigger] visits[j]).answer),
                        visits[j].after,
                    ),
                forall|k: int| 0 <= k <= visits.len() ==> !unlocks(#[trigger] visits.take(k), turn),
                turn is Free && i == 0 ==> forall|j: int|
                    0 <= j < visits.len() ==> ended(#[trigger] visits[j]),
                old(self)@.done.handing(endings(visits), self@.done),
                forall|j: int| 0 <= j < visits.len() ==> !had_more(#[trigger] visits[j]),
            decreases line.len() - visits.len(),
        {
            let ghost at = self.select@[i as int].turn();
            let ghost asked = self.select@[i as int].peer();
            let ghost before = self@;
            let waits = self.select[i].poll_next(&mut self.done_s, cx);
            let ghost after = self.select@[i as int].peer();
            proof {
                let answer = choose|answer: Poll<Option<Result<S::Msg, S::Err>>>| #[trigger]
                    asked.called(Call::Next(answer), after) && waits == waiting(answer, at)
                        && before.done.handing(ending(answer), self.done_s);
                let visit = Visit { answer, after };
                assert(asked == before.members[i as int]);
                let known = visits;
                visits = visits.push(visit);
                assert(visits.drop_last() =~= known);
                assert(self@.members =~= before.members.update(i as int, after));
                assert(self@.done.handed() =~= old(self)@.done.handed() + endings(visits));
                assert(at == if i == 0 {
                    turn
                } else {
                    Turn::Held
                });
                assert forall|k: int|
                    0 <= k <= visits.len() && !(waits is Unlocked) implies !unlocks(
                    #[trigger] visits.take(k),
                    turn,
                ) by {
                    if k < visits.len() {
                        assert(visits.take(k) =~= known.take(k));
                    } else {
                        assert(visits.take(k) =~= visits);
                    }
                }
            }
            let ghost mid = self@;
            match waits {
                Waiting::Pending => {
                    i += 1;
                },
                Waiting::Again => {
                    proof {
                        assert(self@.members =~= stay(visits, turn) + line.skip(
                            visits.len() as int,
                        ));
                        let round = Round { arrival: arrived, joined, visits, closed: None };
                        assert(self@.ready.receipts() =~= old(self)@.ready.receipts()
                            + round.receipts());
                        assert(old(self)@.members + joined =~= line);
                        assert(old(self)@.polled(round, Step::Again, self@));
                    }
                    return Step::Again;
                },
                Waiting::Ended => {
                    self.skip(i);
                },
                Waiting::Dropped => {
                    self.drop_first();
                },
                Waiting::Unlocked => {
                    let member = self.select.remove(i);
                    proof {
                        assert(self@.members =~= mid.members.remove(0));
                        assert(self@.members =~= line.skip(visits.len() as int));
                        let round = Round { arrival: arrived, joined, visits, closed: None };
                        assert(self@.ready.receipts() =~= old(self)@.ready.receipts()
                            + round.receipts());
                        assert(old(self)@.members + joined =~= line);
                        assert(old(self)@.polled(
                            round,
                            Step::Ready(Some((member.peer, Key { _made_here: () }))),
                            self@,
                        ));
                    }
                    return Step::Ready(Some((member.peer, Key { _made_here: () })));
                },
            }
        }
        let ghost mut closed: Option<bool> = None;
        let step = if self.select.len() > 0 {
            Step::Pending
        } else {
            let answer = self.ready_r.is_closed();
            proof {
                closed = Some(answer);
            }
            if answer {
                Step::Ready(None)
            } else {
                Step::Pending
            }
        };
        proof {
            let round = Round { arrival: arrived, joined, visits, closed };
            assert(old(self)@.members + joined =~= line);
            assert(self@.ready.receipts() =~= old(self)@.ready.receipts() + round.receipts());
            assert(old(self)@.polled(round, step, self@));
        }
        step
    }

    /// Takes all streams out of the line. If there were any, the turn is lost with
    /// them.
    pub fn drain(&mut self) -> (peers: Vec<Peer<S>>)
        requires
            old(self).wf(),
        ensures
            final(self).wf(),
            peers@ == old(self)@.members,
            final(self)@ == (Chain {
                members: Seq::empty(),
                turn: if old(self)@.members.len() > 0 {
                    Turn::Lost
                } else {
                    old(self)@.turn
                },
                ..old(self)@
            }),
    {
        let mut peers = Vec::new();
        let mut select = Vec::new();
        core::mem::swap(&mut self.select, &mut select);
        let ghost members = old(self)@.members;
        if select.len() > 0 {
            self.unlock_r.close();
        }
        let ghost all = select@;
        for member in iter: select
            invariant
                iter.seq() == all,
                members.len() == all.len(),
                forall|i: int| 0 <= i < all.len() ==> members[i] == (#[trigger] all[i]).peer(),
                peers@ == members.take(iter.index()),
        {
            peers.push(member.peer);
        }
        peers
    }

    /// Takes the stream at `i` out of the line. The one behind it then waits where
    /// it waited.
    fn skip(&mut self, i: usize)
        requires
            old(self).wf(),
            i < old(self)@.members.len(),
        ensures
            final(self).wf(),
            final(self)@ == (Chain {
                members: old(self)@.members.remove(i as int),
                ..old(self)@
            }),
    {
        let member = self.select.remove(i);
        let skip = Unlock::Skip(Box::new(member.unlock_r));
        if i < self.select.len() {
            self.select[i].unlock_r.send(skip);
        } else {
            self.unlock_r.send(skip);
        }
    }

    /// Takes the stream at the head out of the line, when its turn can never come.
    /// Nor can that of the one behind it.
    fn drop_first(&mut self)
        requires
            old(self).wf(),
            old(self)@.members.len() > 0,
            old(self)@.turn is Lost,
        ensures
            final(self).wf(),
            final(self)@ == (Chain {
                members: old(self)@.members.remove(0),
                ..old(self)@
            }),
    {
        let _ = self.select.remove(0);
        if self.select.len() > 0 {
            self.select[0].unlock_r.close();
        } else {
            self.unlock_r.close();
        }
    }
}

} // verus!
