//! Sending each message to one of many streams, in turn.
use crate::channel::{Inbox, Receipt};
use crate::owned_close::{closed_round, CloseSet};
use crate::promise::{plain, Jobs, Owed, QPromise};
use crate::push_stream::{Chain, Key, PushStreams, Round, Turn};
use crate::stream::{Call, Done, PatternStream, Peer};
use crate::task::{Machine, Step};
use async_channel::{Receiver, Sender};
use core::task::{Context, Poll};
use vstd::prelude::*;

verus! {

/// What a [`Push`] has in hand.
#[verifier::reject_recursive_types(S)]
pub enum State<S: PatternStream> {
    /// Nothing.
    Pending,
    /// A message that waits for a stream.
    Msg(S::Msg),
    /// A stream that waits for a message.
    Stream(Peer<S>, Key),
    /// A message for this stream, which was not taken yet.
    Readying(S::Msg, Peer<S>, Key),
    /// A message that this stream has taken and may not have sent yet.
    Sending(S::Msg, Peer<S>, Key),
}

/// Why a [`Push`] cannot go on.
#[verifier::reject_recursive_types(S)]
pub enum PushError<S: PatternStream> {
    /// There is no stream for this message, and there will be none.
    NoStreams(S::Msg),
    /// A message was handed over before the last one was through.
    AlreadySending,
}

/// What comes of looking at the state once.
#[verifier::reject_recursive_types(S)]
pub enum StatePoll<S: PatternStream> {
    /// This is the answer.
    Poll(Poll<Result<(), PushError<S>>>),
    /// There is more to do in the state that was reached.
    Continue,
    /// The streams have more to do before anything can be said.
    Again,
}

impl<S: PatternStream> StatePoll<S> {
    /// What this means for one who only wants to know whether to go on.
    pub open spec fn step_spec(self) -> Step<Result<(), PushError<S>>> {
        match self {
            StatePoll::Poll(Poll::Ready(ready)) => Step::Ready(ready),
            StatePoll::Poll(Poll::Pending) => Step::Pending,
            StatePoll::Continue | StatePoll::Again => Step::Again,
        }
    }

    /// What this means for one who only wants to know whether to go on.
    pub fn step(self) -> (step: Step<Result<(), PushError<S>>>)
        ensures
            step == self.step_spec(),
    {
        match self {
            StatePoll::Poll(Poll::Ready(ready)) => Step::Ready(ready),
            StatePoll::Poll(Poll::Pending) => Step::Pending,
            StatePoll::Continue => Step::Again,
            StatePoll::Again => Step::Again,
        }
    }
}

impl<S: PatternStream> State<S> {
    /// Whether it has the turn.
    pub open spec fn has_key(self) -> bool {
        self is Stream || self is Readying || self is Sending
    }

    /// What it is doing, in a word.
    pub fn name(&self) -> (text: &'static str)
        ensures
            text@ == match *self {
                State::Pending => "pending"@,
                State::Msg(_) => "msg"@,
                State::Stream(_, _) => "stream"@,
                State::Readying(_, _, _) => "readying"@,
                State::Sending(_, _, _) => "sending"@,
            },
    {
        match self {
            State::Pending => "pending",
            State::Msg(_) => "msg",
            State::Stream(_, _) => "stream",
            State::Readying(_, _, _) => "readying",
            State::Sending(_, _, _) => "sending",
        }
    }

    /// Takes what is in hand.
    pub fn take(&mut self) -> (state: Self)
        ensures
            state == *old(self),
            *final(self) is Pending,
    {
        let mut state = State::Pending;
        core::mem::swap(self, &mut state);
        state
    }

    /// What comes of a look at the streams, in this state.
    pub open spec fn on_streams_spec(self, polled: Poll<Option<(Peer<S>, Key)>>) -> (
        State<S>,
        StatePoll<S>,
    ) {
        match (self, polled) {
            (State::Pending, Poll::Ready(Some((peer, key)))) => (
                State::Stream(peer, key),
                StatePoll::Poll(Poll::Ready(Ok(()))),
            ),
            (State::Msg(msg), Poll::Ready(Some((peer, key)))) => (
                State::Readying(msg, peer, key),
                StatePoll::Continue,
            ),
            (State::Msg(msg), Poll::Ready(None)) => (
                State::Pending,
                StatePoll::Poll(Poll::Ready(Err(PushError::NoStreams(msg)))),
            ),
            (State::Msg(msg), Poll::Pending) => (State::Msg(msg), StatePoll::Poll(Poll::Pending)),
            (State::Pending | State::Stream(_, _), _) => (
                self,
                StatePoll::Poll(Poll::Ready(Ok(()))),
            ),
            (State::Readying(_, _, _) | State::Sending(_, _, _), _) => (self, StatePoll::Continue),
        }
    }

    /// Takes note of a look at the streams. No stream is handed out to one who has
    /// the turn already.
    pub fn on_streams(self, polled: Poll<Option<(Peer<S>, Key)>>) -> (next: (
        State<S>,
        StatePoll<S>,
    ))
        requires
            !(self.has_key() && polled matches Poll::Ready(Some(_))),
        ensures
            next == self.on_streams_spec(polled),
    {
        match (self, polled) {
            (State::Pending, Poll::Ready(Some((peer, key)))) => (
                State::Stream(peer, key),
                StatePoll::Poll(Poll::Ready(Ok(()))),
            ),
            (State::Pending, _) => (State::Pending, StatePoll::Poll(Poll::Ready(Ok(())))),
            (State::Msg(msg), Poll::Ready(Some((peer, key)))) => (
                State::Readying(msg, peer, key),
                StatePoll::Continue,
            ),
            (State::Msg(msg), Poll::Ready(None)) => (
                State::Pending,
                StatePoll::Poll(Poll::Ready(Err(PushError::NoStreams(msg)))),
            ),
            (State::Msg(msg), Poll::Pending) => (State::Msg(msg), StatePoll::Poll(Poll::Pending)),
            (State::Stream(peer, key), _) => (
                State::Stream(peer, key),
                StatePoll::Poll(Poll::Ready(Ok(()))),
            ),
            (State::Readying(msg, peer, key), _) => (
                State::Readying(msg, peer, key),
                StatePoll::Continue,
            ),
            (State::Sending(msg, peer, key), _) => (
                State::Sending(msg, peer, key),
                StatePoll::Continue,
            ),
        }
    }
}

/// Sends each message to one of many streams, in turn.
#[verifier::reject_recursive_types(S)]
pub struct Push<S: PatternStream> {
    streams: PushStreams<S>,
    state: State<S>,
    closing: CloseSet<S>,
}

/// What a [`Push`] stands for.
#[verifier::ext_equal]
#[verifier::reject_recursive_types(S)]
pub struct PushView<S: PatternStream> {
    /// The streams that wait for a message.
    pub streams: Chain<S>,
    /// What is in hand.
    pub state: State<S>,
    /// The streams that are being closed.
    pub closing: Seq<Peer<S>>,
}

impl<S: PatternStream> View for Push<S> {
    type V = PushView<S>;

    closed spec fn view(&self) -> PushView<S> {
        PushView { streams: self.streams@, state: self.state, closing: self.closing@ }
    }
}

impl<S: PatternStream> PushView<S> {
    /// `res` and `after` are what may come of a look at the streams.
    pub open spec fn stream_polled(self, res: StatePoll<S>, after: Self) -> bool {
        exists|round: Round<S>, step: Step<Option<(Peer<S>, Key)>>| #[trigger]
            self.streams.polled(round, step, after.streams) && after.closing == self.closing && (
            after.state,
            res,
        ) == match step {
                Step::Ready(ready) => self.state.on_streams_spec(Poll::Ready(ready)),
                Step::Pending => self.state.on_streams_spec(Poll::Pending),
                Step::Again => (self.state, StatePoll::Again),
            }
    }

    /// `res` and `after` are what may come of looking for another stream for `msg`,
    /// with nothing else in hand.
    pub open spec fn assigned(self, msg: S::Msg, res: StatePoll<S>, after: Self) -> bool {
        (PushView { state: State::Msg(msg), ..self }).stream_polled(res, after)
    }

    /// `res` and `after` are what may come of it when the stream that had `msg`
    /// fails: that is reported, the turn goes back, and another stream is looked
    /// for.
    pub open spec fn failed(
        self,
        msg: S::Msg,
        error: S::Err,
        res: StatePoll<S>,
        after: Self,
    ) -> bool {
        exists|mid: Chain<S>| #[trigger]
            self.streams.gave_back(seq![Some(error)], mid) && (PushView {
                streams: mid,
                ..self
            }).assigned(msg, res, after)
    }

    /// `res` and `after` are what may come of looking at the state once.
    pub open spec fn state_polled(self, res: StatePoll<S>, after: Self) -> bool {
        match self.state {
            State::Pending | State::Stream(_, _) => after == self && res
                == StatePoll::<S>::Poll(Poll::Ready(Ok(()))),
            State::Msg(msg) => self.assigned(msg, res, after),
            State::Readying(msg, peer, key) => exists|
                ready: Poll<Result<(), S::Err>>,
                asked: Peer<S>,
            | #[trigger]
                peer.called(Call::Ready(ready), asked) && match ready {
                    Poll::Pending => {
                        &&& after == PushView { state: State::Readying(msg, asked, key), ..self }
                        &&& res == StatePoll::<S>::Poll(Poll::Pending)
                    },
                    Poll::Ready(Err(error)) => self.failed(msg, error, res, after),
                    Poll::Ready(Ok(())) => self.handed_over(msg, asked, key, res, after),
                },
            State::Sending(msg, peer, key) => exists|
                flushed: Poll<Result<(), S::Err>>,
                asked: Peer<S>,
            | #[trigger]
                peer.called(Call::Flush(flushed), asked) && match flushed {
                    Poll::Pending => {
                        &&& after == PushView { state: State::Sending(msg, asked, key), ..self }
                        &&& res == StatePoll::<S>::Poll(Poll::Pending)
                    },
                    Poll::Ready(Err(error)) => self.failed(msg, error, res, after),
                    Poll::Ready(Ok(())) => {
                        &&& after.state is Pending
                        &&& after.closing == self.closing
                        &&& (Chain {
                            members: self.streams.members.push(asked),
                            ..self.streams
                        }).gave_back(Seq::empty(), after.streams)
                        &&& res == StatePoll::<S>::Poll(Poll::Ready(Ok(())))
                    },
                },
        }
    }

    /// `step` and `after` are what may come of a flush: a look at the streams, then
    /// at the state if that is called for.
    pub open spec fn flushed(self, step: Step<Result<(), PushError<S>>>, after: Self) -> bool {
        exists|first: StatePoll<S>, mid: Self| #[trigger]
            self.stream_polled(first, mid) && mid.looked(first, step, after)
    }

    /// `step` and `after` are what may come of a flush after this look at the streams.
    pub open spec fn looked(
        self,
        first: StatePoll<S>,
        step: Step<Result<(), PushError<S>>>,
        after: Self,
    ) -> bool {
        if first is Continue {
            exists|second: StatePoll<S>| #[trigger]
                self.state_polled(second, after) && step == second.step_spec()
        } else {
            after == self && step == first.step_spec()
        }
    }

    /// What is in hand after `item` was handed over, and whether it was taken.
    pub open spec fn started(self, item: S::Msg) -> (State<S>, Result<(), PushError<S>>) {
        match self.state {
            State::Pending => (State::Msg(item), Ok(())),
            State::Stream(peer, key) => (State::Readying(item, peer, key), Ok(())),
            State::Msg(_) | State::Readying(_, _, _) | State::Sending(_, _, _) => (
                State::Pending,
                Err(PushError::AlreadySending),
            ),
        }
    }

    /// Everything that is at rest, put with what is being closed.
    pub open spec fn shut(self) -> Self {
        let held = match self.state {
            State::Stream(peer, _) => seq![peer],
            _ => Seq::empty(),
        };
        PushView {
            streams: Chain {
                members: Seq::empty(),
                turn: if self.streams.members.len() > 0 {
                    Turn::Lost
                } else {
                    self.streams.turn.dropped()
                },
                ..self.streams
            },
            state: State::Pending,
            closing: self.closing + held + self.streams.members,
        }
    }

    /// `step` and `after` are what may come of going on with closing: the first
    /// stream that is through is reported.
    pub open spec fn closing_polled(
        self,
        step: Step<Result<(), PushError<S>>>,
        after: Self,
    ) -> bool {
        exists|asked: Seq<Peer<S>>, answer: Poll<Option<Result<(), S::Err>>>| #[trigger]
            closed_round(self.closing, asked, answer, after.closing) && after == (PushView {
                streams: Chain { done: after.streams.done, ..self.streams },
                closing: after.closing,
                ..self
            }) && match answer {
                Poll::Ready(Some(closed)) => {
                    &&& self.streams.done.handing(seq![closed.err()], after.streams.done)
                    &&& step is Again
                },
                Poll::Ready(None) => {
                    &&& after.streams.done == self.streams.done
                    &&& step == Step::<Result<(), PushError<S>>>::Ready(Ok(()))
                },
                Poll::Pending => {
                    &&& after.streams.done == self.streams.done
                    &&& step is Pending
                },
            }
    }

    /// `step` and `after` are what may come of closing: first comes a flush; once
    /// that is through, all streams are closed.
    pub open spec fn close_polled(
        self,
        step: Step<Result<(), PushError<S>>>,
        after: Self,
    ) -> bool {
        exists|flush: Step<Result<(), PushError<S>>>, mid: Self| #[trigger]
            self.flushed(flush, mid) && if flush matches Step::Ready(Ok(())) {
                mid.shut().closing_polled(step, after)
            } else {
                after == mid && step == flush
            }
    }

    /// `res` and `after` are what may come of handing `msg` over to `peer`, which is
    /// ready for it.
    pub open spec fn handed_over(
        self,
        msg: S::Msg,
        peer: Peer<S>,
        key: Key,
        res: StatePoll<S>,
        after: Self,
    ) -> bool {
        exists|handed: S::Msg, sent: Result<(), S::Err>, asked: Peer<S>| #[trigger]
            peer.called(Call::Send(handed, sent), asked) && cloned(msg, handed) && match sent {
                Ok(()) => {
                    &&& after == PushView { state: State::Sending(msg, asked, key), ..self }
                    &&& res is Continue
                },
                Err(error) => self.failed(msg, error, res, after),
            }
    }
}

impl<S: PatternStream> Push<S> {
    /// Whoever has a stream in hand has the turn, and nobody else has it.
    pub closed spec fn wf(&self) -> bool {
        &&& self.streams.wf()
        &&& self.state.has_key() <==> self.streams@.turn is Held
    }

    /// Looks at the streams.
    fn poll_stream(&mut self, cx: &mut Context<'_>) -> (res: StatePoll<S>)
        requires
            old(self).wf(),
        ensures
            final(self).wf(),
            old(self)@.stream_polled(res, final(self)@),
    {
        let step = self.streams.poll_next(cx);
        let polled = match step {
            Step::Ready(ready) => Poll::Ready(ready),
            Step::Pending => Poll::Pending,
            Step::Again => {
                return StatePoll::Again;
            },
        };
        let (state, res) = self.state.take().on_streams(polled);
        self.state = state;
        res
    }

    /// Looks for another stream for `msg`.
    fn assign(&mut self, msg: S::Msg, cx: &mut Context<'_>) -> (res: StatePoll<S>)
        requires
            old(self).wf(),
            old(self)@.state is Pending,
        ensures
            final(self).wf(),
            old(self)@.assigned(msg, res, final(self)@),
    {
        self.state = State::Msg(msg);
        self.poll_stream(cx)
    }

    /// Lets go of a stream that failed while it had `msg`, and looks for another.
    fn fail(&mut self, msg: S::Msg, error: S::Err, key: Key, cx: &mut Context<'_>) -> (res:
        StatePoll<S>)
        requires
            old(self).streams.wf(),
            old(self)@.streams.turn is Held,
            old(self)@.state is Pending,
        ensures
            final(self).wf(),
            old(self)@.failed(msg, error, res, final(self)@),
    {
        self.streams.done(Some(error));
        self.streams.unlock(key);
        let ghost mid = self@.streams;
        assert(old(self)@.streams.gave_back(seq![Some(error)], mid));
        self.assign(msg, cx)
    }

    /// Looks at the state once, and does what it asks for.
    fn poll_state(&mut self, cx: &mut Context<'_>) -> (res: StatePoll<S>)
        requires
            old(self).wf(),
        ensures
            final(self).wf(),
            old(self)@.state_polled(res, final(self)@),
    {
        match self.state.take() {
            State::Pending => StatePoll::Poll(Poll::Ready(Ok(()))),
            State::Stream(peer, key) => {
                self.state = State::Stream(peer, key);
                StatePoll::Poll(Poll::Ready(Ok(())))
            },
            State::Msg(msg) => self.assign(msg, cx),
            State::Readying(msg, peer, key) => {
                let mut peer = peer;
                match peer.poll_ready(cx) {
                    Poll::Ready(Ok(())) => {
                        match peer.start_send(msg.clone()) {
                            Ok(()) => {
                                self.state = State::Sending(msg, peer, key);
                                StatePoll::Continue
                            },
                            Err(error) => self.fail(msg, error, key, cx),
                        }
                    },
                    Poll::Ready(Err(error)) => self.fail(msg, error, key, cx),
                    Poll::Pending => {
                        self.state = State::Readying(msg, peer, key);
                        StatePoll::Poll(Poll::Pending)
                    },
                }
            },
            State::Sending(msg, peer, key) => {
                let mut peer = peer;
                match peer.poll_flush(cx) {
                    Poll::Ready(Ok(())) => {
                        self.streams.add(peer);
                        self.streams.unlock(key);
                        StatePoll::Poll(Poll::Ready(Ok(())))
                    },
                    Poll::Ready(Err(error)) => self.fail(msg, error, key, cx),
                    Poll::Pending => {
                        self.state = State::Sending(msg, peer, key);
                        StatePoll::Poll(Poll::Pending)
                    },
                }
            },
        }
    }

    /// Nothing is in hand, and nothing is being closed.
    pub fn new(ready_r: Receiver<S>, done_s: Sender<Done<S>>) -> (push: Self)
        ensures
            push.wf(),
            push@.streams.members == Seq::<Peer<S>>::empty(),
            push@.streams.turn is Free,
            push@.streams.ready.origin() == ready_r,
            push@.streams.ready.receipts() == Seq::<Receipt<S>>::empty(),
            push@.streams.done.sender() == done_s,
            push@.streams.done.handed() == Seq::<Done<S>>::empty(),
            push@.state is Pending,
            push@.closing == Seq::<Peer<S>>::empty(),
    {
        Push {
            streams: PushStreams::new(ready_r, done_s),
            state: State::Pending,
            closing: CloseSet::new(),
        }
    }

    /// Asks whether a message can be taken.
    pub fn poll_ready(&mut self, cx: &mut Context<'_>) -> (step: Step<Result<(), PushError<S>>>)
        requires
            old(self).wf(),
        ensures
            final(self).wf(),
            old(self)@.flushed(step, final(self)@),
            step matches Step::Ready(Ok(())) ==> final(self)@.state is Pending
                || final(self)@.state is Stream,
    {
        self.poll_flush(cx)
    }

    /// Hands a message over. That fails, and what was in hand is dropped, unless the
    /// last one is through.
    pub fn start_send(&mut self, item: S::Msg) -> (res: Result<(), PushError<S>>)
        requires
            old(self).wf(),
        ensures
            final(self).wf(),
            (final(self)@.state, res) == old(self)@.started(item),
            final(self)@.closing == old(self)@.closing,
            final(self)@.streams == (Chain {
                turn: if res is Ok {
                    old(self)@.streams.turn
                } else {
                    old(self)@.streams.turn.dropped()
                },
                ..old(self)@.streams
            }),
    {
        match self.state.take() {
            State::Pending => {
                self.state = State::Msg(item);
                Ok(())
            },
            State::Msg(_) => Err(PushError::AlreadySending),
            State::Stream(peer, key) => {
                self.state = State::Readying(item, peer, key);
                Ok(())
            },
            State::Readying(_, _, key) => {
                self.streams.forsake(key);
                Err(PushError::AlreadySending)
            },
            State::Sending(_, _, key) => {
                self.streams.forsake(key);
                Err(PushError::AlreadySending)
            },
        }
    }

    /// Goes on with the message in hand.
    pub fn poll_flush(&mut self, cx: &mut Context<'_>) -> (step: Step<Result<(), PushError<S>>>)
        requires
            old(self).wf(),
        ensures
            final(self).wf(),
            old(self)@.flushed(step, final(self)@),
            step matches Step::Ready(Ok(())) ==> final(self)@.state is Pending
                || final(self)@.state is Stream,
    {
        let first = self.poll_stream(cx);
        match first {
            StatePoll::Continue => {
                let second = self.poll_state(cx);
                second.step()
            },
            _ => {
                first.step()
            },
        }
    }

    /// Goes on with the message in hand, then closes all streams, those that wait
    /// and the one in hand, and reports each.
    pub fn poll_close(&mut self, cx: &mut Context<'_>) -> (step: Step<Result<(), PushError<S>>>)
        requires
            old(self).wf(),
        ensures
            final(self).wf(),
            old(self)@.close_polled(step, final(self)@),
    {
        let flush = self.poll_flush(cx);
        let ghost mid = self@;
        match flush {
            Step::Ready(Ok(())) => {},
            _ => {
                return flush;
            },
        }
        match self.state.take() {
            State::Stream(peer, key) => {
                self.closing.push(peer);
                self.streams.forsake(key);
            },
            _ => {},
        }
        let peers = self.streams.drain();
        self.closing.extend(peers);
        let ghost shut = self@;
        assert(shut == mid.shut());
        let answer = self.closing.poll_next(cx);
        let ghost asked = choose|asked: Seq<Peer<S>>| #[trigger]
            closed_round(shut.closing, asked, answer, self@.closing);
        assert(closed_round(shut.closing, asked, answer, self@.closing));
        let step = match answer {
            Poll::Ready(Some(Ok(()))) => {
                self.streams.done(None);
                Step::Again
            },
            Poll::Ready(Some(Err(error))) => {
                self.streams.done(Some(error));
                Step::Again
            },
            Poll::Ready(None) => Step::Ready(Ok(())),
            Poll::Pending => Step::Pending,
        };
        step
    }
}

/// How far a [`PushRun`] has come.
#[verifier::reject_recursive_types(S)]
pub enum Phase<S: PatternStream> {
    /// It waits for a message.
    Idle,
    /// This message is to be handed over.
    Feeding(S::Msg, Owed<S::Msg>),
    /// The message that this promise belongs to was handed over.
    Flushing(Owed<S::Msg>),
    /// No more messages will be taken.
    Closing,
    /// All is done.
    Finished,
}

/// Takes messages off a channel and pushes them, until the channel ends or there
/// are no streams.
#[verifier::reject_recursive_types(S)]
pub struct PushRun<S: PatternStream> {
    push: Push<S>,
    msg_r: Jobs<S::Msg>,
    phase: Phase<S>,
}

/// What a [`PushRun`] stands for.
#[verifier::ext_equal]
#[verifier::reject_recursive_types(S)]
pub struct PushRunView<S: PatternStream> {
    /// The streams and what is in hand.
    pub push: PushView<S>,
    /// Where messages come from.
    pub msgs: Inbox<(S::Msg, QPromise)>,
    /// How far it has come.
    pub phase: Phase<S>,
    /// The promises that were kept, the oldest first.
    pub kept: Seq<(QPromise, ())>,
}

impl<S: PatternStream> View for PushRun<S> {
    type V = PushRunView<S>;

    closed spec fn view(&self) -> PushRunView<S> {
        PushRunView {
            push: self.push@,
            msgs: self.msg_r.inbox(),
            phase: self.phase,
            kept: self.msg_r.kept(),
        }
    }
}

impl<S: PatternStream> PushRunView<S> {
    /// `step` and `after` are what may come of asking for a message, with the
    /// streams at `push`.
    pub open spec fn received(self, push: PushView<S>, step: Step<()>, after: Self) -> bool {
        exists|received: Poll<Option<(S::Msg, Owed<S::Msg>)>>| #[trigger]
            self.msgs.asked(Receipt::Polled(plain(received)), after.msgs) && after == (PushRunView {
                push,
                msgs: after.msgs,
                phase: match received {
                    Poll::Ready(Some((msg, owed))) => Phase::Feeding(msg, owed),
                    Poll::Ready(None) => Phase::Closing,
                    Poll::Pending => Phase::Idle,
                },
                ..self
            }) && step == if received is Ready {
                Step::<()>::Again
            } else {
                Step::Pending
            }
    }

    /// `step` and `after` are what may come of a poll while it waits for a message, after this flush.
    pub open spec fn idled(
        self,
        flush: Step<Result<(), PushError<S>>>,
        push: PushView<S>,
        step: Step<()>,
        after: Self,
    ) -> bool {
        match flush {
            Step::Again => after == (PushRunView { push, ..self }) && step is Again,
            Step::Ready(Err(_)) => {
                &&& after == PushRunView { push, phase: Phase::Closing, ..self }
                &&& step is Again
            },
            Step::Ready(Ok(())) | Step::Pending => self.received(push, step, after),
        }
    }

    /// `step` and `after` are what comes of a poll while `msg` is to be handed over, after this flush.
    pub open spec fn fed(
        self,
        msg: S::Msg,
        owed: Owed<S::Msg>,
        flush: Step<Result<(), PushError<S>>>,
        push: PushView<S>,
        step: Step<()>,
        after: Self,
    ) -> bool {
        match flush {
            Step::Again => after == (PushRunView { push, ..self }) && step is Again,
            Step::Pending => after == (PushRunView { push, ..self }) && step is Pending,
            Step::Ready(Err(_)) => {
                &&& after == PushRunView { push, phase: Phase::Closing, ..self }
                &&& step is Again
            },
            Step::Ready(Ok(())) => {
                &&& after == PushRunView {
                    push: PushView { state: push.started(msg).0, ..push },
                    phase: Phase::Flushing(owed),
                    ..self
                }
                &&& step is Again
            },
        }
    }

    /// `step` and `after` are what comes of a poll while a message is flushed, after this flush.
    pub open spec fn flushed(
        self,
        owed: Owed<S::Msg>,
        flush: Step<Result<(), PushError<S>>>,
        push: PushView<S>,
        step: Step<()>,
        after: Self,
    ) -> bool {
        match flush {
            Step::Again => after == (PushRunView { push, ..self }) && step is Again,
            Step::Pending => after == (PushRunView { push, ..self }) && step is Pending,
            Step::Ready(Err(_)) => {
                &&& after == PushRunView { push, phase: Phase::Closing, ..self }
                &&& step is Again
            },
            Step::Ready(Ok(())) => {
                &&& after == PushRunView {
                    push,
                    phase: Phase::Idle,
                    kept: self.kept.push((owed.promise(), ())),
                    ..self
                }
                &&& step is Again
            },
        }
    }

    /// `step` and `after` are what comes of a poll while it closes, after this went on.
    pub open spec fn closed(
        self,
        close: Step<Result<(), PushError<S>>>,
        push: PushView<S>,
        step: Step<()>,
        after: Self,
    ) -> bool {
        match close {
            Step::Again => after == (PushRunView { push, ..self }) && step is Again,
            Step::Pending => after == (PushRunView { push, ..self }) && step is Pending,
            Step::Ready(_) => {
                &&& after == PushRunView { push, phase: Phase::Finished, ..self }
                &&& step is Ready
            },
        }
    }

    /// `step` and `after` are what may come of one poll.
    pub open spec fn polled(self, step: Step<()>, after: Self) -> bool {
        match self.phase {
            Phase::Idle => exists|flush: Step<Result<(), PushError<S>>>, push: PushView<S>| #[trigger]
                self.push.flushed(flush, push) && self.idled(flush, push, step, after),
            Phase::Feeding(msg, owed) => exists|
                flush: Step<Result<(), PushError<S>>>,
                push: PushView<S>,
            | #[trigger]
                self.push.flushed(flush, push) && self.fed(msg, owed, flush, push, step, after),
            Phase::Flushing(owed) => exists|
                flush: Step<Result<(), PushError<S>>>,
                push: PushView<S>,
            | #[trigger]
                self.push.flushed(flush, push) && self.flushed(owed, flush, push, step, after),
            Phase::Closing => exists|close: Step<Result<(), PushError<S>>>, push: PushView<S>| #[trigger]
                self.push.close_polled(close, push) && self.closed(close, push, step, after),
            Phase::Finished => after == self && step is Ready,
        }
    }
}

impl<S: PatternStream> PushRun<S> {
    /// The streams are in order, and the promise that is owed came with a message from here.
    pub closed spec fn wf(&self) -> bool {
        &&& self.push.wf()
        &&& match self.phase {
            Phase::Feeding(_, owed) => owed.origin() == self.msg_r.inbox().origin(),
            Phase::Flushing(owed) => owed.origin() == self.msg_r.inbox().origin(),
            _ => true,
        }
    }

    /// Goes on as far as one answer of the streams or of the channel leads.
    pub fn poll(&mut self, cx: &mut Context<'_>) -> (step: Step<()>)
        requires
            old(self).wf(),
        ensures
            final(self).wf(),
            old(self)@.polled(step, final(self)@),
    {
        let mut phase = Phase::Idle;
        core::mem::swap(&mut self.phase, &mut phase);
        match phase {
            Phase::Idle => {
                let flush = self.push.poll_flush(cx);
                match flush {
                    Step::Again => Step::Again,
                    Step::Ready(Err(_)) => {
                        self.phase = Phase::Closing;
                        Step::Again
                    },
                    Step::Ready(Ok(())) | Step::Pending => {
                        let received = self.msg_r.poll(cx);
                        match received {
                            Poll::Ready(Some((msg, owed))) => {
                                self.phase = Phase::Feeding(msg, owed);
                                Step::Again
                            },
                            Poll::Ready(None) => {
                                self.phase = Phase::Closing;
                                Step::Again
                            },
                            Poll::Pending => Step::Pending,
                        }
                    },
                }
            },
            Phase::Feeding(msg, owed) => {
                let flush = self.push.poll_ready(cx);
                match flush {
                    Step::Again => {
                        self.phase = Phase::Feeding(msg, owed);
                        Step::Again
                    },
                    Step::Pending => {
                        self.phase = Phase::Feeding(msg, owed);
                        Step::Pending
                    },
                    Step::Ready(Err(_)) => {
                        self.phase = Phase::Closing;
                        Step::Again
                    },
                    Step::Ready(Ok(())) => {
                        let _ = self.push.start_send(msg);
                        self.phase = Phase::Flushing(owed);
                        Step::Again
                    },
                }
            },
            Phase::Flushing(owed) => {
                let flush = self.push.poll_flush(cx);
                match flush {
                    Step::Again => {
                        self.phase = Phase::Flushing(owed);
                        Step::Again
                    },
                    Step::Pending => {
                        self.phase = Phase::Flushing(owed);
                        Step::Pending
                    },
                    Step::Ready(Err(_)) => {
                        self.phase = Phase::Closing;
                        Step::Again
                    },
                    Step::Ready(Ok(())) => {
                        self.msg_r.keep(owed, ());
                        Step::Again
                    },
                }
            },
            Phase::Closing => {
                let close = self.push.poll_close(cx);
                match close {
                    Step::Again => {
                        self.phase = Phase::Closing;
                        Step::Again
                    },
                    Step::Pending => {
                        self.phase = Phase::Closing;
                        Step::Pending
                    },
                    Step::Ready(_) => {
                        self.phase = Phase::Finished;
                        Step::Ready(())
                    },
                }
            },
            Phase::Finished => {
                self.phase = Phase::Finished;
                Step::Ready(())
            },
        }
    }
}

/// Pushes each message of `msg_r` to one of the streams that come out of `ready_r`,
/// in turn, and keeps its promise once it is sent. Streams that are gone are
/// reported to `done_s`.
pub fn push<S: PatternStream>(
    ready_r: Receiver<S>,
    done_s: Sender<Done<S>>,
    msg_r: Receiver<(S::Msg, QPromise)>,
) -> (run: PushRun<S>)
    ensures
        run.wf(),
        run@.push.streams.members == Seq::<Peer<S>>::empty(),
        run@.push.streams.turn is Free,
        run@.push.streams.ready.origin() == ready_r,
        run@.push.streams.ready.receipts() == Seq::<Receipt<S>>::empty(),
        run@.push.streams.done.sender() == done_s,
        run@.push.streams.done.handed() == Seq::<Done<S>>::empty(),
        run@.push.state is Pending,
        run@.push.closing == Seq::<Peer<S>>::empty(),
        run@.msgs.origin() == msg_r,
        run@.msgs.receipts() == Seq::<Receipt<(S::Msg, QPromise)>>::empty(),
        run@.phase is Idle,
        run@.kept == Seq::<(QPromise, ())>::empty(),
{
    PushRun {
        push: Push::new(ready_r, done_s),
        msg_r: Jobs::new(msg_r),
        phase: Phase::Idle,
    }
}

impl<S: PatternStream> Machine for PushRun<S> {
    type Model = PushRunView<S>;

    open spec fn model(&self) -> PushRunView<S> {
        self@
    }

    open spec fn in_order(&self) -> bool {
        self.wf()
    }

    open spec fn steps(before: PushRunView<S>, step: Step<()>, after: PushRunView<S>) -> bool {
        before.polled(step, after)
    }

    fn poll_once(&mut self, cx: &mut Context<'_>) -> (step: Step<()>) {
        self.poll(cx)
    }
}

} // verus!
