//! Sending each request to one of many streams, in turn, and waiting for the reply.
use crate::channel::{Inbox, Receipt};
use crate::owned_close::{closed_round, CloseSet, OwnedClose};
use crate::promise::{plain, Jobs, Owed, QPromise};
use crate::push_stream::{Chain, Key, PushStreams, Round, Turn};
use crate::stream::{Call, Done, PatternStream, Peer};
use crate::task::{Machine, Step};
use async_channel::{Receiver, Sender};
use core::task::{Context, Poll};
use vstd::prelude::*;

verus! {

/// What a [`Req`] has in hand.
#[verifier::reject_recursive_types(S)]
pub enum State<S: PatternStream> {
    /// Nothing.
    Pending,
    /// A request that waits for a stream.
    Msg(S::Msg, Owed<S::Msg, S::Msg>),
    /// A stream that waits for a request.
    Stream(Peer<S>, Key),
    /// A request for this stream, which was not taken yet.
    Readying(S::Msg, Owed<S::Msg, S::Msg>, Peer<S>, Key),
    /// A request that this stream has taken and may not have sent yet.
    Sending(S::Msg, Owed<S::Msg, S::Msg>, Peer<S>, Key),
    /// A request that this stream has sent and not replied to yet.
    Receiving(S::Msg, Owed<S::Msg, S::Msg>, Peer<S>, Key),
}

/// What comes of a look at the streams or at the requests.
pub enum PrePoll {
    /// Nothing can be done now.
    Pending,
    /// Nothing can be done ever.
    Break,
    /// There is something to do.
    Continue,
}

/// What comes of looking at the state once.
pub enum StatePoll {
    /// Nothing can be done now.
    Pending,
    /// Nothing can be done ever: there is no stream for the request in hand, and
    /// there will be none.
    End,
    /// There is more to do in the state that was reached.
    Continue,
    /// The request is through.
    Break,
    /// The streams have more to do before anything can be said.
    Again,
}

impl<S: PatternStream> State<S> {
    /// Whether it has the turn.
    pub open spec fn has_key(self) -> bool {
        self is Stream || self.is_busy()
    }

    /// Whether a request has got a stream.
    pub open spec fn is_busy(self) -> bool {
        self is Readying || self is Sending || self is Receiving
    }

    /// The promise that is owed.
    pub open spec fn owed(self) -> Option<Owed<S::Msg, S::Msg>> {
        match self {
            State::Pending | State::Stream(_, _) => None,
            State::Msg(_, owed) => Some(owed),
            State::Readying(_, owed, _, _) => Some(owed),
            State::Sending(_, owed, _, _) => Some(owed),
            State::Receiving(_, owed, _, _) => Some(owed),
        }
    }

    /// Takes what is in hand.
    pub fn take(&mut self) -> (state: Self)
        ensures
            state == *old(self),
            *final(self) is Pending,
    {
        let mut state = State::Pending;
        core::mem::swap(self, &mut state);
        state
    }

    /// What comes of a look at the streams, in this state.
    pub open spec fn on_streams_spec(self, polled: Poll<Option<(Peer<S>, Key)>>) -> (
        State<S>,
        PrePoll,
    ) {
        match (self, polled) {
            (State::Pending, Poll::Ready(Some((peer, key)))) => (
                State::Stream(peer, key),
                PrePoll::Continue,
            ),
            (State::Msg(msg, owed), Poll::Ready(Some((peer, key)))) => (
                State::Readying(msg, owed, peer, key),
                PrePoll::Continue,
            ),
            (State::Pending | State::Msg(_, _), Poll::Ready(None)) => (
                State::Pending,
                PrePoll::Break,
            ),
            (State::Pending | State::Msg(_, _), Poll::Pending) => (self, PrePoll::Pending),
            (State::Stream(_, _), _) => (self, PrePoll::Pending),
            (_, _) => (self, PrePoll::Continue),
        }
    }

    /// Takes note of a look at the streams. No stream is handed out to one who has
    /// the turn already.
    pub fn on_streams(self, polled: Poll<Option<(Peer<S>, Key)>>) -> (next: (State<S>, PrePoll))
        requires
            !(self.has_key() && polled matches Poll::Ready(Some(_))),
        ensures
            next == self.on_streams_spec(polled),
    {
        match (self, polled) {
            (State::Pending, Poll::Ready(Some((peer, key)))) => (
                State::Stream(peer, key),
                PrePoll::Continue,
            ),
            (State::Pending, Poll::Ready(None)) => (State::Pending, PrePoll::Break),
            (State::Pending, Poll::Pending) => (State::Pending, PrePoll::Pending),
            (State::Msg(msg, owed), Poll::Ready(Some((peer, key)))) => (
                State::Readying(msg, owed, peer, key),
                PrePoll::Continue,
            ),
            (State::Msg(_, _), Poll::Ready(None)) => (State::Pending, PrePoll::Break),
            (State::Msg(msg, owed), Poll::Pending) => (
                State::Msg(msg, owed),
                PrePoll::Pending,
            ),
            (State::Stream(peer, key), _) => (State::Stream(peer, key), PrePoll::Pending),
            (State::Readying(msg, owed, peer, key), _) => (
                State::Readying(msg, owed, peer, key),
                PrePoll::Continue,
            ),
            (State::Sending(msg, owed, peer, key), _) => (
                State::Sending(msg, owed, peer, key),
                PrePoll::Continue,
            ),
            (State::Receiving(msg, owed, peer, key), _) => (
                State::Receiving(msg, owed, peer, key),
                PrePoll::Continue,
            ),
        }
    }

    /// What comes of a look at the requests, in this state. Only one who has none in
    /// hand takes one. A stream that waits when the requests end is dropped.
    pub open spec fn on_msg_spec(self, received: Poll<Option<(S::Msg, Owed<S::Msg, S::Msg>)>>) -> (
        State<S>,
        PrePoll,
    ) {
        match (self, received) {
            (State::Pending, Poll::Ready(Some((msg, owed)))) => (
                State::Msg(msg, owed),
                PrePoll::Continue,
            ),
            (State::Stream(peer, key), Poll::Ready(Some((msg, owed)))) => (
                State::Readying(msg, owed, peer, key),
                PrePoll::Continue,
            ),
            (State::Pending | State::Stream(_, _), Poll::Ready(None)) => (
                State::Pending,
                PrePoll::Break,
            ),
            (State::Pending | State::Stream(_, _), Poll::Pending) => (self, PrePoll::Pending),
            (_, _) => (self, PrePoll::Continue),
        }
    }

    /// Takes note of a look at the requests. The turn comes back with the next state
    /// if the stream that had it is dropped.
    pub fn on_msg(self, received: Poll<Option<(S::Msg, Owed<S::Msg, S::Msg>)>>) -> (next: (
        State<S>,
        PrePoll,
        Option<Key>,
    ))
        ensures
            (next.0, next.1) == self.on_msg_spec(received),
            next.2 is Some <==> self.has_key() && !next.0.has_key(),
    {
        match (self, received) {
            (State::Pending, Poll::Ready(Some((msg, owed)))) => (
                State::Msg(msg, owed),
                PrePoll::Continue,
                None,
            ),
            (State::Pending, Poll::Ready(None)) => (State::Pending, PrePoll::Break, None),
            (State::Pending, Poll::Pending) => (State::Pending, PrePoll::Pending, None),
            (State::Stream(peer, key), Poll::Ready(Some((msg, owed)))) => (
                State::Readying(msg, owed, peer, key),
                PrePoll::Continue,
                None,
            ),
            (State::Stream(_, key), Poll::Ready(None)) => (
                State::Pending,
                PrePoll::Break,
                Some(key),
            ),
            (State::Stream(peer, key), Poll::Pending) => (
                State::Stream(peer, key),
                PrePoll::Pending,
                None,
            ),
            (state, _) => (state, PrePoll::Continue, None),
        }
    }
}

/// Sends each request to one of many streams, in turn, and waits for the reply.
#[verifier::reject_recursive_types(S)]
pub struct Req<S: PatternStream> {
    streams: PushStreams<S>,
    request_r: Jobs<S::Msg, S::Msg>,
    state: State<S>,
}

/// What a [`Req`] stands for.
#[verifier::ext_equal]
#[verifier::reject_recursive_types(S)]
pub struct ReqView<S: PatternStream> {
    /// The streams that wait for a request.
    pub streams: Chain<S>,
    /// Where requests come from.
    pub requests: Inbox<(S::Msg, QPromise<S::Msg>)>,
    /// What is in hand.
    pub state: State<S>,
    /// The promises that were kept, each with the reply, the oldest first.
    pub kept: Seq<(QPromise<S::Msg>, S::Msg)>,
}

impl<S: PatternStream> View for Req<S> {
    type V = ReqView<S>;

    closed spec fn view(&self) -> ReqView<S> {
        ReqView {
            streams: self.streams@,
            requests: self.request_r.inbox(),
            state: self.state,
            kept: self.request_r.kept(),
        }
    }
}

impl<S: PatternStream> ReqView<S> {
    /// `res` and `after` are what may come of a look at the streams. There is no
    /// `res` while the streams have more to do.
    pub open spec fn stream_polled(self, res: Option<PrePoll>, after: Self) -> bool {
        exists|round: Round<S>, step: Step<Option<(Peer<S>, Key)>>| #[trigger]
            self.streams.polled(round, step, after.streams) && after == (ReqView {
                streams: after.streams,
                state: after.state,
                ..self
            }) && match step {
                Step::Ready(ready) => {
                    let next = self.state.on_streams_spec(Poll::Ready(ready));
                    after.state == next.0 && res == Some(next.1)
                },
                Step::Pending => {
                    let next = self.state.on_streams_spec(Poll::Pending);
                    after.state == next.0 && res == Some(next.1)
                },
                Step::Again => after.state == self.state && res is None,
            }
    }

    /// `res` and `after` are what may come of a look at the requests.
    pub open spec fn msg_polled(self, res: PrePoll, after: Self) -> bool {
        if self.state is Pending || self.state is Stream {
            exists|received: Poll<Option<(S::Msg, Owed<S::Msg, S::Msg>)>>| #[trigger]
                self.requests.asked(Receipt::Polled(plain(received)), after.requests) && (
                after.state,
                res,
            ) == self.state.on_msg_spec(received) && after.kept == self.kept && after.streams
                == Chain {
                    turn: if after.state.has_key() {
                        self.streams.turn
                    } else {
                        self.streams.turn.dropped()
                    },
                    ..self.streams
                }
        } else {
            after == self && res is Continue
        }
    }

    /// `res` and `after` are what may come of it when the stream that had the request
    /// is gone: that is reported, the turn goes back, and another stream is looked
    /// for. If there is none and never will be, the request is dropped.
    pub open spec fn failed(
        self,
        msg: S::Msg,
        owed: Owed<S::Msg, S::Msg>,
        done: Done<S>,
        res: StatePoll,
        after: Self,
    ) -> bool {
        exists|mid: Chain<S>, pre: Option<PrePoll>| #[trigger]
            self.streams.gave_back(seq![done], mid) && #[trigger] (ReqView {
                streams: mid,
                state: State::Msg(msg, owed),
                ..self
            }).stream_polled(pre, after) && res == match pre {
                Some(PrePoll::Continue) => StatePoll::Continue,
                Some(PrePoll::Break) => StatePoll::End,
                Some(PrePoll::Pending) => StatePoll::Pending,
                None => StatePoll::Again,
            }
    }

    /// `res` and `after` are what may come of handing the request over to `peer`,
    /// which is ready for it.
    pub open spec fn handed_over(
        self,
        msg: S::Msg,
        owed: Owed<S::Msg, S::Msg>,
        peer: Peer<S>,
        key: Key,
        res: StatePoll,
        after: Self,
    ) -> bool {
        exists|handed: S::Msg, sent: Result<(), S::Err>, asked: Peer<S>| #[trigger]
            peer.called(Call::Send(handed, sent), asked) && cloned(msg, handed) && match sent {
                Ok(()) => {
                    &&& after == ReqView { state: State::Sending(msg, owed, asked, key), ..self }
                    &&& res is Continue
                },
                Err(error) => self.failed(msg, owed, Some(error), res, after),
            }
    }

    /// `res` and `after` are what may come of looking at the state once, while a
    /// request has a stream.
    pub open spec fn state_polled(self, res: StatePoll, after: Self) -> bool {
        match self.state {
            State::Readying(msg, owed, peer, key) => exists|
                ready: Poll<Result<(), S::Err>>,
                asked: Peer<S>,
            | #[trigger]
                peer.called(Call::Ready(ready), asked) && match ready {
                    Poll::Pending => {
                        &&& after == ReqView {
                            state: State::Readying(msg, owed, asked, key),
                            ..self
                        }
                        &&& res is Pending
                    },
                    Poll::Ready(Err(error)) => self.failed(msg, owed, Some(error), res, after),
                    Poll::Ready(Ok(())) => self.handed_over(msg, owed, asked, key, res, after),
                },
            State::Sending(msg, owed, peer, key) => exists|
                flushed: Poll<Result<(), S::Err>>,
                asked: Peer<S>,
            | #[trigger]
                peer.called(Call::Flush(flushed), asked) && match flushed {
                    Poll::Pending => {
                        &&& after == ReqView {
                            state: State::Sending(msg, owed, asked, key),
                            ..self
                        }
                        &&& res is Pending
                    },
                    Poll::Ready(Err(error)) => self.failed(msg, owed, Some(error), res, after),
                    Poll::Ready(Ok(())) => {
                        &&& after == ReqView {
                            state: State::Receiving(msg, owed, asked, key),
                            ..self
                        }
                        &&& res is Continue
                    },
                },
            State::Receiving(msg, owed, peer, key) => exists|
                next: Poll<Option<Result<S::Msg, S::Err>>>,
                asked: Peer<S>,
            | #[trigger]
                peer.called(Call::Next(next), asked) && match next {
                    Poll::Pending => {
                        &&& after == ReqView {
                            state: State::Receiving(msg, owed, asked, key),
                            ..self
                        }
                        &&& res is Pending
                    },
                    Poll::Ready(Some(Err(error))) => self.failed(
                        msg,
                        owed,
                        Some(error),
                        res,
                        after,
                    ),
                    Poll::Ready(None) => self.failed(msg, owed, None, res, after),
                    Poll::Ready(Some(Ok(reply))) => {
                        &&& after.state is Pending
                        &&& after.requests == self.requests
                        &&& after.kept == self.kept.push((owed.promise(), reply))
                        &&& (Chain {
                            members: self.streams.members.push(asked),
                            ..self.streams
                        }).gave_back(Seq::empty(), after.streams)
                        &&& res is Break
                    },
                },
            _ => false,
        }
    }

    /// `step` and `after` are what may come of one poll: a look at the streams, one
    /// at the requests, then one at the state if that is called for.
    pub open spec fn polled(self, step: Step<()>, after: Self) -> bool {
        exists|first: Option<PrePoll>, seen: Self| #[trigger]
            self.stream_polled(first, seen) && match first {
                None => after == seen && step is Again,
                Some(first) => exists|second: PrePoll, mid: Self| #[trigger]
                    seen.msg_polled(second, mid) && if first is Break || second is Break {
                        after == mid && step is Ready
                    } else if first is Pending || second is Pending {
                        after == mid && step is Pending
                    } else {
                        exists|third: StatePoll| #[trigger]
                            mid.state_polled(third, after) && step == match third {
                                StatePoll::Pending => Step::<()>::Pending,
                                StatePoll::End => Step::Ready(()),
                                StatePoll::Continue | StatePoll::Break | StatePoll::Again =>
                                    Step::Again,
                            }
                    },
            }
    }
}

impl<S: PatternStream> Req<S> {
    /// Whoever has a stream in hand has the turn, and nobody else has it. The promise that is owed came
    /// with a request from here.
    pub closed spec fn wf(&self) -> bool {
        &&& self.streams.wf()
        &&& self.state.has_key() <==> self.streams@.turn is Held
        &&& self.state.owed() matches Some(owed) ==> owed.origin()
            == self.request_r.inbox().origin()
    }

    /// Looks at the requests.
    fn poll_msg(&mut self, cx: &mut Context<'_>) -> (res: PrePoll)
        requires
            old(self).wf(),
        ensures
            final(self).wf(),
            old(self)@.msg_polled(res, final(self)@),
    {
        match self.state {
            State::Pending | State::Stream(_, _) => {},
            _ => {
                return PrePoll::Continue;
            },
        }
        let received = self.request_r.poll(cx);
        let ghost seen = received;
        let (state, res, key) = self.state.take().on_msg(received);
        self.state = state;
        match key {
            Some(key) => {
                self.streams.forsake(key);
            },
            None => {},
        }
        assert(old(self)@.requests.asked(Receipt::Polled(plain(seen)), self@.requests));
        assert(self@.streams == Chain {
            turn: if self@.state.has_key() {
                old(self)@.streams.turn
            } else {
                old(self)@.streams.turn.dropped()
            },
            ..old(self)@.streams
        });
        res
    }

    /// Looks at the streams. There is no result while they have more to do.
    fn poll_stream(&mut self, cx: &mut Context<'_>) -> (res: Option<PrePoll>)
        requires
            old(self).wf(),
        ensures
            final(self).wf(),
            old(self)@.stream_polled(res, final(self)@),
    {
        let step = self.streams.poll_next(cx);
        let polled = match step {
            Step::Ready(ready) => Poll::Ready(ready),
            Step::Pending => Poll::Pending,
            Step::Again => {
                return None;
            },
        };
        let (state, res) = self.state.take().on_streams(polled);
        self.state = state;
        Some(res)
    }

    /// Lets go of a stream that is gone while it had a request, and looks for
    /// another.
    fn fail(
        &mut self,
        msg: S::Msg,
        owed: Owed<S::Msg, S::Msg>,
        done: Done<S>,
        key: Key,
        cx: &mut Context<'_>,
    ) -> (res: StatePoll)
        requires
            old(self).streams.wf(),
            old(self)@.streams.turn is Held,
            old(self)@.state is Pending,
            owed.origin() == old(self).request_r.inbox().origin(),
        ensures
            final(self).wf(),
            old(self)@.failed(msg, owed, done, res, final(self)@),
    {
        self.streams.done(done);
        self.streams.unlock(key);
        assert(old(self)@.streams.gave_back(seq![done], self@.streams));
        self.state = State::Msg(msg, owed);
        match self.poll_stream(cx) {
            Some(PrePoll::Continue) => StatePoll::Continue,
            Some(PrePoll::Break) => StatePoll::End,
            Some(PrePoll::Pending) => StatePoll::Pending,
            None => StatePoll::Again,
        }
    }

    /// Looks at the state once, and does what it asks for.
    fn poll_state(&mut self, cx: &mut Context<'_>) -> (res: StatePoll)
        requires
            old(self).wf(),
            old(self)@.state.is_busy(),
        ensures
            final(self).wf(),
            old(self)@.state_polled(res, final(self)@),
    {
        match self.state.take() {
            State::Readying(msg, owed, peer, key) => {
                let mut peer = peer;
                match peer.poll_ready(cx) {
                    Poll::Ready(Ok(())) => {
                        match peer.start_send(msg.clone()) {
                            Ok(()) => {
                                self.state = State::Sending(msg, owed, peer, key);
                                StatePoll::Continue
                            },
                            Err(error) => self.fail(msg, owed, Some(error), key, cx),
                        }
                    },
                    Poll::Ready(Err(error)) => self.fail(msg, owed, Some(error), key, cx),
                    Poll::Pending => {
                        self.state = State::Readying(msg, owed, peer, key);
                        StatePoll::Pending
                    },
                }
            },
            State::Sending(msg, owed, peer, key) => {
                let mut peer = peer;
                match peer.poll_flush(cx) {
                    Poll::Ready(Ok(())) => {
                        self.state = State::Receiving(msg, owed, peer, key);
                        StatePoll::Continue
                    },
                    Poll::Ready(Err(error)) => self.fail(msg, owed, Some(error), key, cx),
                    Poll::Pending => {
                        self.state = State::Sending(msg, owed, peer, key);
                        StatePoll::Pending
                    },
                }
            },
            State::Receiving(msg, owed, peer, key) => {
                let mut peer = peer;
                match peer.poll_next(cx) {
                    Poll::Ready(Some(Ok(reply))) => {
                        self.request_r.keep(owed, reply);
                        self.streams.add(peer);
                        self.streams.unlock(key);
                        StatePoll::Break
                    },
                    Poll::Ready(Some(Err(error))) => self.fail(
                        msg,
                        owed,
                        Some(error),
                        key,
                        cx,
                    ),
                    Poll::Ready(None) => self.fail(msg, owed, None, key, cx),
                    Poll::Pending => {
                        self.state = State::Receiving(msg, owed, peer, key);
                        StatePoll::Pending
                    },
                }
            },
            _ => StatePoll::Pending,
        }
    }

    /// Goes on as far as one look at the streams, one at the requests and one at the
    /// state lead. It is through when there are no more requests, or no streams.
    pub fn poll_next(&mut self, cx: &mut Context<'_>) -> (step: Step<()>)
        requires
            old(self).wf(),
        ensures
            final(self).wf(),
            old(self)@.polled(step, final(self)@),
    {
        let first = match self.poll_stream(cx) {
            Some(first) => first,
            None => {
                return Step::Again;
            },
        };
        let second = self.poll_msg(cx);
        match (first, second) {
            (PrePoll::Break, _) | (_, PrePoll::Break) => {
                return Step::Ready(());
            },
            (PrePoll::Pending, _) | (_, PrePoll::Pending) => {
                return Step::Pending;
            },
            _ => {},
        }
        let third = self.poll_state(cx);
        match third {
            StatePoll::Pending => Step::Pending,
            StatePoll::End => Step::Ready(()),
            _ => Step::Again,
        }
    }

    /// Drops the request in hand, and gives back the stream in hand.
    fn release(&mut self) -> (held: Option<Peer<S>>)
        requires
            old(self).wf(),
        ensures
            final(self).wf(),
            held == old(self)@.state.held(),
            final(self)@ == old(self)@.released(),
    {
        match self.state.take() {
            State::Pending => None,
            State::Msg(_, _) => None,
            State::Stream(peer, key) => {
                self.streams.forsake(key);
                Some(peer)
            },
            State::Readying(_, _, peer, key) => {
                self.streams.forsake(key);
                Some(peer)
            },
            State::Sending(_, _, peer, key) => {
                self.streams.forsake(key);
                Some(peer)
            },
            State::Receiving(_, _, peer, key) => {
                self.streams.forsake(key);
                Some(peer)
            },
        }
    }
}

impl<S: PatternStream> State<S> {
    /// The stream in hand.
    pub open spec fn held(self) -> Option<Peer<S>> {
        match self {
            State::Pending | State::Msg(_, _) => None,
            State::Stream(peer, _) => Some(peer),
            State::Readying(_, _, peer, _) => Some(peer),
            State::Sending(_, _, peer, _) => Some(peer),
            State::Receiving(_, _, peer, _) => Some(peer),
        }
    }
}

impl<S: PatternStream> ReqView<S> {
    /// Nothing is in hand any more, nor is the turn.
    pub open spec fn released(self) -> Self {
        ReqView {
            state: State::Pending,
            streams: Chain {
                turn: if self.state.has_key() {
                    self.streams.turn.dropped()
                } else {
                    self.streams.turn
                },
                ..self.streams
            },
            ..self
        }
    }

    /// No stream is in line any more.
    pub open spec fn drained(self) -> Self {
        ReqView {
            streams: Chain {
                members: Seq::empty(),
                turn: if self.streams.members.len() > 0 {
                    Turn::Lost
                } else {
                    self.streams.turn
                },
                ..self.streams
            },
            ..self
        }
    }
}

/// How far a [`ReqRun`] has come.
#[verifier::reject_recursive_types(S)]
pub enum Phase<S: PatternStream> {
    /// It sends requests.
    Running,
    /// It closes the stream that was in hand at the end.
    Releasing(OwnedClose<S>),
    /// It closes the streams that were in line at the end.
    Closing,
    /// All is done.
    Finished,
}

/// Takes requests off a channel and sends them, until the channel ends or there are
/// no streams.
#[verifier::reject_recursive_types(S)]
pub struct ReqRun<S: PatternStream> {
    req: Req<S>,
    phase: Phase<S>,
    closing: CloseSet<S>,
}

/// What a [`ReqRun`] stands for.
#[verifier::ext_equal]
#[verifier::reject_recursive_types(S)]
pub struct ReqRunView<S: PatternStream> {
    /// The streams, the requests and what is in hand.
    pub req: ReqView<S>,
    /// How far it has come.
    pub phase: Phase<S>,
    /// The streams that are being closed.
    pub closing: Seq<Peer<S>>,
}

impl<S: PatternStream> View for ReqRun<S> {
    type V = ReqRunView<S>;

    closed spec fn view(&self) -> ReqRunView<S> {
        ReqRunView { req: self.req@, phase: self.phase, closing: self.closing@ }
    }
}

impl<S: PatternStream> ReqRunView<S> {
    /// All streams in line are put with what is being closed.
    pub open spec fn shut(self) -> Self {
        ReqRunView {
            req: self.req.drained(),
            phase: Phase::Closing,
            closing: self.closing + self.req.streams.members,
        }
    }

    /// `step` and `after` are what may come of one poll.
    pub open spec fn polled(self, step: Step<()>, after: Self) -> bool {
        match self.phase {
            Phase::Running => exists|ran: Step<()>, req: ReqView<S>| #[trigger]
                self.req.polled(ran, req) && match ran {
                    Step::Ready(()) => match req.state.held() {
                        Some(peer) => {
                            &&& after.req == req.released()
                            &&& after.phase matches Phase::Releasing(closing) && closing.peer()
                                == peer
                            &&& after.closing == self.closing
                            &&& step is Again
                        },
                        None => {
                            &&& after == (ReqRunView { req: req.released(), ..self }).shut()
                            &&& step is Again
                        },
                    },
                    _ => after == (ReqRunView { req, ..self }) && step == ran,
                },
            Phase::Releasing(held) => exists|closed: Poll<Result<(), S::Err>>, asked: Peer<S>| #[trigger]
                held.peer().called(Call::Close(closed), asked) && match closed {
                    Poll::Ready(_) => after == self.shut() && step is Again,
                    Poll::Pending => {
                        &&& after.req == self.req
                        &&& after.phase matches Phase::Releasing(closing) && closing.peer() == asked
                        &&& after.closing == self.closing
                        &&& step is Pending
                    },
                },
            Phase::Closing => exists|
                asked: Seq<Peer<S>>,
                answer: Poll<Option<Result<(), S::Err>>>,
            | #[trigger]
                closed_round(self.closing, asked, answer, after.closing) && after.req == (ReqView {
                    streams: Chain { done: after.req.streams.done, ..self.req.streams },
                    ..self.req
                }) && match answer {
                    Poll::Ready(Some(closed)) => {
                        &&& self.req.streams.done.handing(
                            seq![closed.err()],
                            after.req.streams.done,
                        )
                        &&& after.phase is Closing
                        &&& step is Again
                    },
                    Poll::Ready(None) => {
                        &&& after.req == self.req
                        &&& after.phase is Finished
                        &&& step is Ready
                    },
                    Poll::Pending => {
                        &&& after.req == self.req
                        &&& after.phase is Closing
                        &&& step is Pending
                    },
                },
            Phase::Finished => after == self && step is Ready,
        }
    }
}

impl<S: PatternStream> ReqRun<S> {
    /// The streams are in order, and nothing is in hand once it closes.
    pub closed spec fn wf(&self) -> bool {
        &&& self.req.wf()
        &&& self.phase is Running || self.req@.state is Pending
    }

    /// Turns to closing the streams in line.
    fn shut(&mut self)
        requires
            old(self).wf(),
            old(self)@.req.state is Pending,
        ensures
            final(self).wf(),
            final(self)@ == old(self)@.shut(),
    {
        let peers = self.req.streams.drain();
        self.closing.extend(peers);
        self.phase = Phase::Closing;
    }

    /// Goes on as far as one answer of the streams or of the channel leads.
    pub fn poll(&mut self, cx: &mut Context<'_>) -> (step: Step<()>)
        requires
            old(self).wf(),
        ensures
            final(self).wf(),
            old(self)@.polled(step, final(self)@),
    {
        let mut phase = Phase::Running;
        core::mem::swap(&mut self.phase, &mut phase);
        match phase {
            Phase::Running => {
                let ran = self.req.poll_next(cx);
                match ran {
                    Step::Ready(()) => {
                        match self.req.release() {
                            Some(peer) => {
                                self.phase = Phase::Releasing(OwnedClose::new(peer));
                            },
                            None => {
                                self.shut();
                            },
                        }
                        Step::Again
                    },
                    ran => ran,
                }
            },
            Phase::Releasing(held) => {
                let mut held = held;
                let closed = held.poll(cx);
                match closed {
                    Poll::Ready(_) => {
                        self.shut();
                        Step::Again
                    },
                    Poll::Pending => {
                        self.phase = Phase::Releasing(held);
                        Step::Pending
                    },
                }
            },
            Phase::Closing => {
                self.phase = Phase::Closing;
                let answer = self.closing.poll_next(cx);
                let ghost asked = choose|asked: Seq<Peer<S>>| #[trigger]
                    closed_round(old(self)@.closing, asked, answer, self@.closing);
                let ghost answered = answer;
                let step = match answer {
                    Poll::Ready(Some(Ok(()))) => {
                        self.req.streams.done(None);
                        Step::Again
                    },
                    Poll::Ready(Some(Err(error))) => {
                        self.req.streams.done(Some(error));
                        Step::Again
                    },
                    Poll::Ready(None) => {
                        self.phase = Phase::Finished;
                        Step::Ready(())
                    },
                    Poll::Pending => Step::Pending,
                };
                assert(closed_round(old(self)@.closing, asked, answered, self@.closing));
                step
            },
            Phase::Finished => {
                self.phase = Phase::Finished;
                Step::Ready(())
            },
        }
    }
}

/// Sends each request of `request_r` to one of the streams that come out of
/// `ready_r`, in turn, and keeps its promise with the reply. Streams that are gone
/// are reported to `done_s`.
pub fn req<S: PatternStream>(
    ready_r: Receiver<S>,
    done_s: Sender<Done<S>>,
    request_r: Receiver<(S::Msg, QPromise<S::Msg>)>,
) -> (run: ReqRun<S>)
    ensures
        run.wf(),
        run@.req.streams.members == Seq::<Peer<S>>::empty(),
        run@.req.streams.turn is Free,
        run@.req.streams.ready.origin() == ready_r,
        run@.req.streams.ready.receipts() == Seq::<Receipt<S>>::empty(),
        run@.req.streams.done.sender() == done_s,
        run@.req.streams.done.handed() == Seq::<Done<S>>::empty(),
        run@.req.requests.origin() == request_r,
        run@.req.requests.receipts() == Seq::<Receipt<(S::Msg, QPromise<S::Msg>)>>::empty(),
        run@.req.state is Pending,
        run@.req.kept == Seq::<(QPromise<S::Msg>, S::Msg)>::empty(),
        run@.phase is Running,
        run@.closing == Seq::<Peer<S>>::empty(),
{
    ReqRun {
        req: Req {
            streams: PushStreams::new(ready_r, done_s),
            request_r: Jobs::new(request_r),
            state: State::Pending,
        },
        phase: Phase::Running,
        closing: CloseSet::new(),
    }
}

impl<S: PatternStream> Machine for ReqRun<S> {
    type Model = ReqRunView<S>;

    open spec fn model(&self) -> ReqRunView<S> {
        self@
    }

    open spec fn in_order(&self) -> bool {
        self.wf()
    }

    open spec fn steps(before: ReqRunView<S>, step: Step<()>, after: ReqRunView<S>) -> bool {
        before.polled(step, after)
    }

    fn poll_once(&mut self, cx: &mut Context<'_>) -> (step: Step<()>) {
        self.poll(cx)
    }
}

} // verus!
