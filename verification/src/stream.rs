//! The streams that the patterns are run over.
use core::task::{Context, Poll};
use vstd::prelude::*;

verus! {

/// The two types that a stream deals in: what it carries both ways, and how it
/// fails.
pub trait ResultStream {
    /// What is sent and received.
    type Msg: Clone;

    /// How the stream fails, whichever way it was used.
    type Err;
}

/// A duplex stream: a source of messages and a sink of messages in one value.
///
/// Nothing is assumed of the answers.
pub trait PatternStream: ResultStream + Sized {
    /// Asks for the next message.
    fn poll_next(&mut self, cx: &mut Context<'_>) -> Poll<Option<Result<Self::Msg, Self::Err>>>;

    /// Asks whether a message can be taken for sending.
    fn poll_ready(&mut self, cx: &mut Context<'_>) -> Poll<Result<(), Self::Err>>;

    /// Hands a message over for sending.
    fn start_send(&mut self, msg: Self::Msg) -> Result<(), Self::Err>;

    /// Asks whether all that was handed over has been sent.
    fn poll_flush(&mut self, cx: &mut Context<'_>) -> Poll<Result<(), Self::Err>>;

    /// Asks the stream to close.
    fn poll_close(&mut self, cx: &mut Context<'_>) -> Poll<Result<(), Self::Err>>;
}

/// What is reported of a stream that is gone: `None` if it ended, else how it
/// failed.
pub type Done<S> = Option<<S as ResultStream>::Err>;

/// What is reported of a stream that gave `answer` when it was asked for a message:
/// nothing unless it is gone.
pub open spec fn ending<M, E>(answer: Poll<Option<Result<M, E>>>) -> Seq<Option<E>> {
    match answer {
        Poll::Ready(Some(Err(e))) => seq![Some(e)],
        Poll::Ready(None) => seq![None],
        _ => Seq::empty(),
    }
}

/// One call that was made on a stream, with the stream's answer.
pub enum Call<M, E> {
    /// `poll_next` was called.
    Next(Poll<Option<Result<M, E>>>),
    /// `poll_ready` was called.
    Ready(Poll<Result<(), E>>),
    /// `start_send` was called with this message.
    Send(M, Result<(), E>),
    /// `poll_flush` was called.
    Flush(Poll<Result<(), E>>),
    /// `poll_close` was called.
    Close(Poll<Result<(), E>>),
}

/// A stream that a machine has taken charge of, with the record of the calls that
/// it has made on it since. The record exists in proofs alone.
pub struct Peer<S: PatternStream> {
    stream: S,
    origin: Ghost<S>,
    calls: Ghost<Seq<Call<S::Msg, S::Err>>>,
}

impl<S: PatternStream> Peer<S> {
    /// The stream as it was when it was taken charge of. This says which stream
    /// it is, whatever was done with it since.
    pub closed spec fn origin(&self) -> S {
        self.origin@
    }

    /// The calls made on the stream since then, the oldest first.
    pub closed spec fn calls(&self) -> Seq<Call<S::Msg, S::Err>> {
        self.calls@
    }

    /// The stream as it is now.
    pub closed spec fn now(&self) -> S {
        self.stream
    }

    /// `after` is the same stream with this one call more.
    pub open spec fn called(self, call: Call<S::Msg, S::Err>, after: Self) -> bool {
        after.origin() == self.origin() && after.calls() == self.calls().push(call)
    }

    /// Takes charge of a stream.
    pub fn new(stream: S) -> (peer: Self)
        ensures
            peer.origin() == stream,
            peer.now() == stream,
            peer.calls() == Seq::<Call<S::Msg, S::Err>>::empty(),
    {
        let ghost origin = stream;
        Peer { stream, origin: Ghost(origin), calls: Ghost(Seq::empty()) }
    }

    /// Asks for the next message.
    pub fn poll_next(&mut self, cx: &mut Context<'_>) -> (answer: Poll<
        Option<Result<S::Msg, S::Err>>,
    >)
        ensures
            old(self).called(Call::Next(answer), *final(self)),
            exists|stream: &mut S, task: &mut Context<'_>| #[trigger]
                call_ensures(S::poll_next, (stream, task), answer) && *stream == old(self).now()
                    && *final(stream) == final(self).now(),
    {
        let answer = self.stream.poll_next(cx);
        self.calls = Ghost(self.calls@.push(Call::Next(answer)));
        answer
    }

    /// Asks whether a message can be taken for sending.
    pub fn poll_ready(&mut self, cx: &mut Context<'_>) -> (answer: Poll<Result<(), S::Err>>)
        ensures
            old(self).called(Call::Ready(answer), *final(self)),
            exists|stream: &mut S, task: &mut Context<'_>| #[trigger]
                call_ensures(S::poll_ready, (stream, task), answer) && *stream == old(self).now()
                    && *final(stream) == final(self).now(),
    {
        let answer = self.stream.poll_ready(cx);
        self.calls = Ghost(self.calls@.push(Call::Ready(answer)));
        answer
    }

    /// Hands a message over for sending.
    pub fn start_send(&mut self, msg: S::Msg) -> (answer: Result<(), S::Err>)
        ensures
            old(self).called(Call::Send(msg, answer), *final(self)),
            exists|stream: &mut S| #[trigger]
                call_ensures(S::start_send, (stream, msg), answer) && *stream == old(self).now()
                    && *final(stream) == final(self).now(),
    {
        let ghost handed = msg;
        let answer = self.stream.start_send(msg);
        self.calls = Ghost(self.calls@.push(Call::Send(handed, answer)));
        answer
    }

    /// Asks whether all that was handed over has been sent.
    pub fn poll_flush(&mut self, cx: &mut Context<'_>) -> (answer: Poll<Result<(), S::Err>>)
        ensures
            old(self).called(Call::Flush(answer), *final(self)),
            exists|stream: &mut S, task: &mut Context<'_>| #[trigger]
                call_ensures(S::poll_flush, (stream, task), answer) && *stream == old(self).now()
                    && *final(stream) == final(self).now(),
    {
        let answer = self.stream.poll_flush(cx);
        self.calls = Ghost(self.calls@.push(Call::Flush(answer)));
        answer
    }

    /// Asks the stream to close.
    pub fn poll_close(&mut self, cx: &mut Context<'_>) -> (answer: Poll<Result<(), S::Err>>)
        ensures
            old(self).called(Call::Close(answer), *final(self)),
            exists|stream: &mut S, task: &mut Context<'_>| #[trigger]
                call_ensures(S::poll_close, (stream, task), answer) && *stream == old(self).now()
                    && *final(stream) == final(self).now(),
    {
        let answer = self.stream.poll_close(cx);
        self.calls = Ghost(self.calls@.push(Call::Close(answer)));
        answer
    }
}

} // verus!
