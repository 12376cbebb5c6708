//! Receiving the messages of many streams.
use crate::channel::Outbox;
use crate::merge::{Arrival, Merge, MergeCall};
use crate::promise::{paired, Asker, Error, QPromise, Request};
use crate::stream::{Done, PatternStream};
use crate::task::{Machine, Step};
use async_channel::{Receiver, Sender};
use core::task::{Context, Poll};
use vstd::prelude::*;

verus! {

/// What a [`SubRun`] is at.
#[verifier::reject_recursive_types(S)]
pub enum Phase<'a, S: PatternStream> {
    /// It waits for a message.
    Next,
    /// A message is handed on, and waits until it is done with.
    Requesting(Request<'a, S::Msg, ()>),
    /// The streams are closed.
    Closing,
    /// The streams that were closed are reported.
    Draining,
    /// All is done.
    Finished,
}

/// Takes messages off the streams and hands them on through a channel, one at a time,
/// until there are no streams or nobody wants them.
#[verifier::reject_recursive_types(S)]
pub struct SubRun<'a, S: PatternStream> {
    merge: Merge<S>,
    done_s: Outbox<Done<S>>,
    msg_s: Asker<'a, S::Msg, ()>,
    phase: Phase<'a, S>,
}

/// What a [`SubRun`] stands for.
#[verifier::ext_equal]
#[verifier::reject_recursive_types(S)]
pub struct SubRunView<'a, S: PatternStream> {
    /// The streams.
    pub merge: Merge<S>,
    /// Where streams that are gone are reported.
    pub done: Outbox<Done<S>>,
    /// Where messages are handed on.
    pub msg_s: Sender<(S::Msg, QPromise)>,
    /// What it is at.
    pub phase: Phase<'a, S>,
    /// What was handed on, each message with the promise that went with it, the oldest first.
    pub asked: Seq<(S::Msg, QPromise)>,
}

impl<'a, S: PatternStream> View for SubRun<'a, S> {
    type V = SubRunView<'a, S>;

    closed spec fn view(&self) -> SubRunView<'a, S> {
        SubRunView {
            merge: self.merge,
            done: self.done_s,
            msg_s: self.msg_s.sender(),
            phase: self.phase,
            asked: self.msg_s.asked(),
        }
    }
}

impl<'a, S: PatternStream> SubRunView<'a, S> {
    /// `step` and `after` are what comes of `answer`, when it was asked for a message.
    pub open spec fn received(
        self,
        answer: Poll<Option<Arrival<S::Msg, S::Err>>>,
        step: Step<()>,
        after: Self,
    ) -> bool {
        match answer {
            Poll::Ready(Some(Arrival::Item(msg))) => {
                &&& after == SubRunView {
                    merge: after.merge,
                    phase: after.phase,
                    asked: after.asked,
                    ..self
                }
                &&& after.phase matches Phase::Requesting(request) && {
                    &&& request.sender() == self.msg_s
                    &&& request.item().0 == msg
                    &&& paired(request.item().1, request.future())
                    &&& request.is_fresh()
                    &&& after.asked == self.asked.push(request.item())
                }
                &&& step is Again
            },
            Poll::Ready(Some(Arrival::Closed(done))) => {
                &&& after == SubRunView { merge: after.merge, done: after.done, ..self }
                &&& self.done.handing(seq![done], after.done)
                &&& step is Again
            },
            Poll::Ready(None) => {
                &&& after == SubRunView { merge: after.merge, phase: Phase::Closing, ..self }
                &&& step is Again
            },
            Poll::Pending => {
                &&& after == SubRunView { merge: after.merge, ..self }
                &&& step is Pending
            },
        }
    }

    /// `step` and `after` are what comes of `answer`, when it was asked for streams that
    /// were closed. There are no more once anything else comes.
    pub open spec fn drained(
        self,
        answer: Poll<Option<Arrival<S::Msg, S::Err>>>,
        step: Step<()>,
        after: Self,
    ) -> bool {
        match answer {
            Poll::Ready(Some(Arrival::Closed(done))) => {
                &&& after == SubRunView { merge: after.merge, done: after.done, ..self }
                &&& self.done.handing(seq![done], after.done)
                &&& step is Again
            },
            _ => {
                &&& after == SubRunView { merge: after.merge, phase: Phase::Finished, ..self }
                &&& step is Ready
            },
        }
    }

    /// `step` and `after` are what may come of one poll.
    pub open spec fn polled(self, step: Step<()>, after: Self) -> bool {
        match self.phase {
            Phase::Next => exists|answer: Poll<Option<Arrival<S::Msg, S::Err>>>| #[trigger]
                self.merge.called(MergeCall::Next(answer), after.merge) && self.received(
                    answer,
                    step,
                    after,
                ),
            Phase::Requesting(request) => exists|
                answer: Poll<Result<(), Error>>,
                asked: Request<'a, S::Msg, ()>,
            | #[trigger]
                request.polled(answer, asked) && match answer {
                    Poll::Pending => {
                        &&& after == SubRunView { phase: Phase::Requesting(asked), ..self }
                        &&& step is Pending
                    },
                    Poll::Ready(Ok(())) => {
                        &&& after == SubRunView { phase: Phase::Next, ..self }
                        &&& step is Again
                    },
                    Poll::Ready(Err(_)) => {
                        &&& after == SubRunView { phase: Phase::Closing, ..self }
                        &&& step is Again
                    },
                },
            Phase::Closing => exists|closed: Poll<()>| #[trigger]
                self.merge.called(MergeCall::Close(closed), after.merge) && match closed {
                    Poll::Ready(()) => {
                        &&& after == SubRunView {
                            merge: after.merge,
                            phase: Phase::Draining,
                            ..self
                        }
                        &&& step is Again
                    },
                    Poll::Pending => {
                        &&& after == SubRunView { merge: after.merge, ..self }
                        &&& step is Pending
                    },
                },
            Phase::Draining => exists|answer: Poll<Option<Arrival<S::Msg, S::Err>>>| #[trigger]
                self.merge.called(MergeCall::Next(answer), after.merge) && self.drained(
                    answer,
                    step,
                    after,
                ),
            Phase::Finished => after == self && step is Ready,
        }
    }
}

impl<'a, S: PatternStream> SubRun<'a, S> {
    /// Goes on as far as one answer of the streams or of the channel leads.
    pub fn poll(&mut self, cx: &mut Context<'_>) -> (step: Step<()>)
        ensures
            old(self)@.polled(step, final(self)@),
    {
        let mut phase = Phase::Next;
        core::mem::swap(&mut self.phase, &mut phase);
        match phase {
            Phase::Next => {
                let answer = self.merge.poll_next(cx);
                match answer {
                    Poll::Ready(Some(Arrival::Item(msg))) => {
                        self.phase = Phase::Requesting(self.msg_s.ask(msg));
                        Step::Again
                    },
                    Poll::Ready(Some(Arrival::Closed(done))) => {
                        self.done_s.hand(done);
                        Step::Again
                    },
                    Poll::Ready(None) => {
                        self.phase = Phase::Closing;
                        Step::Again
                    },
                    Poll::Pending => Step::Pending,
                }
            },
            Phase::Requesting(request) => {
                let mut request = request;
                let answer = request.poll(cx);
                match answer {
                    Poll::Pending => {
                        self.phase = Phase::Requesting(request);
                        Step::Pending
                    },
                    Poll::Ready(Ok(())) => Step::Again,
                    Poll::Ready(Err(_)) => {
                        self.phase = Phase::Closing;
                        Step::Again
                    },
                }
            },
            Phase::Closing => {
                let closed = self.merge.poll_close(cx);
                match closed {
                    Poll::Ready(()) => {
                        self.phase = Phase::Draining;
                        Step::Again
                    },
                    Poll::Pending => {
                        self.phase = Phase::Closing;
                        Step::Pending
                    },
                }
            },
            Phase::Draining => {
                let answer = self.merge.poll_next(cx);
                match answer {
                    Poll::Ready(Some(Arrival::Closed(done))) => {
                        self.phase = Phase::Draining;
                        self.done_s.hand(done);
                        Step::Again
                    },
                    _ => {
                        self.phase = Phase::Finished;
                        Step::Ready(())
                    },
                }
            },
            Phase::Finished => {
                self.phase = Phase::Finished;
                Step::Ready(())
            },
        }
    }
}

/// Hands each message that comes from a stream out of `ready_r` on through `msg_s`, and
/// waits until it is done with before it takes the next. Streams that are gone are
/// reported to `done_s`.
pub fn sub<'a, S: PatternStream>(
    ready_r: Receiver<S>,
    done_s: Sender<Done<S>>,
    msg_s: &'a Sender<(S::Msg, QPromise)>,
) -> (run: SubRun<'a, S>)
    ensures
        run@.merge.origin() == ready_r,
        run@.merge.calls() == Seq::<MergeCall<S::Msg, S::Err>>::empty(),
        run@.done.sender() == done_s,
        run@.done.handed() == Seq::<Done<S>>::empty(),
        run@.msg_s == *msg_s,
        run@.phase is Next,
        run@.asked == Seq::<(S::Msg, QPromise)>::empty(),
{
    SubRun {
        merge: Merge::new(ready_r),
        done_s: Outbox::new(done_s),
        msg_s: Asker::new(msg_s),
        phase: Phase::Next,
    }
}

impl<'a, S: PatternStream> Machine for SubRun<'a, S> {
    type Model = SubRunView<'a, S>;

    open spec fn model(&self) -> SubRunView<'a, S> {
        self@
    }

    open spec fn in_order(&self) -> bool {
        true
    }

    open spec fn steps(before: SubRunView<'a, S>, step: Step<()>, after: SubRunView<'a, S>) -> bool {
        before.polled(step, after)
    }

    fn poll_once(&mut self, cx: &mut Context<'_>) -> (step: Step<()>) {
        self.poll(cx)
    }
}

} // verus!
