//! Many streams merged into one by `ruchei`.
//!
//! The streams are polled by `ruchei`, through the traits of `futures_util`. What it
//! gives back rests on how they answer. [`Merge`] keeps a record, for proofs, of what was
//! asked of it.
use crate::channel::{Inbox, Receipt};
use crate::stream::{Call, PatternStream, Peer, ResultStream};
use crate::task::unpinned;
use async_channel::Receiver;
use core::pin::Pin;
use core::task::{Context, Poll};
use futures_util::{Sink, SinkExt, Stream, StreamExt};
use ruchei::connection_item::ConnectionItem;
use ruchei::extend::Extending;
use ruchei::liveness::close_all::{CloseAll, CloseAllExt, CloseOne};
use ruchei::multicast::bufferless::{Multicast, MulticastBufferless};
use vstd::prelude::*;

verus! {

/// `CloseOne` of `ruchei`: a stream that is closed when no more streams can join.
#[verifier::external_type_specification]
#[verifier::external_body]
#[verifier::reject_recursive_types(S)]
#[verifier::reject_recursive_types(Out)]
pub struct ExCloseOne<S, Out>(ruchei::liveness::close_all::CloseOne<S, Out>);

/// `CloseAll` of `ruchei`: gives out streams as `CloseOne`.
#[verifier::external_type_specification]
#[verifier::external_body]
#[verifier::reject_recursive_types(R)]
#[verifier::reject_recursive_types(Out)]
pub struct ExCloseAll<R, Out>(ruchei::liveness::close_all::CloseAll<R, Out>);

/// `Multicast` of `ruchei`: the streams that are merged.
#[verifier::external_type_specification]
#[verifier::external_body]
#[verifier::reject_recursive_types(S)]
#[verifier::reject_recursive_types(E)]
pub struct ExMulticast<S, E>(ruchei::multicast::bufferless::Multicast<S, E>);

/// `Extending` of `ruchei`: takes in the streams that join.
#[verifier::external_type_specification]
#[verifier::external_body]
#[verifier::reject_recursive_types(S)]
#[verifier::reject_recursive_types(R)]
pub struct ExExtending<S, R>(ruchei::extend::Extending<S, R>);

/// A stream, as the traits of `futures_util` see it.
pub struct Duplex<S: PatternStream>(Peer<S>);

impl<S: PatternStream> Duplex<S> {
    /// The stream, with the record of the calls made on it.
    pub closed spec fn peer(&self) -> Peer<S> {
        self.0
    }
}

impl<S: PatternStream> Unpin for Duplex<S> {

}

impl<S: PatternStream> Stream for Duplex<S> {
    type Item = Result<S::Msg, S::Err>;

    fn poll_next(self: Pin<&mut Self>, cx: &mut Context<'_>) -> (answer: Poll<Option<Self::Item>>)
        ensures
            exists|inner: &mut Duplex<S>| #[trigger]
                unpinned(self, inner) && inner.peer().called(Call::Next(answer), final(inner).peer()),
    {
        let ghost pinned = self;
        let inner = self.get_mut();
        assert(unpinned(pinned, inner));
        inner.0.poll_next(cx)
    }
}

impl<S: PatternStream> Sink<S::Msg> for Duplex<S> {
    type Error = S::Err;

    fn poll_ready(self: Pin<&mut Self>, cx: &mut Context<'_>) -> (answer: Poll<Result<(), Self::Error>>)
        ensures
            exists|inner: &mut Duplex<S>| #[trigger]
                unpinned(self, inner) && inner.peer().called(Call::Ready(answer), final(inner).peer()),
    {
        let ghost pinned = self;
        let inner = self.get_mut();
        assert(unpinned(pinned, inner));
        inner.0.poll_ready(cx)
    }

    fn start_send(self: Pin<&mut Self>, item: S::Msg) -> (answer: Result<(), Self::Error>)
        ensures
            exists|inner: &mut Duplex<S>| #[trigger]
                unpinned(self, inner) && inner.peer().called(Call::Send(item, answer), final(inner).peer()),
    {
        let ghost pinned = self;
        let inner = self.get_mut();
        assert(unpinned(pinned, inner));
        inner.0.start_send(item)
    }

    fn poll_flush(self: Pin<&mut Self>, cx: &mut Context<'_>) -> (answer: Poll<Result<(), Self::Error>>)
        ensures
            exists|inner: &mut Duplex<S>| #[trigger]
                unpinned(self, inner) && inner.peer().called(Call::Flush(answer), final(inner).peer()),
    {
        let ghost pinned = self;
        let inner = self.get_mut();
        assert(unpinned(pinned, inner));
        inner.0.poll_flush(cx)
    }

    fn poll_close(self: Pin<&mut Self>, cx: &mut Context<'_>) -> (answer: Poll<Result<(), Self::Error>>)
        ensures
            exists|inner: &mut Duplex<S>| #[trigger]
                unpinned(self, inner) && inner.peer().called(Call::Close(answer), final(inner).peer()),
    {
        let ghost pinned = self;
        let inner = self.get_mut();
        assert(unpinned(pinned, inner));
        inner.0.poll_close(cx)
    }
}

/// The streams that join, as the traits of `futures_util` see them.
#[verifier::reject_recursive_types(S)]
pub struct Arrivals<S: PatternStream>(Inbox<S>);

impl<S: PatternStream> Arrivals<S> {
    /// Where the streams come from, with the record of what was asked of it.
    pub closed spec fn inbox(&self) -> Inbox<S> {
        self.0
    }

    /// `next` and `after` are what may come of asking for the next stream: the channel is polled
    /// once.
    pub open spec fn polled(self, next: Poll<Option<Duplex<S>>>, after: Self) -> bool {
        exists|received: Poll<Option<S>>| #[trigger]
            self.inbox().asked(Receipt::Polled(received), after.inbox()) && joins(received, next)
    }
}

/// `next` is what came through the channel, the stream in it ready to be merged.
pub open spec fn joins<S: PatternStream>(
    received: Poll<Option<S>>,
    next: Poll<Option<Duplex<S>>>,
) -> bool {
    match received {
        Poll::Ready(Some(stream)) => {
            &&& next matches Poll::Ready(Some(duplex))
            &&& duplex.peer().origin() == stream
            &&& duplex.peer().calls() == Seq::<Call<S::Msg, S::Err>>::empty()
        },
        Poll::Ready(None) => next == Poll::<Option<Duplex<S>>>::Ready(None),
        Poll::Pending => next is Pending,
    }
}

impl<S: PatternStream> Unpin for Arrivals<S> {

}

impl<S: PatternStream> Stream for Arrivals<S> {
    type Item = Duplex<S>;

    fn poll_next(self: Pin<&mut Self>, cx: &mut Context<'_>) -> (next: Poll<Option<Self::Item>>)
        ensures
            exists|inner: &mut Arrivals<S>| #[trigger]
                unpinned(self, inner) && inner.polled(next, *final(inner)),
    {
        let ghost pinned = self;
        let inner = self.get_mut();
        assert(unpinned(pinned, inner));
        let ghost before = *inner;
        let received = inner.0.poll(cx);
        assert(before.inbox().asked(Receipt::Polled(received), inner.inbox()));
        match received {
            Poll::Ready(Some(stream)) => Poll::Ready(Some(Duplex(Peer::new(stream)))),
            Poll::Ready(None) => Poll::Ready(None),
            Poll::Pending => Poll::Pending,
        }
    }
}

/// The streams that join, each to be closed when no more can join.
pub type ClosingArrivals<S> = CloseAll<Arrivals<S>, <S as ResultStream>::Msg>;

/// The merged stream.
pub type Merged<S> = Extending<
    Multicast<CloseOne<Duplex<S>, <S as ResultStream>::Msg>, <S as ResultStream>::Err>,
    ClosingArrivals<S>,
>;

/// What can come out of a merged stream.
pub enum Arrival<M, E> {
    /// A message, of one of the streams.
    Item(M),
    /// One of the streams is gone: it ended, or failed like this.
    Closed(Option<E>),
}

/// `CloseAllExt::close_all` has the streams closed once no more can join. Nothing
/// happens before the result is polled.
#[verifier::external_body]
fn close_all<S: PatternStream>(arrivals: Arrivals<S>) -> (closing: ClosingArrivals<S>) {
    arrivals.close_all()
}

/// `MulticastBufferless::multicast_bufferless` merges the streams. Nothing happens
/// before the result is polled.
#[verifier::external_body]
fn multicast<S: PatternStream>(closing: ClosingArrivals<S>) -> (merged: Merged<S>) {
    closing.multicast_bufferless()
}

/// `Extending::poll_next` takes in the streams that want to join, then gives the next
/// message of any of them, or one that is gone. What comes rests on the streams.
#[verifier::external_body]
fn poll_merged<S: PatternStream>(merged: &mut Merged<S>, cx: &mut Context<'_>) -> (answer: Poll<
    Option<Arrival<S::Msg, S::Err>>,
>) {
    merged.poll_next_unpin(cx).map(
        |next|
            next.map(
                |item|
                    match item {
                        ConnectionItem::Item(msg) => Arrival::Item(msg),
                        ConnectionItem::Closed(_, error) => Arrival::Closed(error),
                    },
            ),
    )
}

/// `Extending::poll_close` asks all streams to close. It cannot fail: its error type
/// has no values. Whether it is through rests on the streams.
#[verifier::external_body]
fn poll_close_merged<S: PatternStream>(merged: &mut Merged<S>, cx: &mut Context<'_>) -> (answer:
    Poll<()>) {
    SinkExt::<S::Msg>::poll_close_unpin(merged, cx).map(|closed| closed.unwrap_or(()))
}

/// `merged` is what may come of merging the streams of these arrivals with `ruchei`.
pub closed spec fn merging<S: PatternStream>(arrivals: Arrivals<S>, merged: Merged<S>) -> bool {
    exists|closing: ClosingArrivals<S>| #[trigger]
        call_ensures(close_all::<S>, (arrivals,), closing) && call_ensures(
            multicast::<S>,
            (closing,),
            merged,
        )
}

/// `answer` is what may come of this call of `Extending::poll_next`.
pub closed spec fn merged_next<S: PatternStream>(
    merged: &mut Merged<S>,
    task: &mut Context<'_>,
    answer: Poll<Option<Arrival<S::Msg, S::Err>>>,
) -> bool {
    call_ensures(poll_merged::<S>, (merged, task), answer)
}

/// `answer` is what may come of this call of `Extending::poll_close`.
pub closed spec fn merged_close<S: PatternStream>(
    merged: &mut Merged<S>,
    task: &mut Context<'_>,
    answer: Poll<()>,
) -> bool {
    call_ensures(poll_close_merged::<S>, (merged, task), answer)
}

/// One call that was made on a merged stream, with its answer.
pub enum MergeCall<M, E> {
    /// The next thing was asked for.
    Next(Poll<Option<Arrival<M, E>>>),
    /// All streams were asked to close.
    Close(Poll<()>),
}

/// A merged stream, with the record of what was asked of it.
#[verifier::reject_recursive_types(S)]
pub struct Merge<S: PatternStream> {
    merged: Merged<S>,
    origin: Ghost<Receiver<S>>,
    calls: Ghost<Seq<MergeCall<S::Msg, S::Err>>>,
}

impl<S: PatternStream> Merge<S> {
    /// Where the streams come from.
    pub closed spec fn origin(&self) -> Receiver<S> {
        self.origin@
    }

    /// What was asked so far, the oldest first.
    pub closed spec fn calls(&self) -> Seq<MergeCall<S::Msg, S::Err>> {
        self.calls@
    }

    /// The merged stream as it is now.
    pub closed spec fn now(&self) -> Merged<S> {
        self.merged
    }

    /// `after` is the same merged stream with this one call more.
    pub open spec fn called(self, call: MergeCall<S::Msg, S::Err>, after: Self) -> bool {
        after.origin() == self.origin() && after.calls() == self.calls().push(call)
    }

    /// Merges all streams that come out of `ready_r`.
    pub fn new(ready_r: Receiver<S>) -> (merge: Self)
        ensures
            merge.origin() == ready_r,
            merge.calls() == Seq::<MergeCall<S::Msg, S::Err>>::empty(),
            exists|arrivals: Arrivals<S>| #[trigger]
                merging(arrivals, merge.now()) && arrivals.inbox().origin() == ready_r
                    && arrivals.inbox().receipts() == Seq::<Receipt<S>>::empty(),
    {
        let ghost origin = ready_r;
        let arrivals = Arrivals(Inbox::new(ready_r));
        let ghost joining = arrivals;
        let closing = close_all(arrivals);
        assert(call_ensures(close_all::<S>, (joining,), closing));
        let ghost closes = closing;
        let merged = multicast(closing);
        assert(call_ensures(multicast::<S>, (closes,), merged));
        let merge = Merge { merged, origin: Ghost(origin), calls: Ghost(Seq::empty()) };
        assert(merging(joining, merge.now()));
        merge
    }

    /// Asks for the next message, or the next stream that is gone.
    pub fn poll_next(&mut self, cx: &mut Context<'_>) -> (answer: Poll<
        Option<Arrival<S::Msg, S::Err>>,
    >)
        ensures
            old(self).called(MergeCall::Next(answer), *final(self)),
            exists|merged: &mut Merged<S>, task: &mut Context<'_>| #[trigger]
                merged_next::<S>(merged, task, answer) && *merged == old(self).now() && *final(merged)
                    == final(self).now(),
    {
        let answer = poll_merged(&mut self.merged, cx);
        proof {
            let (merged, task) = choose|merged: &mut Merged<S>, task: &mut Context<'_>| #[trigger]
                call_ensures(poll_merged::<S>, (merged, task), answer) && *merged == old(self).now()
                    && *final(merged) == self.now();
            assert(merged_next::<S>(merged, task, answer));
        }
        self.calls = Ghost(self.calls@.push(MergeCall::Next(answer)));
        answer
    }

    /// Asks all streams to close.
    pub fn poll_close(&mut self, cx: &mut Context<'_>) -> (answer: Poll<()>)
        ensures
            old(self).called(MergeCall::Close(answer), *final(self)),
            exists|merged: &mut Merged<S>, task: &mut Context<'_>| #[trigger]
                merged_close::<S>(merged, task, answer) && *merged == old(self).now() && *final(merged)
                    == final(self).now(),
    {
        let answer = poll_close_merged(&mut self.merged, cx);
        proof {
            let (merged, task) = choose|merged: &mut Merged<S>, task: &mut Context<'_>| #[trigger]
                call_ensures(poll_close_merged::<S>, (merged, task), answer) && *merged == old(self).now()
                    && *final(merged) == self.now();
            assert(merged_close::<S>(merged, task, answer));
        }
        self.calls = Ghost(self.calls@.push(MergeCall::Close(answer)));
        answer
    }
}

} // verus!
