//! One-way one-time communication.
//!
//! A [`QPromise`] and a [`QFuture`] are the two ends of a channel that carries one
//! value. The same channel, with the promise sent along with a message, makes a
//! [`Request`].
use crate::channel::{offered, receiving, Delivery, Inbox, Receipt, Refused};
use crate::task::unpinned;
use async_channel::{bounded, Receiver, Sender};
use core::future::Future;
use core::pin::Pin;
use core::task::{Context, Poll};
use vstd::prelude::*;

verus! {

/// The promise is gone, and no value came.
#[derive(Debug, PartialEq, Eq, Structural)]
pub struct Error;

impl Error {
    /// The error in words.
    pub fn message(&self) -> (text: &'static str)
        ensures
            text@ == "promise error"@,
    {
        "promise error"
    }
}

/// The sending end: it can be resolved once.
#[verifier::reject_recursive_types(T)]
pub struct QPromise<T = ()> {
    sender: Sender<T>,
}

/// The receiving end.
#[verifier::reject_recursive_types(T)]
pub struct QFuture<T> {
    inbox: Inbox<T>,
}

impl<T> QPromise<T> {
    /// The sender that the value goes to.
    pub closed spec fn sender(&self) -> Sender<T> {
        self.sender
    }

    /// Gives the value to the future, if there is still one that wants it: the channel is
    /// offered the value.
    pub fn resolve(self, value: T)
        ensures
            offered(self.sender(), value),
    {
        let ghost given = value;
        let attempt = self.sender.try_send(value);
        assert(call_ensures(Sender::<T>::try_send, (&self.sender, given), attempt));
    }

    /// Whether the future is gone, as far as the channel knows at this moment: what
    /// `Sender::is_closed` answers.
    pub fn is_closed(&self) -> (closed: bool)
        ensures
            call_ensures(Sender::<T>::is_closed, (&self.sender(),), closed),
    {
        self.sender.is_closed()
    }

    /// A promise that nobody waits for: the sending end of a fresh channel, whose other end is
    /// dropped.
    pub fn ignore() -> (promise: Self)
        ensures
            exists|ends: (Sender<T>, Receiver<T>)| #[trigger]
                call_ensures(bounded::<T>, (1usize,), ends) && promise.sender() == ends.0,
    {
        let ends = bounded(1);
        assert(call_ensures(bounded::<T>, (1usize,), ends));
        QPromise { sender: ends.0 }
    }

    /// Lifts a function on messages to messages that come with a promise.
    pub fn map<A, B, F: Fn(A) -> B>(f: F) -> (lifted: impl Fn((A, Self)) -> (B, Self))
        ensures
            forall|a: A, promise: Self|
                call_requires(f, (a,)) ==> call_requires(lifted, ((a, promise),)),
            forall|a: A, promise: Self, out: (B, Self)|
                call_ensures(lifted, ((a, promise),), out) ==> call_ensures(f, (a,), out.0)
                    && out.1 == promise,
    {
        move |item: (A, Self)| -> (out: (B, Self))
            requires
                call_requires(f, (item.0,)),
            ensures
                call_ensures(f, (item.0,), out.0),
                out.1 == item.1,
            {
                let (a, promise) = item;
                (f(a), promise)
            }
    }

    /// A promise that sends its value through `sender`.
    pub fn new(sender: Sender<T>) -> (promise: Self)
        ensures
            promise.sender() == sender,
    {
        QPromise { sender }
    }
}

impl QPromise {
    /// Resolves a promise that carries no value.
    pub fn done(self)
        ensures
            offered(self.sender(), ()),
    {
        self.resolve(())
    }
}

/// A promise that came with a message and is owed by whoever took the message.
///
/// It can be kept by [`Jobs::keep`], which is recorded, or dropped: nothing else can be done with it.
#[verifier::reject_recursive_types(M)]
#[verifier::reject_recursive_types(T)]
pub struct Owed<M, T = ()> {
    promise: QPromise<T>,
    origin: Ghost<Receiver<(M, QPromise<T>)>>,
}

impl<M, T> Owed<M, T> {
    /// The promise.
    pub closed spec fn promise(&self) -> QPromise<T> {
        self.promise
    }

    /// Where it came from.
    pub closed spec fn origin(&self) -> Receiver<(M, QPromise<T>)> {
        self.origin@
    }
}

/// What came through the channel, when this was taken from it.
pub open spec fn plain<M, T>(taken: Poll<Option<(M, Owed<M, T>)>>) -> Poll<Option<(M, QPromise<T>)>> {
    match taken {
        Poll::Ready(Some((msg, owed))) => Poll::Ready(Some((msg, owed.promise()))),
        Poll::Ready(None) => Poll::Ready(None),
        Poll::Pending => Poll::Pending,
    }
}

/// Messages that come with a promise, with the record of what came, and of the promises that were kept.
#[verifier::reject_recursive_types(M)]
#[verifier::reject_recursive_types(T)]
pub struct Jobs<M, T = ()> {
    inbox: Inbox<(M, QPromise<T>)>,
    kept: Ghost<Seq<(QPromise<T>, T)>>,
}

impl<M, T> Jobs<M, T> {
    /// Where the messages come from.
    pub closed spec fn inbox(&self) -> Inbox<(M, QPromise<T>)> {
        self.inbox
    }

    /// The promises that were kept, each with its value, the oldest first.
    pub closed spec fn kept(&self) -> Seq<(QPromise<T>, T)> {
        self.kept@
    }

    /// `after` is the same when `taken` was taken from it.
    pub open spec fn took(self, taken: Poll<Option<(M, Owed<M, T>)>>, after: Self) -> bool {
        &&& self.inbox().asked(Receipt::Polled(plain(taken)), after.inbox())
        &&& after.kept() == self.kept()
        &&& taken matches Poll::Ready(Some((_, owed))) ==> owed.origin() == self.inbox().origin()
    }

    /// Nothing has come yet, and no promise was kept.
    pub fn new(receiver: Receiver<(M, QPromise<T>)>) -> (jobs: Self)
        ensures
            jobs.inbox().origin() == receiver,
            jobs.inbox().now() == receiver,
            jobs.inbox().receipts() == Seq::<Receipt<(M, QPromise<T>)>>::empty(),
            jobs.kept() == Seq::<(QPromise<T>, T)>::empty(),
    {
        Jobs { inbox: Inbox::new(receiver), kept: Ghost(Seq::empty()) }
    }

    /// Takes the next message, and owes its promise.
    pub fn poll(&mut self, cx: &mut Context<'_>) -> (taken: Poll<Option<(M, Owed<M, T>)>>)
        ensures
            old(self).took(taken, *final(self)),
            exists|receiver: &mut Receiver<(M, QPromise<T>)>, task: &mut Context<'_>| #[trigger]
                receiving(receiver, task, plain(taken)) && *receiver == old(self).inbox().now()
                    && *final(receiver) == final(self).inbox().now(),
    {
        let ghost origin = self.inbox.origin();
        match self.inbox.poll(cx) {
            Poll::Ready(Some((msg, promise))) => Poll::Ready(
                Some((msg, Owed { promise, origin: Ghost(origin) })),
            ),
            Poll::Ready(None) => Poll::Ready(None),
            Poll::Pending => Poll::Pending,
        }
    }

    /// Keeps a promise that came from here: it is resolved with this value.
    pub fn keep(&mut self, owed: Owed<M, T>, value: T)
        requires
            owed.origin() == old(self).inbox().origin(),
        ensures
            final(self).kept() == old(self).kept().push((owed.promise(), value)),
            final(self).inbox() == old(self).inbox(),
            call_ensures(QPromise::<T>::resolve, (owed.promise(), value), ()),
            offered(owed.promise().sender(), value),
    {
        self.kept = Ghost(self.kept@.push((owed.promise, value)));
        owed.promise.resolve(value);
    }
}

/// What a future makes of what came through its channel.
pub open spec fn outcome_spec<T>(received: Poll<Option<T>>) -> Poll<Result<T, Error>> {
    match received {
        Poll::Ready(Some(value)) => Poll::Ready(Ok(value)),
        Poll::Ready(None) => Poll::Ready(Err(Error)),
        Poll::Pending => Poll::Pending,
    }
}

/// What a future makes of what came through its channel: the value, or an error
/// if the channel is closed.
pub fn outcome<T>(received: Poll<Option<T>>) -> (answer: Poll<Result<T, Error>>)
    ensures
        answer == outcome_spec(received),
{
    match received {
        Poll::Ready(Some(value)) => Poll::Ready(Ok(value)),
        Poll::Ready(None) => Poll::Ready(Err(Error)),
        Poll::Pending => Poll::Pending,
    }
}

impl<T> QFuture<T> {
    /// What was asked of the channel so far.
    pub closed spec fn inbox(&self) -> Inbox<T> {
        self.inbox
    }

    /// A future for what comes through `receiver`.
    pub fn new(receiver: Receiver<T>) -> (future: Self)
        ensures
            future.inbox().origin() == receiver,
            future.inbox().receipts() == Seq::<Receipt<T>>::empty(),
    {
        QFuture { inbox: Inbox::new(receiver) }
    }

    /// `after` is this future, polled once, when `received` came through the
    /// channel.
    pub open spec fn polled(self, received: Poll<Option<T>>, after: Self) -> bool {
        self.inbox().asked(Receipt::Polled(received), after.inbox())
    }

    /// `answer` and `after` are what may come of asking for the value: the channel is polled
    /// once, and the answer is what [`outcome`] makes of it.
    pub open spec fn answered(self, answer: Poll<Result<T, Error>>, after: Self) -> bool {
        exists|received: Poll<Option<T>>| #[trigger]
            self.polled(received, after) && answer == outcome_spec(received)
    }

    /// Asks for the value. The channel is polled once, and the answer is what
    /// [`outcome`] makes of it.
    pub fn poll(&mut self, cx: &mut Context<'_>) -> (answer: Poll<Result<T, Error>>)
        ensures
            old(self).answered(answer, *final(self)),
    {
        let received = self.inbox.poll(cx);
        assert(old(self).polled(received, *self));
        outcome(received)
    }
}

impl<T> QFuture<T> {
    /// The future for the value, which is this very future.
    pub fn wait(self) -> (future: Self)
        ensures
            future == self,
    {
        self
    }
}

impl<T> Unpin for QFuture<T> {

}

impl<T> Future for QFuture<T> {
    type Output = Result<T, Error>;

    fn poll(self: Pin<&mut Self>, cx: &mut Context<'_>) -> (answer: Poll<Self::Output>)
        ensures
            exists|inner: &mut QFuture<T>| #[trigger]
                unpinned(self, inner) && inner.answered(answer, *final(inner)),
    {
        let ghost pinned = self;
        let inner = self.get_mut();
        assert(unpinned(pinned, inner));
        QFuture::poll(inner, cx)
    }
}

/// A promise and a future are the two ends of one fresh channel, with room for one value.
pub open spec fn paired<T>(promise: QPromise<T>, future: QFuture<T>) -> bool {
    call_ensures(bounded::<T>, (1usize,), (promise.sender(), future.inbox().origin()))
}

/// The two ends of a fresh channel that carries one value.
pub fn qpromise<T>() -> (ends: (QPromise<T>, QFuture<T>))
    ensures
        paired(ends.0, ends.1),
        ends.1.inbox().receipts() == Seq::<Receipt<T>>::empty(),
{
    let ends = bounded(1);
    assert(call_ensures(bounded::<T>, (1usize,), ends));
    (QPromise::new(ends.0), QFuture::new(ends.1))
}

/// **What a promise is resolved with goes to its future.** The value is put in at one end of a channel
/// with room for one, and each answer of the future is what came out of the other end of that same
/// channel: the value that came, or an error if none can come any more.
pub proof fn promise_goes_to_its_future<T>(
    promise: QPromise<T>,
    value: T,
    future: QFuture<T>,
    answer: Poll<Result<T, Error>>,
    after: QFuture<T>,
)
    requires
        paired(promise, future),
        call_ensures(QPromise::<T>::resolve, (promise, value), ()),
        future.answered(answer, after),
    ensures
        paired(promise, after),
        exists|ends: (Sender<T>, Receiver<T>)| #[trigger]
            call_ensures(bounded::<T>, (1usize,), ends) && offered(ends.0, value)
                && after.inbox().origin() == ends.1,
        exists|received: Poll<Option<T>>| #[trigger]
            future.inbox().asked(Receipt::Polled(received), after.inbox()) && answer
                == outcome_spec(received),
{
    let ends = (promise.sender(), future.inbox().origin());
    assert(call_ensures(bounded::<T>, (1usize,), ends));
    let received = choose|received: Poll<Option<T>>| #[trigger]
        future.polled(received, after) && answer == outcome_spec(received);
    assert(future.inbox().asked(Receipt::Polled(received), after.inbox()));
}

/// A message that is asked through a channel, together with a promise, and the future
/// for the reply.
#[verifier::reject_recursive_types(T)]
#[verifier::reject_recursive_types(U)]
pub struct Request<'a, T, U> {
    delivery: Delivery<'a, (T, QPromise<U>)>,
    future: QFuture<U>,
}

impl<'a, T, U> Request<'a, T, U> {
    /// How the message and its promise are delivered.
    pub closed spec fn delivery(&self) -> Delivery<'a, (T, QPromise<U>)> {
        self.delivery
    }

    /// Where the message goes.
    pub open spec fn sender(&self) -> Sender<(T, QPromise<U>)> {
        self.delivery().sender()
    }

    /// The message and the promise that goes with it.
    pub open spec fn item(&self) -> (T, QPromise<U>) {
        self.delivery().item()
    }

    /// Where the reply is waited for.
    pub closed spec fn future(&self) -> QFuture<U> {
        self.future
    }

    /// Nothing was done yet.
    pub open spec fn is_fresh(&self) -> bool {
        &&& self.delivery().answers().len() == 0
        &&& !self.delivery().is_over()
        &&& self.future().inbox().receipts().len() == 0
    }

    /// Sets out to ask `msg` through `sender`.
    pub fn new(sender: &'a Sender<(T, QPromise<U>)>, msg: T) -> (request: Self)
        ensures
            request.sender() == *sender,
            request.item().0 == msg,
            paired(request.item().1, request.future()),
            request.is_fresh(),
    {
        let (promise, future) = qpromise();
        Request { delivery: Delivery::new(sender, (msg, promise)), future }
    }

    /// `after` and `answer` are what may come of waiting for the reply.
    pub open spec fn waited(self, answer: Poll<Result<U, Error>>, after: Self) -> bool {
        exists|received: Poll<Option<U>>| #[trigger]
            self.future().polled(received, after.future()) && answer == outcome_spec(received)
    }

    /// `after` and `answer` are what may come of polling this request once.
    ///
    /// While the delivery is not over, it is polled. If the channel is closed, the request
    /// fails. Once the message is delivered, the reply is waited for.
    pub open spec fn polled(self, answer: Poll<Result<U, Error>>, after: Self) -> bool {
        if self.delivery().is_over() {
            &&& after.delivery() == self.delivery()
            &&& self.waited(answer, after)
        } else {
            exists|sent: Poll<Result<(), Refused>>| #[trigger]
                self.delivery().asked(sent, after.delivery()) && match sent {
                    Poll::Pending => {
                        &&& after.future() == self.future()
                        &&& answer == Poll::<Result<U, Error>>::Pending
                    },
                    Poll::Ready(Err(_)) => {
                        &&& after.future() == self.future()
                        &&& answer == Poll::<Result<U, Error>>::Ready(Err(Error))
                    },
                    Poll::Ready(Ok(())) => self.waited(answer, after),
                }
        }
    }

    /// Goes on with the delivery, then waits for the reply.
    pub fn poll(&mut self, cx: &mut Context<'_>) -> (answer: Poll<Result<U, Error>>)
        ensures
            old(self).polled(answer, *final(self)),
    {
        let ghost mut seen = Poll::Pending;
        if !self.delivery.over() {
            let sent = self.delivery.poll(cx);
            proof {
                seen = sent;
            }
            assert(old(self).delivery().asked(sent, self.delivery()));
            match sent {
                Poll::Ready(Ok(())) => {},
                Poll::Ready(Err(_)) => {
                    return Poll::Ready(Err(Error));
                },
                Poll::Pending => {
                    return Poll::Pending;
                },
            }
        }
        let answer = self.future.poll(cx);
        assert(old(self).future() == old(self).future && self.future() == self.future);
        assert(!old(self).delivery().is_over() ==> old(self).delivery().asked(
            seen,
            self.delivery(),
        ));
        answer
    }
}

impl<'a, T, U> Unpin for Request<'a, T, U> {

}

impl<'a, T, U> Future for Request<'a, T, U> {
    type Output = Result<U, Error>;

    fn poll(self: Pin<&mut Self>, cx: &mut Context<'_>) -> (answer: Poll<Self::Output>)
        ensures
            exists|inner: &mut Request<'a, T, U>| #[trigger]
                unpinned(self, inner) && inner.polled(answer, *final(inner)),
    {
        let ghost pinned = self;
        let inner = self.get_mut();
        assert(unpinned(pinned, inner));
        Request::poll(inner, cx)
    }
}

/// **A reply comes through the promise that went out with the message.** However often a request is
/// polled, it carries the same message and promise, and waits at the other end of that promise's
/// channel.
pub proof fn reply_comes_through_its_promise<'a, T, U>(
    before: Request<'a, T, U>,
    answer: Poll<Result<U, Error>>,
    after: Request<'a, T, U>,
)
    requires
        paired(before.item().1, before.future()),
        before.polled(answer, after),
    ensures
        after.sender() == before.sender(),
        after.item() == before.item(),
        paired(after.item().1, after.future()),
        answer matches Poll::Ready(Ok(reply)) ==> before.future().inbox().asked(
            Receipt::Polled(Poll::Ready(Some(reply))),
            after.future().inbox(),
        ),
{
    if before.waited(answer, after) {
        let received = choose|received: Poll<Option<U>>| #[trigger]
            before.future().polled(received, after.future()) && answer == outcome_spec(received);
        assert(before.future().inbox().asked(Receipt::Polled(received), after.future().inbox()));
    }
}

/// A place that requests can be sent to.
pub trait RequestSender {
    /// What is asked.
    type T;

    /// What is replied.
    type U;

    /// Sets out to ask `msg`.
    fn request(&self, msg: Self::T) -> (request: Request<'_, Self::T, Self::U>)
        ensures
            request.item().0 == msg,
            paired(request.item().1, request.future()),
            request.is_fresh(),
    ;
}

impl<T, U> RequestSender for Sender<(T, QPromise<U>)> {
    type T = T;

    type U = U;

    fn request(&self, msg: T) -> (request: Request<'_, T, U>)
        ensures
            request.sender() == *self,
    {
        Request::new(self, msg)
    }
}

/// A place that requests are sent to, with the record of them.
#[verifier::reject_recursive_types(T)]
#[verifier::reject_recursive_types(U)]
pub struct Asker<'a, T, U> {
    sender: &'a Sender<(T, QPromise<U>)>,
    asked: Ghost<Seq<(T, QPromise<U>)>>,
}

impl<'a, T, U> Asker<'a, T, U> {
    /// Where the requests go.
    pub closed spec fn sender(&self) -> Sender<(T, QPromise<U>)> {
        *self.sender
    }

    /// What was asked so far, each message with the promise that went with it, the oldest first.
    pub closed spec fn asked(&self) -> Seq<(T, QPromise<U>)> {
        self.asked@
    }

    /// Holds a sender that nothing was asked through yet.
    pub fn new(sender: &'a Sender<(T, QPromise<U>)>) -> (asker: Self)
        ensures
            asker.sender() == *sender,
            asker.asked() == Seq::<(T, QPromise<U>)>::empty(),
    {
        Asker { sender, asked: Ghost(Seq::empty()) }
    }

    /// Sets out to ask `msg`.
    pub fn ask(&mut self, msg: T) -> (request: Request<'a, T, U>)
        ensures
            final(self).sender() == old(self).sender(),
            final(self).asked() == old(self).asked().push(request.item()),
            request.sender() == old(self).sender(),
            request.item().0 == msg,
            paired(request.item().1, request.future()),
            request.is_fresh(),
    {
        let request = Request::new(self.sender, msg);
        self.asked = Ghost(self.asked@.push(request.item()));
        request
    }
}

/// The sending end of a channel of messages that come with a promise.
pub type QSender<T, U> = Sender<(T, QPromise<U>)>;

} // verus!
