//! The ends of `async_channel` channels that the machines hold.
//!
//! A channel is shared with whoever holds its other end, and what a call on it gives back
//! rests on what they do. What can be said is which calls were made, and that an answer is
//! the answer of such a call: [`Inbox`] and [`Outbox`] keep that record for proofs.
use async_channel::{Receiver, Send, Sender, TryRecvError, TrySendError};
use core::task::{Context, Poll};
use futures_util::future::FutureExt;
use futures_util::stream::StreamExt;
use vstd::prelude::*;

verus! {

/// `async_channel::Sender`, opaque here.
#[verifier::external_type_specification]
#[verifier::external_body]
#[verifier::reject_recursive_types(T)]
pub struct ExSender<T>(async_channel::Sender<T>);

/// `async_channel::Receiver`, opaque here.
#[verifier::external_type_specification]
#[verifier::external_body]
#[verifier::reject_recursive_types(T)]
pub struct ExReceiver<T>(async_channel::Receiver<T>);

/// `async_channel::Send`, a send that has not been finished, opaque here.
#[verifier::external_type_specification]
#[verifier::external_body]
#[verifier::reject_recursive_types(T)]
pub struct ExSend<'a, T>(async_channel::Send<'a, T>);

/// `async_channel::SendError`, opaque here. It stands in the signature of the
/// outside `Future` impl of `Send`.
#[verifier::external_type_specification]
#[verifier::external_body]
#[verifier::reject_recursive_types(T)]
pub struct ExSendError<T>(async_channel::SendError<T>);

/// `async_channel::bounded` makes a channel that holds at most `cap` items and
/// gives its two ends. It panics on a capacity of zero, which is left out. What goes in at
/// one end comes out at the other. A channel is no part of the value of either end: that two
/// ends belong together is said by `call_ensures` of the call that made them.
pub assume_specification<T>[ async_channel::bounded::<T> ](cap: usize) -> (ends: (
    Sender<T>,
    Receiver<T>,
))
    requires
        cap > 0,
;

/// `async_channel::unbounded` makes a channel without a limit and gives its two
/// ends.
pub assume_specification<T>[ async_channel::unbounded::<T> ]() -> (ends: (Sender<T>, Receiver<T>));

/// `Sender::is_closed` tells whether the channel is closed at this moment, which
/// rests on what others do with it.
pub assume_specification<T>[ async_channel::Sender::<T>::is_closed ](sender: &Sender<T>) -> (closed:
    bool);

/// `Receiver::is_closed` tells whether the channel is closed at this moment, which
/// rests on what others do with it.
pub assume_specification<T>[ async_channel::Receiver::<T>::is_closed ](
    receiver: &Receiver<T>,
) -> (closed: bool);

/// `Sender::clone` gives another handle on the same channel. A sender stands for the
/// channel that it sends to, so the two are equal.
pub assume_specification<T>[ <async_channel::Sender<T> as Clone>::clone ](
    sender: &Sender<T>,
) -> (other: Sender<T>)
    ensures
        other == *sender,
;

/// `Sender::send` makes a future that sends the item once the channel has room.
/// Nothing is sent before that future is polled.
pub assume_specification<'a, T>[ async_channel::Sender::<T>::send ](
    sender: &'a Sender<T>,
    msg: T,
) -> (sending: Send<'a, T>);

/// `async_channel::TrySendError`, a plain enum with the variants `Full` and `Closed`.
#[verifier::external_type_specification]
pub struct ExTrySendError<T>(async_channel::TrySendError<T>);

/// `async_channel::TryRecvError`, a plain enum with the variants `Empty` and `Closed`.
#[verifier::external_type_specification]
pub struct ExTryRecvError(async_channel::TryRecvError);

/// `Sender::try_send` puts the item into the channel if it is open and has room.
/// Else it gives that very item back. Which of these comes rests on what others do with
/// the channel.
pub assume_specification<T>[ async_channel::Sender::<T>::try_send ](
    sender: &Sender<T>,
    msg: T,
) -> (attempt: Result<(), TrySendError<T>>)
    ensures
        attempt matches Err(TrySendError::Full(back)) ==> back == msg,
        attempt matches Err(TrySendError::Closed(back)) ==> back == msg,
;

/// The item was offered to the channel of this sender, by `Sender::try_send`.
pub open spec fn offered<T>(sender: Sender<T>, item: T) -> bool {
    exists|attempt: Result<(), TrySendError<T>>| #[trigger]
        call_ensures(Sender::<T>::try_send, (&sender, item), attempt)
}

/// `Receiver::try_recv` takes the oldest item out of the channel, if there is one
/// at this moment, which rests on what others do with the channel.
pub assume_specification<T>[ async_channel::Receiver::<T>::try_recv ](
    receiver: &Receiver<T>,
) -> (attempt: Result<T, TryRecvError>);

/// `Receiver::poll_next` takes the oldest item out of the channel; gives `None`
/// once the channel is closed and empty; and else has the task woken when that
/// changes. Which of these comes rests on what others do with the channel.
#[verifier::external_body]
pub(crate) fn poll_recv<T>(receiver: &mut Receiver<T>, cx: &mut Context<'_>) -> (answer: Poll<
    Option<T>,
>) {
    receiver.poll_next_unpin(cx)
}

/// `answer` is what may come of this call of `Receiver::poll_next`.
pub closed spec fn receiving<T>(
    receiver: &mut Receiver<T>,
    task: &mut Context<'_>,
    answer: Poll<Option<T>>,
) -> bool {
    call_ensures(poll_recv::<T>, (receiver, task), answer)
}

/// `answer` is what may come of `Receiver::poll_next` on this receiver.
pub open spec fn received<T>(before: Receiver<T>, answer: Poll<Option<T>>) -> bool {
    exists|receiver: &mut Receiver<T>, task: &mut Context<'_>| #[trigger]
        receiving(receiver, task, answer) && *receiver == before
}

/// How a send stands after it was polled.
#[verifier::reject_recursive_types(T)]
pub enum SendPoll<'a, T> {
    /// The item is in the channel.
    Sent,
    /// The channel is closed.
    Refused,
    /// There is no room yet; this is what is to be polled next.
    Pending(Send<'a, T>),
}

/// `Send::poll` puts the item into the channel if there is room, fails if the
/// channel is closed, and else has the task woken. It panics when it is polled
/// after it has finished: the future is taken by value, and comes back only
/// while it is not finished.
#[verifier::external_body]
pub(crate) fn poll_send<'a, T>(sending: Send<'a, T>, cx: &mut Context<'_>) -> (answer: SendPoll<
    'a,
    T,
>) {
    let mut sending = sending;
    match sending.poll_unpin(cx) {
        Poll::Ready(Ok(())) => SendPoll::Sent,
        Poll::Ready(Err(_)) => SendPoll::Refused,
        Poll::Pending => SendPoll::Pending(sending),
    }
}

/// `answer` is what may come of `Send::poll` on this send.
pub closed spec fn went<'a, T>(sending: Send<'a, T>, answer: SendPoll<'a, T>) -> bool {
    exists|task: &mut Context<'_>| #[trigger]
        call_ensures(poll_send::<T>, (sending, task), answer)
}

/// One question that was put to a receiving end, with the answer.
pub enum Receipt<T> {
    /// It was polled for an item.
    Polled(Poll<Option<T>>),
    /// It was asked whether the channel is closed.
    Closed(bool),
}

/// A receiving end, with the record of what was asked of it.
#[verifier::reject_recursive_types(T)]
pub struct Inbox<T> {
    receiver: Receiver<T>,
    origin: Ghost<Receiver<T>>,
    receipts: Ghost<Seq<Receipt<T>>>,
}

impl<T> Inbox<T> {
    /// The receiver as it was when it was put in here.
    pub closed spec fn origin(&self) -> Receiver<T> {
        self.origin@
    }

    /// The receiver as it is now.
    pub closed spec fn now(&self) -> Receiver<T> {
        self.receiver
    }

    /// `after` is the same receiver of which this one thing more was asked.
    pub open spec fn asked(self, receipt: Receipt<T>, after: Self) -> bool {
        after.origin() == self.origin() && after.receipts() == self.receipts().push(receipt)
    }

    /// What was asked so far and what came back, the oldest first.
    pub closed spec fn receipts(&self) -> Seq<Receipt<T>> {
        self.receipts@
    }

    /// Holds a receiver of which nothing was asked yet.
    pub fn new(receiver: Receiver<T>) -> (inbox: Self)
        ensures
            inbox.origin() == receiver,
            inbox.now() == receiver,
            inbox.receipts() == Seq::<Receipt<T>>::empty(),
    {
        let ghost origin = receiver;
        Inbox { receiver, origin: Ghost(origin), receipts: Ghost(Seq::empty()) }
    }

    /// Polls for an item.
    pub fn poll(&mut self, cx: &mut Context<'_>) -> (answer: Poll<Option<T>>)
        ensures
            old(self).asked(Receipt::Polled(answer), *final(self)),
            exists|receiver: &mut Receiver<T>, task: &mut Context<'_>| #[trigger]
                receiving(receiver, task, answer) && *receiver == old(self).now()
                    && *final(receiver) == final(self).now(),
    {
        let answer = poll_recv(&mut self.receiver, cx);
        proof {
            let (receiver, task) = choose|receiver: &mut Receiver<T>, task: &mut Context<'_>|
                #[trigger]
                call_ensures(poll_recv::<T>, (receiver, task), answer) && *receiver == old(self).now()
                    && *final(receiver) == self.now();
            assert(receiving(receiver, task, answer));
        }
        self.receipts = Ghost(self.receipts@.push(Receipt::Polled(answer)));
        answer
    }

    /// Asks whether the channel is closed.
    pub fn is_closed(&mut self) -> (closed: bool)
        ensures
            old(self).asked(Receipt::Closed(closed), *final(self)),
            call_ensures(Receiver::<T>::is_closed, (&old(self).now(),), closed),
            final(self).now() == old(self).now(),
    {
        let closed = self.receiver.is_closed();
        self.receipts = Ghost(self.receipts@.push(Receipt::Closed(closed)));
        closed
    }
}

/// A sending end, with the record of what was handed to it.
///
/// Items are handed over as far as the channel takes them: one that is full or
/// closed drops them.
#[verifier::reject_recursive_types(T)]
pub struct Outbox<T> {
    sender: Sender<T>,
    handed: Ghost<Seq<T>>,
}

impl<T> Outbox<T> {
    /// The sender that items are handed to.
    pub closed spec fn sender(&self) -> Sender<T> {
        self.sender
    }

    /// What was handed over so far, the oldest first.
    pub closed spec fn handed(&self) -> Seq<T> {
        self.handed@
    }

    /// `after` is the same sender to which these items more were handed.
    pub open spec fn handing(self, items: Seq<T>, after: Self) -> bool {
        after.sender() == self.sender() && after.handed() == self.handed() + items
    }

    /// Holds a sender to which nothing was handed yet.
    pub fn new(sender: Sender<T>) -> (outbox: Self)
        ensures
            outbox.sender() == sender,
            outbox.handed() == Seq::<T>::empty(),
    {
        Outbox { sender, handed: Ghost(Seq::empty()) }
    }

    /// Offers an item to the channel, and tells whether it has taken it.
    pub fn offer(&mut self, item: T) -> (attempt: Result<(), TrySendError<T>>)
        ensures
            old(self).handing(seq![item], *final(self)),
            call_ensures(Sender::<T>::try_send, (&old(self).sender(), item), attempt),
    {
        self.handed = Ghost(self.handed@ + seq![item]);
        self.sender.try_send(item)
    }

    /// Hands an item over: the channel is offered it.
    pub fn hand(&mut self, item: T)
        ensures
            old(self).handing(seq![item], *final(self)),
            offered(old(self).sender(), item),
    {
        let ghost handed = item;
        let attempt = self.offer(item);
        assert(call_ensures(Sender::<T>::try_send, (&old(self).sender(), handed), attempt));
    }
}

/// The channel is closed, and the item was not delivered.
#[derive(Debug, PartialEq, Eq, Structural)]
pub struct Refused;

/// A send that waits for room, with the item that it carries, where to, and the record of how it
/// went.
#[verifier::reject_recursive_types(T)]
pub struct Delivery<'a, T> {
    sending: Option<Send<'a, T>>,
    sender: Ghost<Sender<T>>,
    item: Ghost<T>,
    answers: Ghost<Seq<Poll<Result<(), Refused>>>>,
}

impl<'a, T> Delivery<'a, T> {
    /// The item that is to be delivered.
    pub closed spec fn item(&self) -> T {
        self.item@
    }

    /// The sender that it goes through.
    pub closed spec fn sender(&self) -> Sender<T> {
        self.sender@
    }

    /// How it stood each time when it was polled, the oldest first.
    pub closed spec fn answers(&self) -> Seq<Poll<Result<(), Refused>>> {
        self.answers@
    }

    /// The send, unless it is over.
    pub closed spec fn sending(&self) -> Option<Send<'a, T>> {
        self.sending
    }

    /// Whether it is over, one way or the other.
    pub open spec fn is_over(&self) -> bool {
        self.sending() is None
    }

    /// `after` is the same delivery after it was polled once more, and stood like this.
    pub open spec fn asked(self, answer: Poll<Result<(), Refused>>, after: Self) -> bool {
        &&& after.sender() == self.sender()
        &&& after.item() == self.item()
        &&& after.answers() == self.answers().push(answer)
        &&& after.is_over() <==> answer is Ready
    }

    /// Sets out to deliver `item` through `sender`.
    pub fn new(sender: &'a Sender<T>, item: T) -> (delivery: Self)
        ensures
            delivery.sender() == *sender,
            delivery.item() == item,
            delivery.answers() == Seq::<Poll<Result<(), Refused>>>::empty(),
            !delivery.is_over(),
            call_ensures(Sender::<T>::send, (sender, item), delivery.sending().unwrap()),
    {
        let ghost carried = item;
        let sending = sender.send(item);
        assert(call_ensures(Sender::<T>::send, (sender, carried), sending));
        Delivery {
            sending: Some(sending),
            sender: Ghost(*sender),
            item: Ghost(carried),
            answers: Ghost(Seq::empty()),
        }
    }

    /// Whether it is over.
    pub fn over(&self) -> (over: bool)
        ensures
            over == self.is_over(),
    {
        self.sending.is_none()
    }

    /// Goes on with a delivery that is not over.
    pub fn poll(&mut self, cx: &mut Context<'_>) -> (answer: Poll<Result<(), Refused>>)
        requires
            !old(self).is_over(),
        ensures
            old(self).asked(answer, *final(self)),
            exists|how: SendPoll<'a, T>| #[trigger]
                went(old(self).sending().unwrap(), how) && match how {
                    SendPoll::Sent => answer == Poll::<Result<(), Refused>>::Ready(Ok(())),
                    SendPoll::Refused => answer == Poll::<Result<(), Refused>>::Ready(Err(Refused)),
                    SendPoll::Pending(rest) => answer is Pending && final(self).sending() == Some(
                        rest,
                    ),
                },
    {
        let answer = match self.sending.take() {
            Some(sending) => {
                let how = poll_send(sending, cx);
                assert(went(old(self).sending().unwrap(), how));
                match how {
                    SendPoll::Sent => Poll::Ready(Ok(())),
                    SendPoll::Refused => Poll::Ready(Err(Refused)),
                    SendPoll::Pending(rest) => {
                        self.sending = Some(rest);
                        Poll::Pending
                    },
                }
            },
            None => Poll::Ready(Err(Refused)),
        };
        self.answers = Ghost(self.answers@.push(answer));
        answer
    }
}

/// A sending end that items are sent through, with the record of them.
#[verifier::reject_recursive_types(T)]
pub struct Courier<'a, T> {
    sender: &'a Sender<T>,
    sent: Ghost<Seq<T>>,
}

impl<'a, T> Courier<'a, T> {
    /// The sender that items go through.
    pub closed spec fn sender(&self) -> Sender<T> {
        *self.sender
    }

    /// What was given to be delivered so far, the oldest first.
    pub closed spec fn sent(&self) -> Seq<T> {
        self.sent@
    }

    /// Holds a sender that nothing was sent through yet.
    pub fn new(sender: &'a Sender<T>) -> (courier: Self)
        ensures
            courier.sender() == *sender,
            courier.sent() == Seq::<T>::empty(),
    {
        Courier { sender, sent: Ghost(Seq::empty()) }
    }

    /// Sets out to deliver `item`.
    pub fn deliver(&mut self, item: T) -> (delivery: Delivery<'a, T>)
        ensures
            final(self).sender() == old(self).sender(),
            final(self).sent() == old(self).sent().push(item),
            delivery.sender() == old(self).sender(),
            delivery.item() == item,
            delivery.answers() == Seq::<Poll<Result<(), Refused>>>::empty(),
            !delivery.is_over(),
            call_ensures(
                Sender::<T>::send,
                (&old(self).sender(), item),
                delivery.sending().unwrap(),
            ),
    {
        self.sent = Ghost(self.sent@.push(item));
        Delivery::new(self.sender, item)
    }
}

} // verus!
