//! What holds of streams that are held up at random, of events, and of the runner that lets them go on.
use crate::calls::inbox_will_wake;
use crate::channel::{Inbox, Outbox, Receipt};
use crate::fuzzer::{
    arrived, coins, held_up, places_of, popped_is_gone, starts, Draw, Event, Extra, LocalView, Offer,
    PopSet, Runner, TestError,
};
use async_channel::{Receiver, Sender, TryRecvError, TrySendError};
use core::task::Poll;
use vstd::prelude::*;

verus! {

/// Whoever is held up waits at a delay that will wake the task; and whoever is not, at none.
pub open spec fn waits_at(extra: Option<Inbox<Extra>>, held: bool) -> bool {
    match extra {
        Some(inbox) => held && inbox_will_wake(inbox.receipts()),
        None => !held,
    }
}

/// **A delay is waited for until it is over, and each new one is told to the runner.** As long as a
/// delay is not over it stays the one that is waited for, and no coin is tossed. Else coins are
/// tossed until one is heads. For each that is tails a new delay is offered to the runner, which is
/// waited for unless it is over at once. If the runner is not there, it is not waited for anything.
pub proof fn delays_go_by_coins(
    extra: Option<Inbox<Extra>>,
    extras: Sender<Sender<Extra>>,
    tosses: Seq<bool>,
    offers: Seq<Offer>,
    held: Option<Inbox<Extra>>,
)
    requires
        held_up(extra, extras, tosses, offers, held),
    ensures
        waits_at(held, held is Some),
        tosses.len() == 0 ==> {
            &&& extra is Some
            &&& held is Some
            &&& held.unwrap().origin() == extra.unwrap().origin()
            &&& offers.len() == 0
        },
        forall|i: int| 0 <= i < tosses.len() - 1 ==> !(#[trigger] tosses[i]),
        starts(offers).len() == tails(tosses),
        tosses.len() > 0 && tosses.last() ==> held is None,
        tosses.len() > 0 && held is None && tosses.len() < u64::MAX ==> tosses.last()
            || offers.last().attempt is Err,
        tosses.len() > 0 && held is Some ==> {
            &&& !tosses.last()
            &&& offers.last().attempt is Ok
            &&& held.unwrap().origin() == offers.last().ends.1
            &&& starts(offers).last() == offers.last().ends.0
        },
{
    tails_are_counted(tosses);
}

/// How many of these are tails, if all but the last are.
proof fn tails_are_counted(tosses: Seq<bool>)
    requires
        forall|i: int| 0 <= i < tosses.len() - 1 ==> !(#[trigger] tosses[i]),
    ensures
        tails(tosses) == if tosses.len() > 0 && tosses.last() {
            tosses.len() - 1
        } else {
            tosses.len() as int
        },
    decreases tosses.len(),
{
    reveal(Seq::filter);
    if tosses.len() > 0 {
        let less = tosses.drop_last();
        assert forall|i: int| 0 <= i < less.len() implies !(#[trigger] less[i]) by {
            assert(less[i] == tosses[i]);
        }
        tails_are_counted(less);
    }
}

impl<T> LocalView<T> {
    /// Nothing else has changed but how often it was held up.
    pub open spec fn same_but(self, after: Self) -> bool {
        &&& after.extras.sender() == self.extras.sender()
        &&& self.extras.handed().len() <= after.extras.handed().len()
        &&& after.extras.handed().take(self.extras.handed().len() as int) == self.extras.handed()
        &&& after.dice.origin() == self.dice.origin()
        &&& exists|tosses: Seq<bool>|
            after.dice.draws() == self.dice.draws() + #[trigger] coins(tosses)
                && after.extras.handed().len() == self.extras.handed().len() + tails(tosses)
    }

    /// If no coin was tossed, it waits at the delay that it has waited at.
    pub open spec fn waits_on(
        self,
        extra: Option<Inbox<Extra>>,
        held: Option<Inbox<Extra>>,
        after: Self,
    ) -> bool {
        after.dice.draws() == self.dice.draws() ==> extra is Some && held is Some
            && held.unwrap().origin() == extra.unwrap().origin()
    }
}

/// How many of these coins are tails.
pub open spec fn tails(tosses: Seq<bool>) -> nat {
    tosses.filter(|heads: bool| !heads).len()
}

/// What being held up leaves as it is.
proof fn held_up_keeps<T>(
    before: LocalView<T>,
    extra: Option<Inbox<Extra>>,
    held: Option<Inbox<Extra>>,
    after: LocalView<T>,
)
    requires
        before.held_up(extra, held, after),
    ensures
        before.same_but(after),
        waits_at(held, held is Some),
        before.waits_on(extra, held, after),
        after == (LocalView { dice: after.dice, extras: after.extras, ..before }),
{
    let (tosses, offers) = choose|tosses: Seq<bool>, offers: Seq<Offer>| #[trigger]
        held_up(extra, before.extras.sender(), tosses, offers, held) && before.dice.rolled(
            coins(tosses),
            after.dice,
        ) && before.extras.handing(starts(offers), after.extras);
    delays_go_by_coins(extra, before.extras.sender(), tosses, offers, held);
    assert(after.extras.handed().take(before.extras.handed().len() as int)
        =~= before.extras.handed());
    assert(after.dice.draws() == before.dice.draws() + coins(tosses));
    assert(after.dice.draws().len() == before.dice.draws().len() + tosses.len());
}

/// **What comes from a stream is what came through its channel.** It is asked at most once, and
/// only if the stream is not held up. Each message that came is given, and the end; and no failure
/// is made up.
pub proof fn local_gives_what_comes<T>(
    before: LocalView<T>,
    answer: Poll<Option<Result<T, TestError>>>,
    after: LocalView<T>,
)
    requires
        before.next_polled(answer, after),
    ensures
        before.same_but(after),
        before.waits_on(before.next_extra, after.next_extra, after),
        after.sender == before.sender,
        after.ready_extra == before.ready_extra,
        after.flush_extra == before.flush_extra,
        after.close_extra == before.close_extra,
        after.inbox == before.inbox <==> after.next_extra is Some,
        waits_at(after.next_extra, after.inbox == before.inbox),
        after.next_extra is Some ==> answer is Pending,
        after.inbox != before.inbox ==> {
            &&& after.inbox.receipts().len() == before.inbox.receipts().len() + 1
            &&& after.inbox.receipts().drop_last() == before.inbox.receipts()
            &&& match after.inbox.receipts().last() {
                Receipt::Polled(Poll::Pending) => answer is Pending,
                Receipt::Polled(Poll::Ready(None)) => answer == Poll::<
                    Option<Result<T, TestError>>,
                >::Ready(None),
                Receipt::Polled(Poll::Ready(Some(value))) => answer == Poll::<
                    Option<Result<T, TestError>>,
                >::Ready(Some(Ok(value))),
                Receipt::Closed(_) => false,
            }
        },
{
    let (held, mid) = choose|held: Option<Inbox<Extra>>, mid: LocalView<T>| #[trigger]
        (LocalView { next_extra: None, ..before }).held_up(before.next_extra, held, mid)
            && match held {
            Some(_) => {
                &&& after == LocalView { next_extra: held, ..mid }
                &&& answer is Pending
            },
            None => exists|received: Poll<Option<T>>| #[trigger]
                mid.inbox.asked(Receipt::Polled(received), after.inbox) && after == (LocalView {
                    inbox: after.inbox,
                    ..mid
                }) && answer == arrived(received),
        };
    held_up_keeps(LocalView { next_extra: None, ..before }, before.next_extra, held, mid);
    if held is None {
        assert(after.inbox.receipts().drop_last() =~= before.inbox.receipts());
    }
}

/// **A stream is ready unless it was closed, or is held up.**
pub proof fn local_is_ready_unless_closed<T>(
    before: LocalView<T>,
    answer: Poll<Result<(), TestError>>,
    after: LocalView<T>,
)
    requires
        before.ready_polled(answer, after),
    ensures
        before.same_but(after),
        before.waits_on(before.ready_extra, after.ready_extra, after),
        after.sender == before.sender,
        after.inbox == before.inbox,
        after.next_extra == before.next_extra,
        after.flush_extra == before.flush_extra,
        after.close_extra == before.close_extra,
        waits_at(after.ready_extra, answer is Pending),
        answer matches Poll::Ready(Ok(_)) ==> before.sender is Some,
        answer matches Poll::Ready(Err(_)) ==> before.sender is None,
{
    let (held, mid) = choose|held: Option<Inbox<Extra>>, mid: LocalView<T>| #[trigger]
        (LocalView { ready_extra: None, ..before }).held_up(before.ready_extra, held, mid) && after
            == (LocalView { ready_extra: held, ..mid });
    held_up_keeps(LocalView { ready_extra: None, ..before }, before.ready_extra, held, mid);
}

/// **What a stream was handed is sent, unless it is held up.** It never fails to send it.
pub proof fn local_sends_all<T>(
    before: LocalView<T>,
    answer: Poll<Result<(), TestError>>,
    after: LocalView<T>,
)
    requires
        before.flush_polled(answer, after),
    ensures
        before.same_but(after),
        before.waits_on(before.flush_extra, after.flush_extra, after),
        after.sender == before.sender,
        after.inbox == before.inbox,
        after.next_extra == before.next_extra,
        after.ready_extra == before.ready_extra,
        after.close_extra == before.close_extra,
        waits_at(after.flush_extra, answer is Pending),
        !(answer matches Poll::Ready(Err(_))),
{
    let (held, mid) = choose|held: Option<Inbox<Extra>>, mid: LocalView<T>| #[trigger]
        (LocalView { flush_extra: None, ..before }).held_up(before.flush_extra, held, mid) && after
            == (LocalView { flush_extra: held, ..mid });
    held_up_keeps(LocalView { flush_extra: None, ..before }, before.flush_extra, held, mid);
}

/// **A stream is closed exactly when it says so.** As long as it is held up it stays as it was. It
/// never fails to close, and what comes from the other end can still be asked for.
pub proof fn local_closes<T>(
    before: LocalView<T>,
    answer: Poll<Result<(), TestError>>,
    after: LocalView<T>,
)
    requires
        before.close_polled(answer, after),
    ensures
        before.same_but(after),
        before.waits_on(before.close_extra, after.close_extra, after),
        after.inbox == before.inbox,
        after.next_extra == before.next_extra,
        after.ready_extra == before.ready_extra,
        after.flush_extra == before.flush_extra,
        waits_at(after.close_extra, answer is Pending),
        !(answer matches Poll::Ready(Err(_))),
        answer is Pending ==> after.sender == before.sender,
        answer is Ready ==> after.sender is None,
{
    let (held, mid) = choose|held: Option<Inbox<Extra>>, mid: LocalView<T>| #[trigger]
        (LocalView { close_extra: None, ..before }).held_up(before.close_extra, held, mid)
            && match held {
            Some(_) => {
                &&& after == LocalView { close_extra: held, ..mid }
                &&& answer is Pending
            },
            None => {
                &&& after == LocalView { sender: None, ..mid }
                &&& answer == Poll::<Result<(), TestError>>::Ready(Ok(()))
            },
        };
    held_up_keeps(LocalView { close_extra: None, ..before }, before.close_extra, held, mid);
}

/// What was handed over through this end, if it is open.
pub open spec fn passed<T>(sender: Option<Outbox<T>>) -> Seq<T> {
    match sender {
        Some(outbox) => outbox.handed(),
        None => Seq::empty(),
    }
}

/// **A message that a stream is handed goes into its channel once.** One that was closed refuses
/// it, and nothing else changes. Whether it is held up plays no part.
pub proof fn local_passes_messages_on<T>(
    before: LocalView<T>,
    msg: T,
    answer: Result<(), TestError>,
    after: LocalView<T>,
)
    requires
        before.sent(msg, answer, after),
    ensures
        after == (LocalView { sender: after.sender, ..before }),
        before.sender is Some <==> after.sender is Some,
        before.sender is None ==> answer is Err && after == before,
        before.sender is Some ==> passed(after.sender) == passed(before.sender).push(msg)
            && after.sender.unwrap().sender() == before.sender.unwrap().sender(),
        answer is Ok ==> exists|taken: Result<(), TrySendError<T>>| #[trigger]
            call_ensures(
                Sender::<T>::try_send,
                (&before.sender.unwrap().sender(), msg),
                taken,
            ) && taken is Ok,
{
    match before.sender {
        Some(outbox) => {
            assert(passed(after.sender) =~= passed(before.sender).push(msg));
        },
        None => {},
    }
}

/// **An event has come unless it is held up.**
pub proof fn event_comes(before: Event, answer: Poll<()>, after: Event)
    requires
        before.polled(answer, after),
    ensures
        waits_at(after.extra(), answer is Pending),
        after.extras().sender() == before.extras().sender(),
        exists|tosses: Seq<bool>|
            after.dice().draws() == before.dice().draws() + #[trigger] coins(tosses)
                && after.extras().handed().len() == before.extras().handed().len() + tails(tosses),
        after.dice().draws() == before.dice().draws() ==> answer is Pending
            && before.extra() is Some && after.extra().unwrap().origin()
            == before.extra().unwrap().origin(),
{
    let (tosses, offers) = choose|tosses: Seq<bool>, offers: Seq<Offer>| #[trigger]
        held_up(before.extra(), before.extras().sender(), tosses, offers, after.extra())
            && before.dice().rolled(coins(tosses), after.dice()) && before.extras().handing(
            starts(offers),
            after.extras(),
        );
    delays_go_by_coins(
        before.extra(),
        before.extras().sender(),
        tosses,
        offers,
        after.extra(),
    );
    assert(after.dice().draws().len() == before.dice().draws().len() + tosses.len());
    assert(after.dice().draws() == before.dice().draws() + coins(tosses));
}

/// **The number that is drawn decides which value comes out.** A number below the number of places is
/// drawn first; if there is a value in that place, that one comes out, and the place stays, empty.
/// Else the empty places are dropped, a number is drawn below the number of values, and it is the one
/// of that number.
pub proof fn the_number_decides<T>(
    before: PopSet<T>,
    draws: Seq<Draw>,
    popped: Option<T>,
    after: PopSet<T>,
)
    requires
        before.popped(draws, popped, after),
    ensures
        before.places().len() == 0 <==> draws.len() == 0,
        draws.len() <= 2,
        draws.len() > 0 ==> draws[0] is Below && draws[0]->number < before.places().len(),
        draws.len() == 1 ==> popped == before.places()[draws[0]->number as int],
        draws.len() == 2 ==> {
            &&& before.places()[draws[0]->number as int] is None
            &&& draws[1] is Below
            &&& draws[1]->number < before@.len()
            &&& popped == Some(before@[draws[1]->number as int])
        },
        after.dice().draws() == before.dice().draws() + draws,
        after.places().len() == if draws.len() == 2 {
            before@.len()
        } else if popped is None {
            0
        } else {
            before.places().len()
        },
{
}

/// **A step ends one of the delays that are known.** All that have come up are known first: they are asked
/// for until there is none. Those that are left are all others.
pub proof fn step_leaves_the_others(
    before: Runner,
    came: Seq<Sender<Extra>>,
    res: bool,
    after: Runner,
)
    requires
        before.stepped(came, res, after),
    ensures
        after.extras() == before.extras(),
        after.receiver() == before.receiver(),
        forall|i: int| #![trigger came[i]]
            0 <= i < came.len() ==> call_ensures(
                Receiver::<Sender<Extra>>::try_recv,
                (&before.receiver(),),
                Ok(came[i]),
            ),
        came.len() < u64::MAX ==> exists|none: TryRecvError| #[trigger]
            call_ensures(Receiver::<Sender<Extra>>::try_recv, (&before.receiver(),), Err(none)),
        !res ==> (before.delays() + came).len() == 0 && after.delays().len() == 0,
        res ==> exists|ended: Sender<Extra>|
            (before.delays() + came).contains(ended) && (before.delays() + came).to_multiset()
                == #[trigger] after.delays().to_multiset().insert(ended),
{
    let (known, draws, popped) = choose|
        known: PopSet<Sender<Extra>>,
        draws: Seq<Draw>,
        popped: Option<Sender<Extra>>,
    |
        #[trigger]
        known.popped(draws, popped, after.set()) && (res <==> popped is Some) && known@
            == before.delays() + came && known.places() == before.set().places() + places_of(came)
            && known.dice() == before.dice();
    popped_is_gone(known, draws, popped, after.set());
    match popped {
        Some(ended) => {
            assert((before.delays() + came).to_multiset() == after.delays().to_multiset().insert(
                ended,
            ));
        },
        None => {},
    }
}

} // verus!
