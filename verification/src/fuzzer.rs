//! Streams that are held up at random, for trying out the patterns.
//!
//! A [`Local`] stream may answer that it is pending for no reason. Each such delay ends
//! when the [`Runner`] that the stream belongs to takes a [`Runner::step`], which ends
//! one delay that is picked at random. All choices come from the seed of the runner.
use crate::channel::{offered, received, Inbox, Outbox, Receipt};
use crate::stream::{PatternStream, ResultStream};
use crate::task::unpinned;
use async_channel::{unbounded, Receiver, Sender, TryRecvError, TrySendError};
use core::future::Future;
use core::pin::Pin;
use core::task::{Context, Poll};
use rand::rngs::StdRng;
use rand::{Rng, RngCore, SeedableRng};
use vstd::prelude::*;

verus! {

/// `rand::rngs::StdRng`, opaque here.
#[verifier::external_type_specification]
#[verifier::external_body]
pub struct ExStdRng(rand::rngs::StdRng);

/// The generator that `StdRng::seed_from_u64` makes of this seed.
pub uninterp spec fn seeded(seed: u64) -> StdRng;

/// `StdRng::seed_from_u64` makes a generator of a seed, and always the same one of the
/// same seed.
#[verifier::external_body]
fn seed_from_u64(seed: u64) -> (rng: StdRng)
    ensures
        rng == seeded(seed),
{
    StdRng::seed_from_u64(seed)
}

/// What `RngCore::next_u64` draws from this generator, and the generator as it is then.
pub uninterp spec fn next_word(rng: StdRng) -> (u64, StdRng);

/// `RngCore::next_u64` draws a number, and always the same one from the same state.
#[verifier::external_body]
fn next_u64(rng: &mut StdRng) -> (drawn: u64)
    ensures
        (drawn, *final(rng)) == next_word(*old(rng)),
{
    rng.next_u64()
}

/// `Rng::gen_range` draws a number below `end`. It panics on an empty range, which is
/// left out. Which number it is depends on the word size of the machine as well as on the
/// generator, and is left unsaid.
#[verifier::external_body]
fn gen_below(rng: &mut StdRng, end: usize) -> (drawn: usize)
    requires
        end > 0,
    ensures
        drawn < end,
{
    rng.gen_range(0..end)
}

/// `number` is what may come of this call of `Rng::gen_range`.
pub closed spec fn drawing(rng: &mut StdRng, end: usize, number: usize) -> bool {
    call_ensures(gen_below, (rng, end), number)
}

/// This number is in the lower half of those that a `u64` holds.
pub open spec fn in_lower_half(word: u64) -> bool {
    word < 0x8000_0000_0000_0000
}

/// `Rng::gen_ratio` draws `true` with this chance: never if it is none, always if it is
/// one, and nothing is drawn for that. Else a number is drawn as `RngCore::next_u64` does,
/// and for a chance of one half it has to be in the lower half. Up to where it has to be
/// for other chances is left unsaid: that is computed in floating point. It panics on what
/// is not a chance, which is left out.
#[verifier::external_body]
fn gen_ratio(rng: &mut StdRng, numerator: u32, denominator: u32) -> (drawn: bool)
    requires
        numerator <= denominator,
        denominator > 0,
    ensures
        numerator == 0 ==> !drawn,
        numerator == denominator ==> drawn && *final(rng) == *old(rng),
        numerator < denominator ==> *final(rng) == next_word(*old(rng)).1,
        2 * numerator == denominator ==> drawn == in_lower_half(next_word(*old(rng)).0),
{
    rng.gen_ratio(numerator, denominator)
}

/// One thing that was drawn.
pub enum Draw {
    /// A number below `end`.
    Below {
        /// What it has to be below.
        end: usize,
        /// The number.
        number: usize,
    },
    /// Heads or tails.
    Coin(bool),
    /// A seed for another generator.
    Seed(u64),
}

impl Draw {
    /// This may be drawn from the generator `from`, which becomes `to`.
    pub open spec fn takes(self, from: StdRng, to: StdRng) -> bool {
        match self {
            Draw::Below { end, number } => number < end && exists|rng: &mut StdRng| #[trigger]
                drawing(rng, end, number) && *rng == from,
            Draw::Coin(heads) => heads == in_lower_half(next_word(from).0) && to == next_word(from).1,
            Draw::Seed(seed) => (seed, to) == next_word(from),
        }
    }
}

/// These may be drawn from the generator `from`, one after the other, and it becomes `to`.
pub open spec fn drawn(from: StdRng, draws: Seq<Draw>, to: StdRng) -> bool
    decreases draws.len(),
{
    if draws.len() == 0 {
        from == to
    } else {
        exists|mid: StdRng|
            drawn(from, draws.drop_last(), mid) && #[trigger] draws.last().takes(mid, to)
    }
}

/// What is drawn next is drawn from what the generator has become.
proof fn drawn_push(from: StdRng, draws: Seq<Draw>, mid: StdRng, draw: Draw, to: StdRng)
    requires
        drawn(from, draws, mid),
        draw.takes(mid, to),
    ensures
        drawn(from, draws.push(draw), to),
{
    assert(draws.push(draw).drop_last() =~= draws);
    assert(draws.push(draw).last().takes(mid, to));
}

/// One draw is drawn from the generator itself.
proof fn drawn_one(from: StdRng, draw: Draw, to: StdRng)
    ensures
        drawn(from, seq![draw], to) <==> draw.takes(from, to),
{
    reveal_with_fuel(drawn, 2);
    assert(seq![draw].drop_last() =~= Seq::empty());
    if draw.takes(from, to) {
        assert(seq![draw].last().takes(from, to));
    }
}

/// A generator, with the record of what was drawn from it.
pub struct Dice {
    rng: StdRng,
    origin: Ghost<StdRng>,
    draws: Ghost<Seq<Draw>>,
}

impl Dice {
    /// The generator as it was before anything was drawn.
    pub closed spec fn origin(&self) -> StdRng {
        self.origin@
    }

    /// What was drawn so far, the oldest first.
    pub closed spec fn draws(&self) -> Seq<Draw> {
        self.draws@
    }

    /// The generator as it is now.
    pub closed spec fn state(&self) -> StdRng {
        self.rng
    }

    /// This is the generator of this seed, and nothing was drawn from it.
    pub open spec fn is_new(self, seed: u64) -> bool {
        &&& self.origin() == seeded(seed)
        &&& self.state() == seeded(seed)
        &&& self.draws() == Seq::<Draw>::empty()
    }

    /// `after` is the same generator from which these were drawn since.
    pub open spec fn rolled(self, draws: Seq<Draw>, after: Self) -> bool {
        &&& after.origin() == self.origin()
        &&& after.draws() == self.draws() + draws
        &&& drawn(self.state(), draws, after.state())
    }

    /// The generator of this seed.
    pub fn new(seed: u64) -> (dice: Self)
        ensures
            dice.is_new(seed),
    {
        let rng = seed_from_u64(seed);
        let ghost origin = rng;
        Dice { rng, origin: Ghost(origin), draws: Ghost(Seq::empty()) }
    }

    /// Draws a number below `end`.
    pub fn below(&mut self, end: usize) -> (number: usize)
        requires
            end > 0,
        ensures
            number < end,
            old(self).rolled(seq![Draw::Below { end, number }], *final(self)),
            exists|rng: &mut StdRng| #[trigger]
                drawing(rng, end, number) && *rng == old(self).state()
                    && *final(rng) == final(self).state(),
    {
        let number = gen_below(&mut self.rng, end);
        proof {
            let rng = choose|rng: &mut StdRng| #[trigger]
                call_ensures(gen_below, (rng, end), number) && *rng == old(self).state()
                    && *final(rng) == self.state();
            assert(drawing(rng, end, number));
        }
        self.draws = Ghost(self.draws@ + seq![Draw::Below { end, number }]);
        proof {
            drawn_one(old(self).rng, Draw::Below { end, number }, self.rng);
        }
        number
    }

    /// Tosses a coin.
    pub fn coin(&mut self) -> (heads: bool)
        ensures
            old(self).rolled(seq![Draw::Coin(heads)], *final(self)),
            heads == in_lower_half(next_word(old(self).state()).0),
            final(self).state() == next_word(old(self).state()).1,
    {
        let heads = gen_ratio(&mut self.rng, 1, 2);
        self.draws = Ghost(self.draws@ + seq![Draw::Coin(heads)]);
        proof {
            drawn_one(old(self).rng, Draw::Coin(heads), self.rng);
        }
        heads
    }

    /// Another generator, of a seed that is drawn.
    pub fn fork(&mut self) -> (other: Self)
        ensures
            other.is_new(next_word(old(self).state()).0),
            old(self).rolled(seq![Draw::Seed(next_word(old(self).state()).0)], *final(self)),
            final(self).state() == next_word(old(self).state()).1,
    {
        let seed = next_u64(&mut self.rng);
        self.draws = Ghost(self.draws@ + seq![Draw::Seed(seed)]);
        proof {
            drawn_one(old(self).rng, Draw::Seed(seed), self.rng);
        }
        Dice::new(seed)
    }
}

/// What passes through the channel of a delay: nothing. A delay ends when the sending
/// end of its channel is dropped.
pub type Extra = core::convert::Infallible;

/// The values that are there.
pub open spec fn live<T>(values: Seq<Option<T>>) -> Seq<T>
    decreases values.len(),
{
    if values.len() == 0 {
        Seq::empty()
    } else {
        match values.last() {
            Some(value) => live(values.drop_last()).push(value),
            None => live(values.drop_last()),
        }
    }
}

/// Places that hold these values.
pub open spec fn places_of<T>(values: Seq<T>) -> Seq<Option<T>> {
    values.map_values(|value: T| Some(value))
}

/// What is there in two rows is what is there in the first, then in the second.
pub proof fn live_concat<T>(left: Seq<Option<T>>, right: Seq<Option<T>>)
    ensures
        live(left + right) == live(left) + live(right),
    decreases right.len(),
{
    if right.len() > 0 {
        live_concat(left, right.drop_last());
        assert((left + right).drop_last() =~= left + right.drop_last());
    }
}

/// Where a value is among those that are there.
pub open spec fn rank<T>(values: Seq<Option<T>>, i: int) -> int {
    live(values.take(i)).len() as int
}

/// To take a value out of a row is to take it out of what is there.
pub proof fn live_take<T>(values: Seq<Option<T>>, i: int)
    requires
        0 <= i < values.len(),
        values[i] is Some,
    ensures
        0 <= rank(values, i) < live(values).len(),
        live(values)[rank(values, i)] == values[i].unwrap(),
        live(values.update(i, None)) == live(values).remove(rank(values, i)),
{
    let left = values.take(i);
    let right = values.skip(i + 1);
    let some = seq![values[i]];
    let none = seq![None::<T>];
    reveal_with_fuel(live, 2);
    assert(values =~= left + some + right);
    assert(values.update(i, None) =~= left + none + right);
    live_concat(left, some);
    live_concat(left + some, right);
    live_concat(left, none);
    live_concat(left + none, right);
}

/// A row of nothing but values holds as many as it is long.
pub proof fn live_all<T>(values: Seq<Option<T>>)
    requires
        forall|i: int| 0 <= i < values.len() ==> (#[trigger] values[i]) is Some,
    ensures
        live(values).len() == values.len(),
        values == places_of(live(values)),
    decreases values.len(),
{
    if values.len() > 0 {
        live_all(values.drop_last());
        assert(values =~= values.drop_last().push(values.last()));
    }
    assert(values =~= places_of(live(values)));
}

/// In a row of nothing but values each is where it is.
proof fn live_all_at<T>(values: Seq<Option<T>>, i: int)
    requires
        forall|j: int| 0 <= j < values.len() ==> (#[trigger] values[j]) is Some,
        0 <= i < values.len(),
    ensures
        rank(values, i) == i,
{
    let first = values.take(i);
    live_all(first);
}

/// A set that values are taken out of at random.
pub struct PopSet<T> {
    values: Vec<Option<T>>,
    dice: Dice,
}

impl<T> View for PopSet<T> {
    type V = Seq<T>;

    closed spec fn view(&self) -> Seq<T> {
        live(self.values@)
    }
}

impl<T> PopSet<T> {
    /// The generator that values are picked with.
    pub closed spec fn dice(&self) -> Dice {
        self.dice
    }

    /// The places, those that values were taken out of with them.
    pub closed spec fn places(&self) -> Seq<Option<T>> {
        self.values@
    }

    /// What is there is what is in the places.
    pub proof fn places_hold(&self)
        ensures
            self@ == live(self.places()),
    {
    }

    /// An empty set.
    pub fn new(seed: u64) -> (set: Self)
        ensures
            set@ == Seq::<T>::empty(),
            set.places() == Seq::<Option<T>>::empty(),
            set.dice().is_new(seed),
    {
        PopSet { values: Vec::new(), dice: Dice::new(seed) }
    }

    /// A generator of its own for someone else.
    fn fork(&mut self) -> (other: Dice)
        ensures
            final(self)@ == old(self)@,
            final(self).places() == old(self).places(),
            other.is_new(next_word(old(self).dice().state()).0),
            old(self).dice().rolled(
                seq![Draw::Seed(next_word(old(self).dice().state()).0)],
                final(self).dice(),
            ),
            final(self).dice().state() == next_word(old(self).dice().state()).1,
    {
        self.dice.fork()
    }

    /// Puts a value in.
    pub fn push(&mut self, value: T)
        ensures
            final(self)@ == old(self)@.push(value),
            final(self).places() == old(self).places().push(Some(value)),
            final(self).dice() == old(self).dice(),
    {
        self.values.push(Some(value));
        assert(self.values@.drop_last() =~= old(self).values@);
    }

    /// Takes out what is in place `i`.
    pub fn take_at(&mut self, i: usize) -> (taken: Option<T>)
        requires
            i < old(self).places().len(),
        ensures
            taken == old(self).places()[i as int],
            final(self).places() == old(self).places().update(i as int, None),
            final(self).dice() == old(self).dice(),
            taken is Some ==> {
                let k = rank(old(self).places(), i as int);
                &&& 0 <= k < old(self)@.len()
                &&& taken == Some(old(self)@[k])
                &&& final(self)@ == old(self)@.remove(k)
            },
            taken is None ==> final(self)@ == old(self)@,
    {
        let mut taken = None;
        core::mem::swap(&mut self.values[i], &mut taken);
        proof {
            if taken is Some {
                live_take(old(self).values@, i as int);
            } else {
                assert(self.values@ =~= old(self).values@);
            }
        }
        taken
    }

    /// Drops the places that hold nothing.
    pub fn compact(&mut self)
        ensures
            final(self)@ == old(self)@,
            final(self).places() == places_of(old(self)@),
            final(self).dice() == old(self).dice(),
    {
        let mut values = Vec::new();
        core::mem::swap(&mut self.values, &mut values);
        let ghost all = values@;
        for value in iter: values
            invariant
                iter.seq() == all,
                self.dice == old(self).dice,
                live(self.values@) == live(all.take(iter.index())),
                forall|i: int|
                    0 <= i < self.values@.len() ==> (#[trigger] self.values@[i]) is Some,
        {
            assert(all.take(iter.index() + 1).drop_last() =~= all.take(iter.index()));
            let ghost before = self.values@;
            if value.is_some() {
                self.values.push(value);
                assert(self.values@.drop_last() =~= before);
            }
        }
        assert(all.take(all.len() as int) =~= all);
        proof {
            live_all(self.values@);
        }
    }

    /// `popped` and `after` are what comes of taking a value out when these were drawn.
    ///
    /// A place is drawn. If that place is empty, one of the values that are there is.
    pub open spec fn popped(self, draws: Seq<Draw>, popped: Option<T>, after: Self) -> bool {
        let places = self.places();
        let first = if draws.len() > 0 {
            draws[0]->number as int
        } else {
            0
        };
        &&& self.dice().rolled(draws, after.dice())
        &&& places.len() > 0 ==> 0 <= first < places.len()
        &&& if places.len() == 0 {
            &&& draws.len() == 0
            &&& popped is None
            &&& after@ == self@
            &&& after.places() == places
        } else if places[first] is Some {
            &&& draws == seq![Draw::Below { end: places.len() as usize, number: first as usize }]
            &&& popped == places[first]
            &&& after@ == self@.remove(rank(places, first))
            &&& after.places() == places.update(first, None)
        } else if self@.len() == 0 {
            &&& draws == seq![Draw::Below { end: places.len() as usize, number: first as usize }]
            &&& popped is None
            &&& after@ == self@
            &&& after.places() == Seq::<Option<T>>::empty()
        } else {
            let second = draws[1]->number as int;
            &&& draws == seq![
                Draw::Below { end: places.len() as usize, number: first as usize },
                Draw::Below { end: self@.len() as usize, number: second as usize },
            ]
            &&& 0 <= second < self@.len()
            &&& popped == Some(self@[second])
            &&& after@ == self@.remove(second)
            &&& after.places() == places_of(self@).update(second, None)
        }
    }

    /// Takes a value out, picked at random. There is none only if the set is empty.
    pub fn pop(&mut self) -> (popped: Option<T>)
        ensures
            exists|draws: Seq<Draw>| #[trigger] old(self).popped(draws, popped, *final(self)),
            match popped {
                None => old(self)@.len() == 0 && final(self)@ == old(self)@,
                Some(value) => exists|k: int|
                    0 <= k < old(self)@.len() && value == #[trigger] old(self)@[k] && final(self)@
                        == old(self)@.remove(k),
            },
    {
        let end = self.values.len();
        if end == 0 {
            assert(old(self).popped(Seq::empty(), None, *self));
            return None;
        }
        let i = self.dice.below(end);
        let ghost draws = seq![Draw::Below { end, number: i }];
        match self.take_at(i) {
            Some(value) => {
                assert(old(self).popped(draws, Some(value), *self));
                return Some(value);
            },
            None => {},
        }
        self.compact();
        let end = self.values.len();
        if end == 0 {
            assert(self.places() =~= Seq::empty());
            assert(old(self).popped(draws, None, *self));
            return None;
        }
        let ghost mid = self.dice().state();
        let k = self.dice.below(end);
        let ghost places = self.places();
        let value = self.take_at(k);
        proof {
            let all = seq![draws[0], Draw::Below { end, number: k }];
            drawn_one(mid, all[1], self.dice().state());
            drawn_push(old(self).dice().state(), draws, mid, all[1], self.dice().state());
            assert(draws.push(all[1]) =~= all);
            assert(self.dice().draws() =~= old(self).dice().draws() + all);
            live_all_at(places, k as int);
            assert(old(self).popped(all, value, *self));
        }
        value
    }
}

/// These are coins.
pub open spec fn coins(tosses: Seq<bool>) -> Seq<Draw> {
    tosses.map_values(|heads: bool| Draw::Coin(heads))
}

/// A new delay, whose sending end was offered to the runner.
pub struct Offer {
    /// The two ends of its channel.
    pub ends: (Sender<Extra>, Receiver<Extra>),
    /// Whether the runner takes it.
    pub attempt: Result<(), TrySendError<Sender<Extra>>>,
}

impl Offer {
    /// It was made, and offered to the runner that learns of delays through `extras`.
    pub open spec fn made(self, extras: Sender<Sender<Extra>>) -> bool {
        &&& call_ensures(unbounded::<Extra>, (), self.ends)
        &&& call_ensures(Sender::<Sender<Extra>>::try_send, (&extras, self.ends.0), self.attempt)
    }
}

/// What of these delays went to the runner: their sending ends, in the order in which they were offered.
pub open spec fn starts(offers: Seq<Offer>) -> Seq<Sender<Extra>> {
    offers.map_values(|offer: Offer| offer.ends.0)
}

/// This delay was asked, and it is over.
pub open spec fn is_through(delay: Receiver<Extra>) -> bool {
    exists|over: Option<Extra>| #[trigger] received(delay, Poll::Ready(over))
}

/// `held` is what may come of going through the delay `extra`, or through others, with these coins,
/// when these delays were offered to the runner that learns of them through `extras`.
///
/// A delay that is not over is what comes back, and no coin is tossed. Else a coin is tossed: on heads
/// there is no delay, and on tails there is another one, unless there is no runner to end it. The
/// rounds are cut off after as many as a counter holds.
pub open spec fn held_up(
    extra: Option<Inbox<Extra>>,
    extras: Sender<Sender<Extra>>,
    tosses: Seq<bool>,
    offers: Seq<Offer>,
    held: Option<Inbox<Extra>>,
) -> bool {
    let heads = tosses.len() > 0 && tosses.last();
    &&& forall|i: int| 0 <= i < tosses.len() - 1 ==> !(#[trigger] tosses[i])
    &&& offers.len() == tosses.len() - if heads {
        1int
    } else {
        0
    }
    &&& forall|i: int| 0 <= i < offers.len() ==> (#[trigger] offers[i]).made(extras)
    &&& forall|i: int|
        0 <= i < tosses.len() - 1 ==> (#[trigger] offers[i]).attempt is Ok && is_through(
            offers[i].ends.1,
        )
    &&& if tosses.len() == 0 {
        &&& extra matches Some(before)
        &&& held matches Some(after)
        &&& before.asked(Receipt::Polled(Poll::Pending), after)
        &&& received(before.now(), Poll::<Option<Extra>>::Pending)
    } else {
        &&& extra matches Some(before) ==> is_through(before.now())
        &&& if heads || offers.last().attempt is Err {
            held is None
        } else {
            match held {
                Some(after) => {
                    &&& after.origin() == offers.last().ends.1
                    &&& after.receipts() == seq![Receipt::<Extra>::Polled(Poll::Pending)]
                    &&& received(offers.last().ends.1, Poll::<Option<Extra>>::Pending)
                },
                None => tosses.len() == u64::MAX,
            }
        }
    }
}

/// Goes through a delay, or through none. The rounds are cut off after as many as a counter holds.
fn hold_up(
    extra: Option<Inbox<Extra>>,
    extras: &mut Outbox<Sender<Extra>>,
    dice: &mut Dice,
    cx: &mut Context<'_>,
) -> (held: Option<Inbox<Extra>>)
    ensures
        exists|tosses: Seq<bool>, offers: Seq<Offer>| #[trigger]
            held_up(extra, old(extras).sender(), tosses, offers, held) && old(dice).rolled(
                coins(tosses),
                *final(dice),
            ) && old(extras).handing(starts(offers), *final(extras)),
{
    let ghost mut tosses = Seq::<bool>::empty();
    let ghost mut offers = Seq::<Offer>::empty();
    let ghost runner = extras.sender();
    assert(extras.handed() + starts(offers) =~= extras.handed());
    let mut delay = extra;
    let mut rounds: u64 = u64::MAX;
    while rounds > 0
        invariant
            forall|i: int| 0 <= i < tosses.len() ==> !(#[trigger] tosses[i]),
            tosses.len() == u64::MAX - rounds,
            offers.len() == tosses.len(),
            forall|i: int|
                0 <= i < offers.len() ==> (#[trigger] offers[i]).made(runner)
                    && offers[i].attempt is Ok,
            forall|i: int| 0 <= i < offers.len() - 1 ==> is_through((#[trigger] offers[i]).ends.1),
            tosses.len() == 0 ==> delay == extra,
            tosses.len() > 0 ==> {
                &&& extra matches Some(before) ==> is_through(before.now())
                &&& delay matches Some(inbox)
                &&& inbox.origin() == offers.last().ends.1
                &&& inbox.now() == offers.last().ends.1
                &&& inbox.receipts() == Seq::<Receipt<Extra>>::empty()
            },
            old(dice).rolled(coins(tosses), *dice),
            runner == old(extras).sender(),
            old(extras).handing(starts(offers), *extras),
        decreases rounds,
    {
        rounds -= 1;
        match delay {
            Some(inbox) => {
                let ghost asked = inbox.now();
                let mut inbox = inbox;
                let answer = inbox.poll(cx);
                assert(received(asked, answer));
                match answer {
                    Poll::Ready(over) => {
                        assert(received(asked, Poll::Ready(over)));
                    },
                    Poll::Pending => {
                        assert(held_up(extra, runner, tosses, offers, Some(inbox)));
                        return Some(inbox);
                    },
                }
            },
            None => {},
        }
        let ghost mid = dice.state();
        let heads = dice.coin();
        proof {
            drawn_push(old(dice).state(), coins(tosses), mid, Draw::Coin(heads), dice.state());
            assert(coins(tosses).push(Draw::Coin(heads)) =~= coins(tosses.push(heads)));
            tosses = tosses.push(heads);
            assert(old(dice).draws() + coins(tosses) =~= dice.draws());
        }
        if heads {
            assert(held_up(extra, runner, tosses, offers, None));
            return None;
        }
        let (sender, receiver) = unbounded();
        let ghost ends = (sender, receiver);
        assert(call_ensures(unbounded::<Extra>, (), ends));
        let attempt = extras.offer(sender);
        assert(call_ensures(Sender::<Sender<Extra>>::try_send, (&runner, ends.0), attempt));
        proof {
            let known = starts(offers);
            offers = offers.push(Offer { ends, attempt });
            assert(starts(offers) =~= known + seq![ends.0]);
            assert(extras.handed() =~= old(extras).handed() + starts(offers));
        }
        if attempt.is_err() {
            assert(held_up(extra, runner, tosses, offers, None));
            return None;
        }
        delay = Some(Inbox::new(receiver));
    }
    assert(held_up(extra, runner, tosses, offers, None));
    None
}

/// How a [`Local`] stream fails.
#[derive(Debug, PartialEq, Eq, Structural)]
pub enum TestError {
    /// It was closed, or nobody is at the other end.
    Closed,
}

/// The end of a stream that is held up at random.
#[verifier::reject_recursive_types(T)]
pub struct Local<T> {
    sender: Option<Outbox<T>>,
    receiver: Inbox<T>,
    ready_extra: Option<Inbox<Extra>>,
    flush_extra: Option<Inbox<Extra>>,
    close_extra: Option<Inbox<Extra>>,
    next_extra: Option<Inbox<Extra>>,
    extras: Outbox<Sender<Extra>>,
    dice: Dice,
}

/// What a [`Local`] stands for.
#[verifier::ext_equal]
#[verifier::reject_recursive_types(T)]
pub struct LocalView<T> {
    /// Where messages are sent, unless it is closed.
    pub sender: Option<Outbox<T>>,
    /// Where messages come from.
    pub inbox: Inbox<T>,
    /// The delay when it is asked whether it is ready.
    pub ready_extra: Option<Inbox<Extra>>,
    /// The delay when it is asked whether all was sent.
    pub flush_extra: Option<Inbox<Extra>>,
    /// The delay when it is asked to close.
    pub close_extra: Option<Inbox<Extra>>,
    /// The delay when it is asked for a message.
    pub next_extra: Option<Inbox<Extra>>,
    /// Where the runner learns of delays.
    pub extras: Outbox<Sender<Extra>>,
    /// The generator that delays are drawn with.
    pub dice: Dice,
}

impl<T> LocalView<T> {
    /// `held` and `after` are what may come of going through the delay `extra`, or through others:
    /// nothing changes but the generator, and what went to the runner.
    pub open spec fn held_up(
        self,
        extra: Option<Inbox<Extra>>,
        held: Option<Inbox<Extra>>,
        after: Self,
    ) -> bool {
        &&& after == LocalView { dice: after.dice, extras: after.extras, ..self }
        &&& exists|tosses: Seq<bool>, offers: Seq<Offer>| #[trigger]
            held_up(extra, self.extras.sender(), tosses, offers, held) && self.dice.rolled(
                coins(tosses),
                after.dice,
            ) && self.extras.handing(starts(offers), after.extras)
    }
}

impl<T> View for Local<T> {
    type V = LocalView<T>;

    closed spec fn view(&self) -> LocalView<T> {
        LocalView {
            sender: self.sender,
            inbox: self.receiver,
            ready_extra: self.ready_extra,
            flush_extra: self.flush_extra,
            close_extra: self.close_extra,
            next_extra: self.next_extra,
            extras: self.extras,
            dice: self.dice,
        }
    }
}

/// What a stream makes of what came through its channel.
pub open spec fn arrived<T>(received: Poll<Option<T>>) -> Poll<Option<Result<T, TestError>>> {
    match received {
        Poll::Ready(Some(value)) => Poll::Ready(Some(Ok(value))),
        Poll::Ready(None) => Poll::Ready(None),
        Poll::Pending => Poll::Pending,
    }
}

impl<T> Local<T> {
    /// Goes through the delay `extra`, or through others.
    fn pre_poll(&mut self, cx: &mut Context<'_>, extra: Option<Inbox<Extra>>) -> (held: Option<
        Inbox<Extra>,
    >)
        ensures
            old(self)@.held_up(extra, held, final(self)@),
    {
        let held = hold_up(extra, &mut self.extras, &mut self.dice, cx);
        proof {
            let (tosses, offers) = choose|tosses: Seq<bool>, offers: Seq<Offer>| #[trigger]
                held_up(extra, old(self).extras.sender(), tosses, offers, held) && old(
                    self,
                ).dice.rolled(coins(tosses), self.dice) && old(self).extras.handing(
                    starts(offers),
                    self.extras,
                );
            assert(held_up(extra, old(self)@.extras.sender(), tosses, offers, held));
        }
        held
    }
}

impl<T: Clone> ResultStream for Local<T> {
    type Msg = T;

    type Err = TestError;
}

impl<T> LocalView<T> {
    /// `answer` and `after` are what may come of asking for a message: unless it is held up, the
    /// channel is polled.
    pub open spec fn next_polled(
        self,
        answer: Poll<Option<Result<T, TestError>>>,
        after: Self,
    ) -> bool {
        exists|held: Option<Inbox<Extra>>, mid: Self| #[trigger]
            (LocalView { next_extra: None, ..self }).held_up(self.next_extra, held, mid)
                && match held {
                Some(_) => {
                    &&& after == LocalView { next_extra: held, ..mid }
                    &&& answer is Pending
                },
                None => exists|received: Poll<Option<T>>| #[trigger]
                    mid.inbox.asked(Receipt::Polled(received), after.inbox) && after == (
                    LocalView { inbox: after.inbox, ..mid }) && answer == arrived(received),
            }
    }

    /// `answer` and `after` are what may come of asking whether a message can be taken: unless it
    /// is held up, it can if the stream was not closed.
    pub open spec fn ready_polled(self, answer: Poll<Result<(), TestError>>, after: Self) -> bool {
        exists|held: Option<Inbox<Extra>>, mid: Self| #[trigger]
            (LocalView { ready_extra: None, ..self }).held_up(self.ready_extra, held, mid) && after
                == (LocalView { ready_extra: held, ..mid }) && answer == match held {
                Some(_) => Poll::<Result<(), TestError>>::Pending,
                None => Poll::Ready(
                    if self.sender is Some {
                        Ok(())
                    } else {
                        Err(TestError::Closed)
                    },
                ),
            }
    }

    /// `answer` and `after` are what may come of handing a message over: unless the stream was closed,
    /// the channel is offered the message, once, and it is taken if the channel takes it.
    pub open spec fn sent(self, msg: T, answer: Result<(), TestError>, after: Self) -> bool {
        match self.sender {
            Some(sender) => {
                &&& after.sender matches Some(outbox) && sender.handing(seq![msg], outbox)
                &&& after == LocalView { sender: after.sender, ..self }
                &&& exists|offered: Result<(), TrySendError<T>>| #[trigger]
                    call_ensures(Sender::<T>::try_send, (&sender.sender(), msg), offered) && (
                    answer is Ok <==> offered is Ok)
            },
            None => after == self && answer == Err::<(), TestError>(TestError::Closed),
        }
    }

    /// `answer` and `after` are what may come of asking whether all was sent: unless it is held up,
    /// it was.
    pub open spec fn flush_polled(self, answer: Poll<Result<(), TestError>>, after: Self) -> bool {
        exists|held: Option<Inbox<Extra>>, mid: Self| #[trigger]
            (LocalView { flush_extra: None, ..self }).held_up(self.flush_extra, held, mid) && after
                == (LocalView { flush_extra: held, ..mid }) && answer == match held {
                Some(_) => Poll::<Result<(), TestError>>::Pending,
                None => Poll::Ready(Ok(())),
            }
    }

    /// `answer` and `after` are what may come of asking the stream to close: unless it is held up,
    /// it is closed.
    pub open spec fn close_polled(self, answer: Poll<Result<(), TestError>>, after: Self) -> bool {
        exists|held: Option<Inbox<Extra>>, mid: Self| #[trigger]
            (LocalView { close_extra: None, ..self }).held_up(self.close_extra, held, mid)
                && match held {
                Some(_) => {
                    &&& after == LocalView { close_extra: held, ..mid }
                    &&& answer is Pending
                },
                None => {
                    &&& after == LocalView { sender: None, ..mid }
                    &&& answer == Poll::<Result<(), TestError>>::Ready(Ok(()))
                },
            }
    }
}

impl<T: Clone> PatternStream for Local<T> {
    fn poll_next(&mut self, cx: &mut Context<'_>) -> (answer: Poll<Option<Result<T, TestError>>>)
        ensures
            old(self)@.next_polled(answer, final(self)@),
    {
        let extra = self.next_extra.take();
        let held = self.pre_poll(cx, extra);
        match held {
            Some(inbox) => {
                self.next_extra = Some(inbox);
                return Poll::Pending;
            },
            None => {},
        }
        let received = self.receiver.poll(cx);
        match received {
            Poll::Ready(Some(value)) => Poll::Ready(Some(Ok(value))),
            Poll::Ready(None) => Poll::Ready(None),
            Poll::Pending => Poll::Pending,
        }
    }

    fn poll_ready(&mut self, cx: &mut Context<'_>) -> (answer: Poll<Result<(), TestError>>)
        ensures
            old(self)@.ready_polled(answer, final(self)@),
    {
        let extra = self.ready_extra.take();
        let held = self.pre_poll(cx, extra);
        match held {
            Some(inbox) => {
                self.ready_extra = Some(inbox);
                return Poll::Pending;
            },
            None => {},
        }
        if self.sender.is_some() {
            Poll::Ready(Ok(()))
        } else {
            Poll::Ready(Err(TestError::Closed))
        }
    }

    fn start_send(&mut self, msg: T) -> (answer: Result<(), TestError>)
        ensures
            old(self)@.sent(msg, answer, final(self)@),
    {
        match &mut self.sender {
            Some(sender) => match sender.offer(msg) {
                Ok(()) => Ok(()),
                Err(_) => Err(TestError::Closed),
            },
            None => Err(TestError::Closed),
        }
    }

    fn poll_flush(&mut self, cx: &mut Context<'_>) -> (answer: Poll<Result<(), TestError>>)
        ensures
            old(self)@.flush_polled(answer, final(self)@),
    {
        let extra = self.flush_extra.take();
        let held = self.pre_poll(cx, extra);
        match held {
            Some(inbox) => {
                self.flush_extra = Some(inbox);
                return Poll::Pending;
            },
            None => {},
        }
        Poll::Ready(Ok(()))
    }

    fn poll_close(&mut self, cx: &mut Context<'_>) -> (answer: Poll<Result<(), TestError>>)
        ensures
            old(self)@.close_polled(answer, final(self)@),
    {
        let extra = self.close_extra.take();
        let held = self.pre_poll(cx, extra);
        match held {
            Some(inbox) => {
                self.close_extra = Some(inbox);
                return Poll::Pending;
            },
            None => {},
        }
        self.sender = None;
        Poll::Ready(Ok(()))
    }
}

/// The other end, which is never held up.
#[verifier::reject_recursive_types(T)]
pub struct Remote<T> {
    sender: Sender<T>,
    receiver: Receiver<T>,
}

impl<T> Remote<T> {
    /// Where messages for the other end go.
    pub closed spec fn sender(&self) -> Sender<T> {
        self.sender
    }

    /// Sends a message, if the other end is still there: the channel is offered it.
    pub fn send(&self, value: T)
        ensures
            offered(self.sender(), value),
    {
        let ghost given = value;
        let attempt = self.sender.try_send(value);
        assert(call_ensures(Sender::<T>::try_send, (&self.sender, given), attempt));
    }

    /// Where messages of the other end come from.
    pub closed spec fn receiver(&self) -> Receiver<T> {
        self.receiver
    }

    /// The next message, if there is one: what `Receiver::try_recv` gives.
    ///
    /// What comes rests on what the other end has sent.
    pub fn recv(&self) -> (item: Option<T>)
        ensures
            exists|received: Result<T, TryRecvError>| #[trigger]
                call_ensures(Receiver::<T>::try_recv, (&self.receiver(),), received) && item
                    == received.ok(),
    {
        let received = self.receiver.try_recv();
        assert(call_ensures(Receiver::<T>::try_recv, (&self.receiver(),), received));
        received.ok()
    }
}

/// Something that comes after a random delay.
pub struct Event {
    extra: Option<Inbox<Extra>>,
    extras: Outbox<Sender<Extra>>,
    dice: Dice,
}

impl Event {
    /// Its delay.
    pub closed spec fn extra(&self) -> Option<Inbox<Extra>> {
        self.extra
    }

    /// The generator that delays are drawn with.
    pub closed spec fn dice(&self) -> Dice {
        self.dice
    }

    /// Where the runner learns of delays.
    pub closed spec fn extras(&self) -> Outbox<Sender<Extra>> {
        self.extras
    }

    /// `answer` and `after` are what may come of asking whether it has come: it has unless it is
    /// held up.
    pub open spec fn polled(self, answer: Poll<()>, after: Self) -> bool {
        &&& exists|tosses: Seq<bool>, offers: Seq<Offer>| #[trigger]
            held_up(self.extra(), self.extras().sender(), tosses, offers, after.extra())
                && self.dice().rolled(coins(tosses), after.dice()) && self.extras().handing(
                starts(offers),
                after.extras(),
            )
        &&& after.extra() is Some <==> answer is Pending
    }

    /// Asks whether it has come: it has unless it is held up.
    pub fn poll(&mut self, cx: &mut Context<'_>) -> (answer: Poll<()>)
        ensures
            old(self).polled(answer, *final(self)),
    {
        let extra = self.extra.take();
        let held = hold_up(extra, &mut self.extras, &mut self.dice, cx);
        let ghost kept = held;
        self.extra = held;
        proof {
            let (tosses, offers) = choose|tosses: Seq<bool>, offers: Seq<Offer>| #[trigger]
                held_up(old(self).extra, old(self).extras.sender(), tosses, offers, kept) && old(
                    self,
                ).dice.rolled(coins(tosses), self.dice) && old(self).extras.handing(
                    starts(offers),
                    self.extras,
                );
            assert(held_up(
                old(self).extra(),
                old(self).extras().sender(),
                tosses,
                offers,
                self.extra(),
            ));
        }
        match self.extra {
            Some(_) => Poll::Pending,
            None => Poll::Ready(()),
        }
    }
}

impl Unpin for Event {

}

impl Future for Event {
    type Output = ();

    fn poll(self: Pin<&mut Self>, cx: &mut Context<'_>) -> (answer: Poll<()>)
        ensures
            exists|inner: &mut Event| #[trigger]
                unpinned(self, inner) && inner.polled(answer, *final(inner)),
    {
        let ghost pinned = self;
        let inner = self.get_mut();
        assert(unpinned(pinned, inner));
        Event::poll(inner, cx)
    }
}

/// Ends the delays of its streams and events, one at a time, in random order.
pub struct Runner {
    set: PopSet<Sender<Extra>>,
    receiver: Receiver<Sender<Extra>>,
    sender: Sender<Sender<Extra>>,
}

impl Runner {
    /// The delays that it knows of, as they are kept.
    pub closed spec fn set(&self) -> PopSet<Sender<Extra>> {
        self.set
    }

    /// The delays that it knows of.
    pub open spec fn delays(&self) -> Seq<Sender<Extra>> {
        self.set()@
    }

    /// The generator that delays are picked with.
    pub open spec fn dice(&self) -> Dice {
        self.set().dice()
    }

    /// Where it learns of delays.
    pub closed spec fn extras(&self) -> Sender<Sender<Extra>> {
        self.sender
    }

    /// The other end of where it learns of delays.
    pub closed spec fn receiver(&self) -> Receiver<Sender<Extra>> {
        self.receiver
    }

    /// A runner that knows of no delays.
    pub fn new(seed: u64) -> (runner: Self)
        ensures
            call_ensures(unbounded::<Sender<Extra>>, (), (runner.extras(), runner.receiver())),
            runner.delays() == Seq::<Sender<Extra>>::empty(),
            runner.dice().is_new(seed),
    {
        let (sender, receiver) = unbounded();
        assert(call_ensures(unbounded::<Sender<Extra>>, (), (sender, receiver)));
        Runner { set: PopSet::new(seed), receiver, sender }
    }

    /// These delays may have come up: each is what `Receiver::try_recv` gave, and so it was asked until
    /// it gave none, or for as many rounds as a counter holds.
    pub open spec fn came_up(self, came: Seq<Sender<Extra>>) -> bool {
        &&& forall|i: int| #![trigger came[i]]
            0 <= i < came.len() ==> call_ensures(
                Receiver::<Sender<Extra>>::try_recv,
                (&self.receiver(),),
                Ok(came[i]),
            )
        &&& came.len() < u64::MAX ==> exists|none: TryRecvError| #[trigger]
            call_ensures(Receiver::<Sender<Extra>>::try_recv, (&self.receiver(),), Err(none))
    }

    /// `res` and `after` are what may come of a step when these delays had come up meanwhile: one of
    /// those that are known then is popped, unless there is none.
    pub open spec fn stepped(self, came: Seq<Sender<Extra>>, res: bool, after: Self) -> bool {
        &&& after.extras() == self.extras()
        &&& after.receiver() == self.receiver()
        &&& self.came_up(came)
        &&& exists|known: PopSet<Sender<Extra>>, draws: Seq<Draw>, popped: Option<Sender<Extra>>|
            #[trigger]
            known.popped(draws, popped, after.set()) && (res <==> popped is Some) && known@
                == self.delays() + came && known.places() == self.set().places() + places_of(came)
                && known.dice() == self.dice()
    }

    /// Ends one delay. There is none if this gives `false`.
    pub fn step(&mut self) -> (res: bool)
        ensures
            exists|came: Seq<Sender<Extra>>| #[trigger]
                old(self).stepped(came, res, *final(self)),
    {
        let ghost mut came = Seq::<Sender<Extra>>::empty();
        let mut rounds: u64 = u64::MAX;
        let mut more = true;
        assert(old(self).delays() + came =~= old(self).delays());
        assert(old(self).set().places() + places_of(came) =~= old(self).set().places());
        while more && rounds > 0
            invariant
                self.delays() == old(self).delays() + came,
                self.set().places() == old(self).set().places() + places_of(came),
                self.dice() == old(self).dice(),
                self.extras() == old(self).extras(),
                self.receiver() == old(self).receiver(),
                more ==> came.len() == u64::MAX - rounds,
                forall|i: int| #![trigger came[i]]
                    0 <= i < came.len() ==> call_ensures(
                        Receiver::<Sender<Extra>>::try_recv,
                        (&self.receiver(),),
                        Ok(came[i]),
                    ),
                more || exists|none: TryRecvError| #[trigger]
                    call_ensures(
                        Receiver::<Sender<Extra>>::try_recv,
                        (&self.receiver(),),
                        Err(none),
                    ),
            decreases rounds,
        {
            rounds -= 1;
            let received = self.receiver.try_recv();
            assert(call_ensures(
                Receiver::<Sender<Extra>>::try_recv,
                (&self.receiver(),),
                received,
            ));
            match received {
                Ok(sender) => {
                    self.set.push(sender);
                    proof {
                        came = came.push(sender);
                        assert(self.delays() =~= old(self).delays() + came);
                        assert(self.set().places() =~= old(self).set().places() + places_of(
                            came,
                        ));
                    }
                },
                Err(none) => {
                    assert(call_ensures(
                        Receiver::<Sender<Extra>>::try_recv,
                        (&self.receiver(),),
                        Err(none),
                    ));
                    more = false;
                },
            }
        }
        let ghost known = self.set;
        let popped = self.set.pop();
        let ghost seen = popped;
        let res = popped.is_some();
        proof {
            let draws = choose|draws: Seq<Draw>| #[trigger] known.popped(draws, seen, self.set);
            assert(known.popped(draws, seen, self.set()));
            assert(old(self).stepped(came, res, *self));
        }
        res
    }

    /// The two ends of a stream, of which the local one is held up at random.
    pub fn channel<T>(&mut self) -> (ends: (Local<T>, Remote<T>))
        ensures
            final(self).delays() == old(self).delays(),
            final(self).extras() == old(self).extras(),
            final(self).receiver() == old(self).receiver(),
            ends.0@.dice.is_new(next_word(old(self).dice().state()).0),
            old(self).dice().rolled(
                seq![Draw::Seed(next_word(old(self).dice().state()).0)],
                final(self).dice(),
            ),
            final(self).dice().state() == next_word(old(self).dice().state()).1,
            ends.0@.extras.sender() == old(self).extras(),
            ends.0@.extras.handed() == Seq::<Sender<Extra>>::empty(),
            ends.0@.sender matches Some(outbox) && outbox.handed() == Seq::<T>::empty()
                && call_ensures(unbounded::<T>, (), (outbox.sender(), ends.1.receiver())),
            call_ensures(unbounded::<T>, (), (ends.1.sender(), ends.0@.inbox.origin())),
            ends.0@.inbox.receipts() == Seq::<Receipt<T>>::empty(),
            ends.0@.ready_extra is None,
            ends.0@.flush_extra is None,
            ends.0@.close_extra is None,
            ends.0@.next_extra is None,
    {
        let (local_sender, foreign_receiver) = unbounded();
        assert(call_ensures(unbounded::<T>, (), (local_sender, foreign_receiver)));
        let (foreign_sender, local_receiver) = unbounded();
        assert(call_ensures(unbounded::<T>, (), (foreign_sender, local_receiver)));
        let dice = self.set.fork();
        let local = Local {
            sender: Some(Outbox::new(local_sender)),
            receiver: Inbox::new(local_receiver),
            ready_extra: None,
            flush_extra: None,
            close_extra: None,
            next_extra: None,
            extras: Outbox::new(self.sender.clone()),
            dice,
        };
        (local, Remote { sender: foreign_sender, receiver: foreign_receiver })
    }

    /// Something that comes after a random delay.
    pub fn event(&mut self) -> (event: Event)
        ensures
            final(self).delays() == old(self).delays(),
            final(self).extras() == old(self).extras(),
            final(self).receiver() == old(self).receiver(),
            event.dice().is_new(next_word(old(self).dice().state()).0),
            old(self).dice().rolled(
                seq![Draw::Seed(next_word(old(self).dice().state()).0)],
                final(self).dice(),
            ),
            final(self).dice().state() == next_word(old(self).dice().state()).1,
            event.extras().sender() == old(self).extras(),
            event.extras().handed() == Seq::<Sender<Extra>>::empty(),
            event.extra() is None,
    {
        Event {
            extra: None,
            extras: Outbox::new(self.sender.clone()),
            dice: self.set.fork(),
        }
    }
}

/// **The same seed gives the same delays.** As many coins that are tossed with generators in the
/// same state fall the same way, and leave the generators in the same state.
pub proof fn same_state_same_tosses(
    from: StdRng,
    one: Seq<bool>,
    after_one: StdRng,
    other: Seq<bool>,
    after_other: StdRng,
)
    requires
        drawn(from, coins(one), after_one),
        drawn(from, coins(other), after_other),
        one.len() == other.len(),
    ensures
        one == other,
        after_one == after_other,
    decreases one.len(),
{
    if one.len() > 0 {
        assert(coins(one).drop_last() =~= coins(one.drop_last()));
        assert(coins(other).drop_last() =~= coins(other.drop_last()));
        let mid_one = choose|mid: StdRng|
            drawn(from, coins(one).drop_last(), mid) && #[trigger] coins(one).last().takes(
                mid,
                after_one,
            );
        let mid_other = choose|mid: StdRng|
            drawn(from, coins(other).drop_last(), mid) && #[trigger] coins(other).last().takes(
                mid,
                after_other,
            );
        same_state_same_tosses(from, one.drop_last(), mid_one, other.drop_last(), mid_other);
        assert(one =~= one.drop_last().push(one.last()));
    } else {
        assert(one =~= other);
    }
}

/// **Each value comes out once.** What is taken out of a set was in it, and what is left is the rest.
pub proof fn popped_is_gone<T>(
    before: PopSet<T>,
    draws: Seq<Draw>,
    popped: Option<T>,
    after: PopSet<T>,
)
    requires
        before.popped(draws, popped, after),
    ensures
        popped is None <==> before@.len() == 0,
        match popped {
            None => after@ == before@,
            Some(value) => {
                &&& before@.contains(value)
                &&& before@.to_multiset() == after@.to_multiset().insert(value)
            },
        },
{
    before.places_hold();
    let places = before.places();
    if popped is Some {
        let first = draws[0]->number as int;
        let k = if places[first] is Some {
            live_take(places, first);
            rank(places, first)
        } else {
            draws[1]->number as int
        };
        assert(before@[k] == popped.unwrap());
        before@.to_multiset_ensures();
        assert(after@.to_multiset() =~= before@.to_multiset().remove(before@[k]));
        assert(before@.to_multiset() =~= after@.to_multiset().insert(before@[k]));
    } else if places.len() == 0 {
        assert(before@.len() == 0);
    }
}

/// **Each step ends one delay.** After a step there is one delay less than there was, counting those
/// that had come up meanwhile, unless there was none. So when no more come up, as many steps as there
/// are delays end them all.
pub proof fn step_ends_one_delay(
    before: Runner,
    came: Seq<Sender<Extra>>,
    res: bool,
    after: Runner,
)
    requires
        before.stepped(came, res, after),
    ensures
        res <==> before.delays().len() + came.len() > 0,
        after.delays().len() == before.delays().len() + came.len() - if res {
            1int
        } else {
            0
        },
{
    let (known, draws, popped) = choose|
        known: PopSet<Sender<Extra>>,
        draws: Seq<Draw>,
        popped: Option<Sender<Extra>>,
    |
        #[trigger]
        known.popped(draws, popped, after.set()) && (res <==> popped is Some) && known@
            == before.delays() + came && known.places() == before.set().places() + places_of(came)
            && known.dice() == before.dice();
    popped_is_gone(known, draws, popped, after.set());
    known.places_hold();
    if popped is Some {
        let first = draws[0]->number as int;
        if known.places()[first] is Some {
            live_take(known.places(), first);
        }
    }
}

} // verus!
