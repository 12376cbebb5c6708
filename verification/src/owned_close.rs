//! Streams that are being closed.
use crate::stream::{Call, PatternStream, Peer};
use core::task::{Context, Poll};
use vstd::prelude::*;

verus! {

/// A stream that is being closed.
#[verifier::reject_recursive_types(S)]
pub struct OwnedClose<S: PatternStream>(Peer<S>);

impl<S: PatternStream> OwnedClose<S> {
    /// The stream.
    pub closed spec fn peer(&self) -> Peer<S> {
        self.0
    }

    /// Sets out to close a stream.
    pub fn new(peer: Peer<S>) -> (closing: Self)
        ensures
            closing.peer() == peer,
    {
        OwnedClose(peer)
    }

    /// Asks the stream to close.
    pub fn poll(&mut self, cx: &mut Context<'_>) -> (answer: Poll<Result<(), S::Err>>)
        ensures
            old(self).peer().called(Call::Close(answer), final(self).peer()),
    {
        self.0.poll_close(cx)
    }
}

/// Streams that are being closed, all at once.
#[verifier::reject_recursive_types(S)]
pub struct CloseSet<S: PatternStream> {
    closing: Vec<OwnedClose<S>>,
}

impl<S: PatternStream> View for CloseSet<S> {
    type V = Seq<Peer<S>>;

    closed spec fn view(&self) -> Seq<Peer<S>> {
        Seq::new(self.closing@.len(), |i: int| self.closing@[i].peer())
    }
}

/// `after` and `answer` are what comes of asking the streams `before` to close, one
/// after the other, until one has an answer. `asked` are those that were asked, as
/// they are afterwards. The one that has an answer leaves.
pub open spec fn closed_round<S: PatternStream>(
    before: Seq<Peer<S>>,
    asked: Seq<Peer<S>>,
    answer: Poll<Option<Result<(), S::Err>>>,
    after: Seq<Peer<S>>,
) -> bool {
    let n = asked.len() as int;
    &&& n <= before.len()
    &&& match answer {
        Poll::Ready(Some(closed)) => {
            &&& n > 0
            &&& forall|i: int|
                0 <= i < n - 1 ==> before[i].called(
                    Call::Close(Poll::Pending),
                    #[trigger] asked[i],
                )
            &&& before[n - 1].called(Call::Close(Poll::Ready(closed)), asked[n - 1])
            &&& after == asked.drop_last() + before.skip(n)
        },
        Poll::Ready(None) => {
            &&& before.len() == 0
            &&& after.len() == 0
        },
        Poll::Pending => {
            &&& n == before.len()
            &&& n > 0
            &&& forall|i: int|
                0 <= i < n ==> before[i].called(Call::Close(Poll::Pending), #[trigger] asked[i])
            &&& after == asked
        },
    }
}

impl<S: PatternStream> CloseSet<S> {
    /// Nothing is being closed.
    pub fn new() -> (set: Self)
        ensures
            set@ == Seq::<Peer<S>>::empty(),
    {
        let set = CloseSet { closing: Vec::new() };
        set
    }

    /// Sets out to close one more stream.
    pub fn push(&mut self, peer: Peer<S>)
        ensures
            final(self)@ == old(self)@.push(peer),
    {
        self.closing.push(OwnedClose::new(peer));
    }

    /// Sets out to close more streams.
    pub fn extend(&mut self, peers: Vec<Peer<S>>)
        ensures
            final(self)@ == old(self)@ + peers@,
    {
        let ghost all = peers@;
        for peer in iter: peers
            invariant
                iter.seq() == all,
                self@ == old(self)@ + all.take(iter.index()),
        {
            self.push(peer);
        }
    }

    /// Whether nothing is being closed.
    pub fn is_empty(&self) -> (empty: bool)
        ensures
            empty == (self@.len() == 0),
    {
        self.closing.len() == 0
    }

    /// Asks the streams to close, and gives the result of the first that has one.
    pub fn poll_next(&mut self, cx: &mut Context<'_>) -> (answer: Poll<
        Option<Result<(), S::Err>>,
    >)
        ensures
            exists|asked: Seq<Peer<S>>| #[trigger]
                closed_round(old(self)@, asked, answer, final(self)@),
    {
        if self.closing.len() == 0 {
            assert(closed_round(
                old(self)@,
                Seq::empty(),
                Poll::<Option<Result<(), S::Err>>>::Ready(None),
                self@,
            ));
            return Poll::Ready(None);
        }
        let ghost before = self@;
        let mut i: usize = 0;
        while i < self.closing.len()
            invariant
                before == old(self)@,
                before.len() > 0,
                i <= before.len(),
                self.closing@.len() == before.len(),
                forall|j: int|
                    0 <= j < i ==> before[j].called(Call::Close(Poll::Pending), #[trigger] self@[j]),
                forall|j: int| i <= j < before.len() ==> #[trigger] self@[j] == before[j],
            decreases before.len() - i,
        {
            let ghost mid = self@;
            assert(mid[i as int] == before[i as int]);
            let answer = self.closing[i].poll(cx);
            assert(self@ =~= mid.update(i as int, self.closing@[i as int].peer()));
            match answer {
                Poll::Ready(closed) => {
                    let ghost polled = self@;
                    let ghost asked = polled.take(i + 1);
                    let _ = self.closing.remove(i);
                    proof {
                        assert(forall|j: int| i < j < before.len() ==> polled[j] == before[j]);
                        assert(self@ =~= asked.drop_last() + before.skip(i + 1));
                        assert(closed_round(before, asked, Poll::Ready(Some(closed)), self@));
                    }
                    return Poll::Ready(Some(closed));
                },
                Poll::Pending => {
                    i += 1;
                },
            }
        }
        assert(closed_round(before, self@, Poll::<Option<Result<(), S::Err>>>::Pending, self@));
        Poll::Pending
    }
}

} // verus!
