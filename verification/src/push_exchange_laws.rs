//! That a message is pushed to a stream once, and seen through.
use crate::calls::{says_ready, will_wake};
use crate::chain_laws::no_stream_without_the_turn;
use crate::channel::Receipt;
use crate::exchange_laws::{
    all_close, all_rest, course, course_on, line_rests, one_at_a_time, takes, unsent,
};
use crate::line_laws::{a_free_turn_is_taken, some_has_more};
use crate::push_impl::{PushError, PushView, State, StatePoll};
use crate::push_laws::stream_polled_law;
use crate::push_stream::{Chain, Key, Round};
use crate::report_laws::{is_gone, report_of};
use crate::req_exchange_laws::{hands_over, went_on};
use crate::stream::{Call, Done, PatternStream, Peer};
use crate::task::Step;
use core::task::Poll;
use vstd::prelude::*;

verus! {

/// It was asked for nothing but to send what it has taken.
pub open spec fn only_sends<M, E>(more: Seq<Call<M, E>>) -> bool {
    forall|i: int| 0 <= i < more.len() ==> (#[trigger] more[i]) is Flush
}

impl<S: PatternStream> PushView<S> {
    /// The streams in line are at rest, and so is the one in hand, unless it has taken the message
    /// in hand. Then it is asked for nothing but to send it. Those that are being closed are asked
    /// for nothing else.
    pub open spec fn in_step(self) -> bool {
        &&& all_rest(self.streams.members, false)
        &&& all_close(self.closing, false)
        &&& match self.state {
            State::Pending | State::Msg(_) => true,
            State::Stream(peer, _) => course(peer.calls(), false) is Rest,
            State::Readying(_, peer, _) => course(peer.calls(), false) is Rest,
            State::Sending(_, peer, _) => course(peer.calls(), false) is Taken,
        }
    }

    /// The message in hand is still in hand, with this stream.
    pub open spec fn stays_with(self, later: Peer<S>, after: Self) -> bool {
        &&& after.state.held() == Some(later)
        &&& after.state.msg() == self.state.msg()
    }

    /// This stream has just sent the message in hand, and is the last in line.
    pub open spec fn is_sent_by(self, later: Peer<S>, after: Self) -> bool {
        &&& later.calls().last() matches Call::Flush(Poll::Ready(Ok(_)))
        &&& after.state is Pending
        &&& after.streams.members.len() > 0
        &&& after.streams.members.last() == later
    }

    /// This was reported since.
    pub open spec fn reported(self, done: Done<S>, after: Self) -> bool {
        exists|i: int|
            self.streams.done.handed().len() <= i < after.streams.done.handed().len()
                && #[trigger] after.streams.done.handed()[i] == done
    }

    /// This stream is gone, and that was reported. The message in hand is still in hand, unless
    /// there are no streams, and can be none.
    pub open spec fn is_left_by(self, later: Peer<S>, after: Self) -> bool {
        &&& is_gone(later)
        &&& self.reported(report_of(later), after)
        &&& after.state.msg() == self.state.msg() || after.state is Pending && after.out_of_streams()
    }

    /// These things more were asked of the stream in hand, and this came of it. If it has not taken
    /// the message in hand, it was asked whether it is ready, and was handed a copy exactly if it
    /// said so. If it has, it was asked for nothing but to send it.
    pub open spec fn sees_through(
        self,
        more: Seq<Call<S::Msg, S::Err>>,
        later: Peer<S>,
        after: Self,
    ) -> bool {
        let peer = self.state.held().unwrap();
        &&& went_on(peer, more, later)
        &&& if unsent(peer.calls()) == 0 {
            &&& more.len() > 0 ==> more[0] is Ready
            &&& more.len() <= 2
            &&& more.len() == 2 <==> more.len() > 0 && says_ready(more[0])
            &&& more.len() == 2 ==> hands_over(more[1], self.state.msg().unwrap())
            &&& self.stays_with(later, after) || self.is_left_by(later, after)
        } else {
            &&& only_sends(more)
            &&& takes(later.calls()) == takes(peer.calls())
            &&& {
                ||| self.stays_with(later, after) && unsent(later.calls()) == 1
                ||| self.is_sent_by(later, after)
                ||| self.is_left_by(later, after)
            }
        }
    }

    /// There are no streams in line. It was not just said that none can come.
    pub open spec fn lacks_streams(self) -> bool {
        &&& self.streams.members.len() == 0
        &&& self.streams.ready.receipts().last() != Receipt::<S>::Closed(true)
    }

    /// It fails exactly if there is no stream, in line or in hand, and it was just said that none
    /// can come.
    pub open spec fn fails_for_cause(self, res: StatePoll<S>) -> bool {
        res matches StatePoll::Poll(Poll::Ready(Err(_))) <==> self.state.held() is None
            && self.out_of_streams()
    }

    /// A stream came when one was last asked for.
    pub open spec fn has_comer(self) -> bool {
        &&& self.streams.ready.receipts().len() > 0
        &&& self.streams.ready.receipts().last() matches Receipt::Polled(Poll::Ready(Some(_)))
    }
}

/// A look at the streams asks nothing of the one in hand.
proof fn look_in_step<S: PatternStream>(
    before: PushView<S>,
    res: StatePoll<S>,
    after: PushView<S>,
)
    requires
        before.sound(),
        before.stream_polled(res, after),
        before.in_step(),
    ensures
        after.in_step(),
        before.state.has_key() ==> after.state == before.state,
        before.streams.done.handed().len() <= after.streams.done.handed().len(),
        forall|i: int|
            0 <= i < before.streams.done.handed().len()
                ==> #[trigger] after.streams.done.handed()[i] == before.streams.done.handed()[i],
        res is Again ==> after.state == before.state && (after.has_comer() || some_has_more(
            after.streams.members,
        )),
        before.state is Msg && !(before.streams.turn is Lost) && !(res is Again)
            && after.state is Msg ==> after.lacks_streams() && res == StatePoll::<S>::Poll(
            Poll::Pending,
        ),
        before.state is Msg && res is Continue ==> after.state is Readying,
        before.state is Msg ==> after.fails_for_cause(res),
{
    let (round, step) = choose|round: Round<S>, step: Step<Option<(Peer<S>, Key)>>| #[trigger]
        before.streams.polled(round, step, after.streams) && after.closing == before.closing && (
        after.state,
        res,
    ) == match step {
            Step::Ready(ready) => before.state.on_streams_spec(Poll::Ready(ready)),
            Step::Pending => before.state.on_streams_spec(Poll::Pending),
            Step::Again => (before.state, StatePoll::Again),
        };
    line_rests(before.streams, round, step, after.streams, false);
    a_free_turn_is_taken(before.streams, round, step, after.streams);
    if !(before.streams.turn is Free) {
        no_stream_without_the_turn(before.streams, round, step, after.streams);
    }
}

/// The stream that had the message is gone.
proof fn failed_in_step<S: PatternStream>(
    before: PushView<S>,
    msg: S::Msg,
    error: S::Err,
    later: Peer<S>,
    res: StatePoll<S>,
    after: PushView<S>,
)
    requires
        before.sound(),
        before.state.has_key(),
        before.state.msg() == Some(msg),
        before.in_step(),
        is_gone(later),
        report_of(later) == Some(error),
        before.failed(msg, error, res, after),
    ensures
        after.in_step(),
        before.is_left_by(later, after),
        res == StatePoll::<S>::Poll(Poll::Pending) ==> after.lacks_streams() && after.state is Msg,
        after.fails_for_cause(res),
{
    let mid = choose|mid: Chain<S>| #[trigger]
        before.streams.gave_back(seq![Some(error)], mid) && (PushView {
            streams: mid,
            ..before
        }).assigned(msg, res, after);
    let freed = PushView { streams: mid, state: State::Msg(msg), closing: before.closing };
    stream_polled_law(freed, res, after);
    look_in_step(freed, res, after);
    let n = before.streams.done.handed().len() as int;
    assert(mid.done.handed()[n] == Some(error));
    assert(after.streams.done.handed()[n] == Some(error));
}

/// What is asked of the stream in hand in one look at the state, and what comes of it.
proof fn state_in_step<S: PatternStream>(
    before: PushView<S>,
    res: StatePoll<S>,
    after: PushView<S>,
) -> (out: (Seq<Call<S::Msg, S::Err>>, Peer<S>))
    requires
        before.sound(),
        before.state is Readying || before.state is Sending,
        before.in_step(),
        before.state_polled(res, after),
    ensures
        after.in_step(),
        before.sees_through(out.0, out.1, after),
        res == StatePoll::<S>::Poll(Poll::Pending) ==> match after.state.held() {
            Some(peer) => will_wake(peer.calls()),
            None => after.lacks_streams() && after.state is Msg,
        },
        res is Continue || res is Again ==> before.state is Readying && after.state is Sending
            || before.is_left_by(out.1, after),
        after.fails_for_cause(res),
{
    match before.state {
        State::Readying(msg, peer, key) => {
            let (ready, asked) = choose|ready: Poll<Result<(), S::Err>>, asked: Peer<S>| #[trigger]
                peer.called(Call::Ready(ready), asked) && match ready {
                    Poll::Pending => {
                        &&& after == PushView { state: State::Readying(msg, asked, key), ..before }
                        &&& res == StatePoll::<S>::Poll(Poll::Pending)
                    },
                    Poll::Ready(Err(error)) => before.failed(msg, error, res, after),
                    Poll::Ready(Ok(())) => before.handed_over(msg, asked, key, res, after),
                };
            course_on(peer, Call::Ready(ready), asked);
            one_at_a_time(peer.calls(), false);
            let one = seq![Call::Ready(ready)];
            assert(asked.calls() =~= peer.calls() + one);
            match ready {
                Poll::Pending => {
                    assert(course(asked.calls(), false) is Rest);
                    (one, asked)
                },
                Poll::Ready(Err(error)) => {
                    failed_in_step(before, msg, error, asked, res, after);
                    (one, asked)
                },
                Poll::Ready(Ok(nothing)) => {
                    let (handed, done, given) = choose|
                        handed: S::Msg,
                        done: Result<(), S::Err>,
                        given: Peer<S>,
                    | #[trigger]
                        asked.called(Call::Send(handed, done), given) && cloned(msg, handed)
                            && match done {
                            Ok(()) => {
                                &&& after == PushView {
                                    state: State::Sending(msg, given, key),
                                    ..before
                                }
                                &&& res is Continue
                            },
                            Err(error) => before.failed(msg, error, res, after),
                        };
                    course_on(asked, Call::Send(handed, done), given);
                    let two = one.push(Call::Send(handed, done));
                    assert(given.calls() =~= peer.calls() + two);
                    match done {
                        Ok(_) => {
                            assert(course(asked.calls(), false) is Armed);
                            assert(course(given.calls(), false) is Taken);
                        },
                        Err(error) => {
                            failed_in_step(before, msg, error, given, res, after);
                        },
                    }
                    (two, given)
                },
            }
        },
        State::Sending(msg, peer, key) => {
            let (flushed, asked) = choose|flushed: Poll<Result<(), S::Err>>, asked: Peer<S>| #[trigger]
                peer.called(Call::Flush(flushed), asked) && match flushed {
                    Poll::Pending => {
                        &&& after == PushView { state: State::Sending(msg, asked, key), ..before }
                        &&& res == StatePoll::<S>::Poll(Poll::Pending)
                    },
                    Poll::Ready(Err(error)) => before.failed(msg, error, res, after),
                    Poll::Ready(Ok(())) => {
                        &&& after.state is Pending
                        &&& after.closing == before.closing
                        &&& (Chain {
                            members: before.streams.members.push(asked),
                            ..before.streams
                        }).gave_back(Seq::empty(), after.streams)
                        &&& res == StatePoll::<S>::Poll(Poll::Ready(Ok(())))
                    },
                };
            course_on(peer, Call::Flush(flushed), asked);
            one_at_a_time(peer.calls(), false);
            let one = seq![Call::Flush(flushed)];
            assert(asked.calls() =~= peer.calls() + one);
            match flushed {
                Poll::Ready(Err(error)) => {
                    failed_in_step(before, msg, error, asked, res, after);
                },
                Poll::Ready(Ok(_)) => {
                    assert(course(asked.calls(), false) is Rest);
                },
                Poll::Pending => {
                    one_at_a_time(asked.calls(), false);
                },
            }
            (one, asked)
        },
        _ => arbitrary(),
    }
}

/// **A message is handed to a stream once, and seen through.** While a message is in hand, the
/// stream in hand is asked whether it is ready, and is handed a copy when it says so. Once it has
/// taken it, it is handed nothing else, and asked only to send it, until it has, or is gone, which
/// is reported. Then the message stays in hand, unless there are no streams, and can be none.
/// Nothing can be done at once only if the stream in hand has something to do, and will wake the
/// task, or if there is no stream for the message.
pub proof fn a_message_is_handed_over_once<S: PatternStream>(
    before: PushView<S>,
    step: Step<Result<(), PushError<S>>>,
    after: PushView<S>,
)
    requires
        before.sound(),
        before.in_step(),
        before.state.msg() is None || !(before.streams.turn is Lost),
        before.flushed(step, after),
    ensures
        after.in_step(),
        before.state.msg() is Some && before.state.held() is Some ==> exists|
            more: Seq<Call<S::Msg, S::Err>>,
            later: Peer<S>,
        | #[trigger]
            before.sees_through(more, later, after),
        step is Pending ==> match after.state.held() {
            Some(peer) => will_wake(peer.calls()),
            None => after.lacks_streams() && after.state is Msg,
        },
        before.state.msg() is None ==> !(step is Pending) && (step is Again ==> after.has_comer()
            || some_has_more(after.streams.members)),
        before.state.msg() is Some ==> (step matches Step::Ready(Err(_)) <==> after.state.held() is None
            && after.out_of_streams()),
        before.state.msg() is Some && step == Step::<Result<(), PushError<S>>>::Ready(Ok(()))
            ==> after.state is Pending && after.streams.members.len() > 0,
        step is Again ==> {
            ||| after.has_comer()
            ||| some_has_more(after.streams.members)
            ||| after.streams.done.handed().len() > before.streams.done.handed().len()
            ||| after.state.rank() > before.state.rank()
        },
{
    let (first, mid) = choose|first: StatePoll<S>, mid: PushView<S>| #[trigger]
        before.stream_polled(first, mid) && mid.looked(first, step, after);
    stream_polled_law(before, first, mid);
    look_in_step(before, first, mid);
    let none = Seq::<Call<S::Msg, S::Err>>::empty();
    if before.state.msg() is Some && before.state.held() is Some {
        let peer = before.state.held().unwrap();
        assert(peer.calls() + none =~= peer.calls());
        one_at_a_time(peer.calls(), false);
        if !(first is Continue) {
            assert(before.sees_through(none, peer, after));
        }
    }
    if first is Continue {
        let second = choose|second: StatePoll<S>| #[trigger]
            mid.state_polled(second, after) && step == second.step_spec();
        let (more, later) = state_in_step(mid, second, after);
        if mid.is_left_by(later, after) {
            let i = choose|i: int|
                mid.streams.done.handed().len() <= i < after.streams.done.handed().len()
                    && #[trigger] after.streams.done.handed()[i] == report_of(later);
            assert(before.reported(report_of(later), after));
        }
        if before.state.held() is Some {
            if mid.is_left_by(later, after) {
                assert(before.is_left_by(later, after));
            }
            assert(before.sees_through(more, later, after));
        }
    }
}

impl<S: PatternStream> State<S> {
    /// How far the message in hand has come.
    pub open spec fn rank(self) -> int {
        match self {
            State::Pending | State::Stream(_, _) => 0,
            State::Msg(_) => 1,
            State::Readying(_, _, _) => 2,
            State::Sending(_, _, _) => 3,
        }
    }
}

/// **One message in hand.** A message is taken exactly if there is none in hand, and it is in hand
/// then, with the stream that was. Else it is refused, and what was in hand is let go of.
pub proof fn one_message_in_hand<S: PatternStream>(before: PushView<S>, item: S::Msg)
    ensures
        before.started(item).1 is Ok <==> before.state.msg() is None,
        before.started(item).1 is Ok ==> before.started(item).0.msg() == Some(item)
            && before.started(item).0.held() == before.state.held(),
        before.started(item).1 is Err ==> before.started(item).0 is Pending && before.started(item).1
            == Err::<(), PushError<S>>(PushError::AlreadySending),
{
}

} // verus!
