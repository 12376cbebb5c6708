//! What is asked of one stream, call by call, and that nothing is handed to it twice.
use crate::chain_laws::visited;
use crate::owned_close::closed_round;
use crate::push_stream::{stay, Chain, Key, Round, Turn, Visit};
use crate::stream::{Call, PatternStream, Peer};
use crate::task::Step;
use core::task::Poll;
use vstd::prelude::*;

verus! {

/// How far a stream has come with what was asked of it.
pub enum Stage {
    /// It owes nothing.
    Rest,
    /// It said that it is ready for a message, and none was handed to it yet.
    Armed,
    /// It has taken a message, and has not said that it is sent.
    Taken,
    /// It has sent a message, and has not replied to it.
    Sent,
    /// It has asked something, and no reply was handed to it.
    Asked,
    /// It was asked to close.
    Closing,
    /// It was asked something out of order, or is gone.
    Odd,
}

/// How far a stream has come that messages are handed to, one at a time: it is handed one when it
/// says that it is ready, and is then asked for nothing but to send it, until it has. If `replies`,
/// it is then asked for nothing but the reply, until that has come.
pub open spec fn course<M, E>(calls: Seq<Call<M, E>>, replies: bool) -> Stage
    decreases calls.len(),
{
    if calls.len() == 0 {
        Stage::Rest
    } else {
        match (course(calls.drop_last(), replies), calls.last()) {
            (Stage::Rest, Call::Next(Poll::Pending)) => Stage::Rest,
            (Stage::Rest, Call::Next(Poll::Ready(Some(Ok(_))))) => Stage::Rest,
            (Stage::Rest, Call::Ready(Poll::Pending)) => Stage::Rest,
            (Stage::Rest, Call::Ready(Poll::Ready(Ok(_)))) => Stage::Armed,
            (Stage::Armed, Call::Send(_, Ok(_))) => Stage::Taken,
            (Stage::Taken, Call::Flush(Poll::Pending)) => Stage::Taken,
            (Stage::Taken, Call::Flush(Poll::Ready(Ok(_)))) => if replies {
                Stage::Sent
            } else {
                Stage::Rest
            },
            (Stage::Sent, Call::Next(Poll::Pending)) => Stage::Sent,
            (Stage::Sent, Call::Next(Poll::Ready(Some(Ok(_))))) => Stage::Rest,
            (Stage::Rest, Call::Close(Poll::Pending)) => Stage::Closing,
            (Stage::Closing, Call::Close(Poll::Pending)) => Stage::Closing,
            _ => Stage::Odd,
        }
    }
}

/// How many messages the stream has taken since it last said that all is sent.
pub open spec fn unsent<M, E>(calls: Seq<Call<M, E>>) -> nat
    decreases calls.len(),
{
    if calls.len() == 0 {
        0
    } else {
        match calls.last() {
            Call::Send(_, Ok(_)) => unsent(calls.drop_last()) + 1,
            Call::Flush(Poll::Ready(Ok(_))) => 0,
            _ => unsent(calls.drop_last()),
        }
    }
}

/// How many messages the stream has taken since one last came from it.
pub open spec fn unanswered<M, E>(calls: Seq<Call<M, E>>) -> nat
    decreases calls.len(),
{
    if calls.len() == 0 {
        0
    } else {
        match calls.last() {
            Call::Send(_, Ok(_)) => unanswered(calls.drop_last()) + 1,
            Call::Next(Poll::Ready(Some(Ok(_)))) => 0,
            _ => unanswered(calls.drop_last()),
        }
    }
}

/// How many messages the stream has taken.
pub open spec fn takes<M, E>(calls: Seq<Call<M, E>>) -> nat
    decreases calls.len(),
{
    if calls.len() == 0 {
        0
    } else {
        takes(calls.drop_last()) + match calls.last() {
            Call::Send(_, Ok(_)) => 1nat,
            _ => 0,
        }
    }
}

/// **A stream is not handed a message before it is through with the last one.** If nothing was
/// asked of it out of order, it has at most one message that it has not sent; if it replies, at
/// most one that it has not replied to; and none when it is at rest.
pub proof fn one_at_a_time<M, E>(calls: Seq<Call<M, E>>, replies: bool)
    requires
        !(course(calls, replies) is Odd),
    ensures
        unsent(calls) == if course(calls, replies) is Taken {
            1nat
        } else {
            0
        },
        replies ==> unanswered(calls) == if course(calls, replies) is Taken || course(
            calls,
            replies,
        ) is Sent {
            1nat
        } else {
            0
        },
    decreases calls.len(),
{
    if calls.len() > 0 {
        one_at_a_time(calls.drop_last(), replies);
    }
}

/// One call more.
pub(crate) proof fn course_on<S: PatternStream>(
    before: Peer<S>,
    call: Call<S::Msg, S::Err>,
    after: Peer<S>,
)
    requires
        before.called(call, after),
    ensures
        after.calls().len() > 0,
        after.calls().last() == call,
        after.calls().drop_last() == before.calls(),
{
    assert(after.calls().drop_last() =~= before.calls());
}

/// All of these are at rest.
pub open spec fn all_rest<S: PatternStream>(peers: Seq<Peer<S>>, replies: bool) -> bool {
    forall|i: int| 0 <= i < peers.len() ==> course((#[trigger] peers[i]).calls(), replies) is Rest
}

/// Those that stay in line are at rest.
proof fn stay_rests<S: PatternStream>(
    line: Seq<Peer<S>>,
    visits: Seq<Visit<S>>,
    turn: Turn,
    replies: bool,
)
    requires
        all_rest(line, replies),
        visited(line, visits),
    ensures
        all_rest(stay(visits, turn), replies),
    decreases visits.len(),
{
    if visits.len() > 0 {
        let less = visits.drop_last();
        let n = visits.len() - 1;
        assert forall|i: int| 0 <= i < less.len() implies line[i].called(
            Call::Next((#[trigger] less[i]).answer),
            less[i].after,
        ) by {
            assert(less[i] == visits[i]);
        }
        stay_rests(line, less, turn, replies);
        assert(line[n].called(Call::Next(visits[n].answer), visits[n].after));
        course_on(line[n], Call::Next(visits[n].answer), visits[n].after);
        assert(course(line[n].calls(), replies) is Rest);
    }
}

/// **Streams in line are at rest.** They were asked for nothing but messages since, and so was the
/// one that is handed out.
pub proof fn line_rests<S: PatternStream>(
    before: Chain<S>,
    round: Round<S>,
    step: Step<Option<(Peer<S>, Key)>>,
    after: Chain<S>,
    replies: bool,
)
    requires
        before.polled(round, step, after),
        all_rest(before.members, replies),
    ensures
        all_rest(after.members, replies),
        step matches Step::Ready(Some((peer, _))) ==> course(peer.calls(), replies) is Rest,
{
    let line = before.members + round.joined;
    let visits = round.visits;
    let n = visits.len() as int;
    assert(all_rest(line, replies));
    stay_rests(line, visits, before.turn, replies);
    match step {
        Step::Ready(Some((peer, _))) => {
            course_on(line[n - 1], Call::Next(visits[n - 1].answer), peer);
            assert(course(line[n - 1].calls(), replies) is Rest);
        },
        _ => {},
    }
}

/// All of these are at rest, or were asked to close when they were, and for nothing else since.
pub open spec fn all_close<S: PatternStream>(peers: Seq<Peer<S>>, replies: bool) -> bool {
    forall|i: int|
        0 <= i < peers.len() ==> course((#[trigger] peers[i]).calls(), replies) is Rest || course(
            peers[i].calls(),
            replies,
        ) is Closing
}

/// **Streams that are being closed are asked for nothing else.**
pub proof fn closing_in_step<S: PatternStream>(
    before: Seq<Peer<S>>,
    asked: Seq<Peer<S>>,
    answer: Poll<Option<Result<(), S::Err>>>,
    after: Seq<Peer<S>>,
    replies: bool,
)
    requires
        closed_round(before, asked, answer, after),
        all_close(before, replies),
    ensures
        all_close(after, replies),
{
    let n = asked.len() as int;
    assert forall|i: int| 0 <= i < after.len() implies course(
        (#[trigger] after[i]).calls(),
        replies,
    ) is Rest || course(after[i].calls(), replies) is Closing by {
        let first: int = if answer is Pending {
            n
        } else {
            n - 1
        };
        if i < first {
            assert(after[i] == asked[i]);
            course_on(before[i], Call::Close(Poll::Pending), asked[i]);
            assert(course(before[i].calls(), replies) is Rest || course(
                before[i].calls(),
                replies,
            ) is Closing);
        } else {
            assert(after[i] == before[i + 1]);
        }
    }
}

} // verus!
