//! What holds of closing streams, whatever they answer.
use crate::calls::{all_good, all_will_wake, call_is_proper, good};
use crate::owned_close::closed_round;
use crate::stream::{Call, PatternStream, Peer};
use core::task::Poll;
use vstd::prelude::*;

verus! {

/// **Each stream is closed once.** The streams that are being closed are used as they should
/// be, and one of them leaves just when it has its result.
pub proof fn closing_keeps_count<S: PatternStream>(
    before: Seq<Peer<S>>,
    asked: Seq<Peer<S>>,
    answer: Poll<Option<Result<(), S::Err>>>,
    after: Seq<Peer<S>>,
)
    requires
        closed_round(before, asked, answer, after),
        all_good(before),
    ensures
        all_good(after),
        answer matches Poll::Ready(Some(_)) ==> after.len() == before.len() - 1,
        answer matches Poll::Ready(None) ==> after.len() == 0 && before.len() == 0,
        answer is Pending ==> after.len() == before.len(),
{
    let n = asked.len() as int;
    assert forall|i: int| 0 <= i < after.len() implies good(#[trigger] after[i]) by {
        match answer {
            Poll::Ready(Some(_)) => {
                if i < n - 1 {
                    call_is_proper(before[i], Call::Close(Poll::Pending), asked[i]);
                }
            },
            Poll::Ready(None) => {},
            Poll::Pending => {
                call_is_proper(before[i], Call::Close(Poll::Pending), asked[i]);
            },
        }
    }
}

/// **No wake-up is missed.** When none of the streams has a result, each was just asked and will
/// wake the task.
pub proof fn closing_will_wake<S: PatternStream>(
    before: Seq<Peer<S>>,
    asked: Seq<Peer<S>>,
    after: Seq<Peer<S>>,
)
    requires
        closed_round(before, asked, Poll::<Option<Result<(), S::Err>>>::Pending, after),
    ensures
        all_will_wake(after),
{
}

} // verus!
