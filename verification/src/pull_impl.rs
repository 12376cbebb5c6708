//! Receiving messages that are pushed to one of many receivers.
use crate::merge::MergeCall;
use crate::promise::QPromise;
use crate::stream::{Done, PatternStream};
use crate::sub_impl::SubRun;
use async_channel::{Receiver, Sender};
use vstd::prelude::*;

verus! {

/// Hands each message that comes from a stream out of `ready_r` on through `msg_s`. The
/// receiving side does not care whether a message was pushed or published: this does
/// what [`crate::sub_impl::sub`] does.
pub fn pull<'a, S: PatternStream>(
    ready_r: Receiver<S>,
    done_s: Sender<Done<S>>,
    msg_s: &'a Sender<(S::Msg, QPromise)>,
) -> (run: SubRun<'a, S>)
    ensures
        run@.merge.origin() == ready_r,
        run@.merge.calls() == Seq::<MergeCall<S::Msg, S::Err>>::empty(),
        run@.done.sender() == done_s,
        run@.done.handed() == Seq::<Done<S>>::empty(),
        run@.msg_s == *msg_s,
        run@.phase is Next,
        run@.asked == Seq::<(S::Msg, QPromise)>::empty(),
{
    crate::sub_impl::sub(ready_r, done_s, msg_s)
}

} // verus!
