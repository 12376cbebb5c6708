//! What the record of the calls on a stream says of how the stream was used.
use crate::channel::Receipt;
use crate::promise::QPromise;
use crate::stream::{Call, PatternStream, Peer};
use core::task::Poll;
use vstd::prelude::*;

verus! {

/// The stream is of no use after this call: it ended, failed or was closed.
pub open spec fn gone<M, E>(call: Call<M, E>) -> bool {
    match call {
        Call::Next(Poll::Ready(None)) => true,
        Call::Next(Poll::Ready(Some(Err(_)))) => true,
        Call::Ready(Poll::Ready(Err(_))) => true,
        Call::Send(_, Err(_)) => true,
        Call::Flush(Poll::Ready(Err(_))) => true,
        Call::Close(Poll::Ready(_)) => true,
        _ => false,
    }
}

/// The stream has promised to wake the task: the last thing that was asked of it is pending.
pub open spec fn will_wake<M, E>(calls: Seq<Call<M, E>>) -> bool {
    &&& calls.len() > 0
    &&& match calls.last() {
        Call::Next(Poll::Pending) => true,
        Call::Ready(Poll::Pending) => true,
        Call::Flush(Poll::Pending) => true,
        Call::Close(Poll::Pending) => true,
        _ => false,
    }
}

/// All of these have promised to wake the task.
pub open spec fn all_will_wake<S: PatternStream>(peers: Seq<Peer<S>>) -> bool {
    forall|i: int| 0 <= i < peers.len() ==> will_wake((#[trigger] peers[i]).calls())
}

/// The channel has promised to wake the task: the last thing that was asked of it is pending.
pub open spec fn inbox_will_wake<T>(receipts: Seq<Receipt<T>>) -> bool {
    &&& receipts.len() > 0
    &&& receipts.last() == Receipt::<T>::Polled(Poll::Pending)
}

/// Nothing is left in the channel unseen: when it was last polled it was at its end, or pending, and
/// so has promised to wake the task.
pub open spec fn inbox_watched<T>(receipts: Seq<Receipt<T>>) -> bool
    decreases receipts.len(),
{
    if receipts.len() == 0 {
        false
    } else {
        match receipts.last() {
            Receipt::Polled(answer) => !(answer matches Poll::Ready(Some(_))),
            Receipt::Closed(_) => inbox_watched(receipts.drop_last()),
        }
    }
}

/// A look into the channel that brought nothing, after which it may have been asked whether it is
/// closed.
pub proof fn look_is_watched<T>(
    before: Seq<Receipt<T>>,
    answer: Poll<Option<T>>,
    closed: Option<bool>,
)
    requires
        !(answer matches Poll::Ready(Some(_))),
    ensures
        inbox_watched(
            before + match closed {
                Some(closed) => seq![Receipt::Polled(answer), Receipt::Closed(closed)],
                None => seq![Receipt::Polled(answer)],
            },
        ),
{
    let polled = before.push(Receipt::Polled(answer));
    assert(inbox_watched(polled));
    match closed {
        Some(closed) => {
            let asked = before + seq![Receipt::Polled(answer), Receipt::Closed(closed)];
            assert(asked.drop_last() =~= polled);
        },
        None => {
            assert(before + seq![Receipt::Polled(answer)] =~= polled);
        },
    }
}

/// The stream said that it is ready for a message.
pub open spec fn says_ready<M, E>(call: Call<M, E>) -> bool {
    call matches Call::Ready(Poll::Ready(Ok(_)))
}

/// The stream said that it has sent all that it has taken.
pub open spec fn says_sent<M, E>(call: Call<M, E>) -> bool {
    call matches Call::Flush(Poll::Ready(Ok(_)))
}

/// The stream said that it is ready since a message was last handed over to it.
pub open spec fn armed<M, E>(calls: Seq<Call<M, E>>) -> bool
    decreases calls.len(),
{
    if calls.len() == 0 {
        false
    } else {
        match calls.last() {
            Call::Ready(Poll::Ready(Ok(()))) => true,
            Call::Send(_, _) => false,
            _ => armed(calls.drop_last()),
        }
    }
}

/// The stream has sent all that it has taken.
pub open spec fn settled<M, E>(calls: Seq<Call<M, E>>) -> bool
    decreases calls.len(),
{
    if calls.len() == 0 {
        true
    } else {
        match calls.last() {
            Call::Send(_, Ok(())) => false,
            Call::Flush(Poll::Ready(Ok(()))) => true,
            _ => settled(calls.drop_last()),
        }
    }
}

/// The last thing that the stream has taken, and may not have sent yet, is a copy of
/// `msg`.
pub open spec fn took<M: Clone, E>(calls: Seq<Call<M, E>>, msg: M) -> bool
    decreases calls.len(),
{
    &&& calls.len() > 0
    &&& match calls.last() {
        Call::Send(handed, Ok(())) => cloned(msg, handed),
        Call::Flush(Poll::Pending) => took(calls.drop_last(), msg),
        _ => false,
    }
}

/// The last thing that the stream has sent is a copy of `msg`, and nothing has come back
/// yet.
pub open spec fn sent<M: Clone, E>(calls: Seq<Call<M, E>>, msg: M) -> bool
    decreases calls.len(),
{
    &&& calls.len() > 0
    &&& match calls.last() {
        Call::Flush(Poll::Ready(Ok(()))) => took(calls.drop_last(), msg),
        Call::Next(Poll::Pending) => sent(calls.drop_last(), msg),
        _ => false,
    }
}

/// The stream has sent a copy of `msg`, and the next thing that came back is `reply`.
pub open spec fn replied<M: Clone, E>(calls: Seq<Call<M, E>>, msg: M, reply: M) -> bool {
    &&& calls.len() > 0
    &&& calls.last() == Call::<M, E>::Next(Poll::Ready(Some(Ok(reply))))
    &&& sent(calls.drop_last(), msg)
}

/// Each message was handed over when the stream was ready for it, and nothing was asked
/// of the stream after it was gone.
pub open spec fn proper<M, E>(calls: Seq<Call<M, E>>) -> bool {
    &&& forall|i: int|
        0 <= i < calls.len() && (#[trigger] calls[i]) is Send ==> armed(calls.take(i))
    &&& forall|i: int| 0 <= i < calls.len() - 1 ==> !gone(#[trigger] calls[i])
}

/// The stream was used as it should be, and is not gone.
pub open spec fn good<S: PatternStream>(peer: Peer<S>) -> bool {
    &&& proper(peer.calls())
    &&& forall|i: int| 0 <= i < peer.calls().len() ==> !gone(#[trigger] peer.calls()[i])
}

/// All of these were used as they should be, and none is gone.
pub open spec fn all_good<S: PatternStream>(peers: Seq<Peer<S>>) -> bool {
    forall|i: int| 0 <= i < peers.len() ==> good(#[trigger] peers[i])
}

/// A stream that nothing was asked of was used as it should be.
pub proof fn fresh_is_good<S: PatternStream>(peer: Peer<S>)
    requires
        peer.calls().len() == 0,
    ensures
        good(peer),
        settled(peer.calls()),
        !armed(peer.calls()),
{
}

/// Whatever is asked of a stream that is not gone, but for handing over a message that it
/// is not ready for, is used properly; and if it is not gone then, it can be used on.
pub proof fn call_is_proper<S: PatternStream>(
    before: Peer<S>,
    call: Call<S::Msg, S::Err>,
    after: Peer<S>,
)
    requires
        good(before),
        before.called(call, after),
        call is Send ==> armed(before.calls()),
    ensures
        proper(after.calls()),
        !gone(call) ==> good(after),
        after.calls().len() > 0,
        after.calls().last() == call,
        after.calls().drop_last() == before.calls(),
{
    assert forall|i: int|
        0 <= i < after.calls().len() && (#[trigger] after.calls()[i]) is Send implies armed(
        after.calls().take(i),
    ) by {
        if i < before.calls().len() {
            assert(after.calls()[i] == before.calls()[i]);
            assert(after.calls().take(i) =~= before.calls().take(i));
        } else {
            assert(after.calls().take(i) =~= before.calls());
        }
    }
}

/// How many streams have joined, by this record.
pub open spec fn arrivals<S>(receipts: Seq<Receipt<S>>) -> nat
    decreases receipts.len(),
{
    if receipts.len() == 0 {
        0
    } else {
        arrivals(receipts.drop_last()) + match receipts.last() {
            Receipt::Polled(Poll::Ready(Some(_))) => 1nat,
            _ => 0nat,
        }
    }
}

/// Those that have joined by two records are those of the first and those of the second.
pub proof fn arrivals_concat<S>(left: Seq<Receipt<S>>, right: Seq<Receipt<S>>)
    ensures
        arrivals(left + right) == arrivals(left) + arrivals(right),
    decreases right.len(),
{
    if right.len() > 0 {
        arrivals_concat(left, right.drop_last());
        assert((left + right).drop_last() =~= left + right.drop_last());
    }
}

/// Asking things of a stream that is not gone, but for handing over messages, is proper as long
/// as it does not say that it is gone. What it was ready for it stays ready for, and what it has
/// sent stays sent.
pub proof fn calls_are_proper<S: PatternStream>(
    before: Peer<S>,
    extra: Seq<Call<S::Msg, S::Err>>,
    after: Peer<S>,
)
    requires
        good(before),
        after.calls() == before.calls() + extra,
        forall|i: int| 0 <= i < extra.len() ==> !gone(#[trigger] extra[i]) && !(extra[i] is Send),
    ensures
        good(after),
        armed(before.calls()) ==> armed(after.calls()),
        settled(before.calls()) ==> settled(after.calls()),
        forall|i: int|
            0 <= i < extra.len() && says_ready(#[trigger] extra[i]) ==> armed(after.calls()),
        forall|i: int|
            0 <= i < extra.len() && says_sent(#[trigger] extra[i]) ==> settled(after.calls()),
{
    let old_calls = before.calls();
    let calls = after.calls();
    armed_extends(old_calls, extra);
    assert forall|i: int| 0 <= i < calls.len() && (#[trigger] calls[i]) is Send implies armed(
        calls.take(i),
    ) by {
        if i < old_calls.len() {
            assert(calls.take(i) =~= old_calls.take(i));
        }
    }
}

/// What a longer record says of readiness and of what was sent.
proof fn armed_extends<M, E>(calls: Seq<Call<M, E>>, extra: Seq<Call<M, E>>)
    requires
        forall|i: int| 0 <= i < extra.len() ==> !((#[trigger] extra[i]) is Send),
    ensures
        armed(calls) ==> armed(calls + extra),
        settled(calls) ==> settled(calls + extra),
        forall|i: int|
            0 <= i < extra.len() && says_ready(#[trigger] extra[i]) ==> armed(calls + extra),
        forall|i: int|
            0 <= i < extra.len() && says_sent(#[trigger] extra[i]) ==> settled(calls + extra),
    decreases extra.len(),
{
    if extra.len() > 0 {
        let less = extra.drop_last();
        armed_extends(calls, less);
        assert((calls + extra).drop_last() =~= calls + less);
        assert forall|i: int|
            0 <= i < extra.len() && says_ready(#[trigger] extra[i]) implies armed(calls + extra) by {
            if i < less.len() {
                assert(less[i] == extra[i]);
            }
        }
        assert forall|i: int|
            0 <= i < extra.len() && says_sent(#[trigger] extra[i]) implies settled(calls + extra) by {
            if i < less.len() {
                assert(less[i] == extra[i]);
            }
        }
    }
}

/// What has come, by this record, the oldest first.
pub open spec fn taken<T>(receipts: Seq<Receipt<T>>) -> Seq<T>
    decreases receipts.len(),
{
    if receipts.len() == 0 {
        Seq::empty()
    } else {
        match receipts.last() {
            Receipt::Polled(Poll::Ready(Some(item))) => taken(receipts.drop_last()).push(item),
            _ => taken(receipts.drop_last()),
        }
    }
}

/// What has come by a record with one more entry.
pub proof fn taken_push<T>(receipts: Seq<Receipt<T>>, receipt: Receipt<T>)
    ensures
        taken(receipts.push(receipt)) == match receipt {
            Receipt::Polled(Poll::Ready(Some(item))) => taken(receipts).push(item),
            _ => taken(receipts),
        },
{
    assert(receipts.push(receipt).drop_last() =~= receipts);
}

/// The promises that came with these messages.
pub open spec fn promised<M, T>(jobs: Seq<(M, QPromise<T>)>) -> Seq<QPromise<T>> {
    Seq::new(jobs.len(), |i: int| jobs[i].1)
}

/// The promises that were kept with these values.
pub open spec fn fulfilled<T>(kept: Seq<(QPromise<T>, T)>) -> Seq<QPromise<T>> {
    Seq::new(kept.len(), |i: int| kept[i].0)
}

} // verus!
