//! What the machines hand back when they are polled, and the types of
//! `core` that polling is written with.
use core::pin::Pin;
use core::task::Context;
use vstd::prelude::*;

verus! {

/// `core::task::Context`: carries the waker of the task that polls. It is passed
/// through to whatever is polled, and nothing here looks inside.
#[verifier::external_type_specification]
#[verifier::external_body]
pub struct ExContext<'a>(core::task::Context<'a>);

/// `core::task::Poll`, a plain enum with the variants `Ready` and `Pending`.
#[verifier::external_type_specification]
pub struct ExPoll<T>(core::task::Poll<T>);

/// `core::pin::Pin`, opaque here. It is the receiver of the outside traits' methods.
#[verifier::external_type_specification]
#[verifier::external_body]
#[verifier::reject_recursive_types(P)]
pub struct ExPin<P>(core::pin::Pin<P>);

/// `Pin::get_mut` gives the pinned value, of a type that need not be pinned. A pin is
/// opaque here, so nothing is said of that value but that it came out of this call: see
/// [`unpinned`].
pub assume_specification<'a, T: ?Sized + Unpin>[ core::pin::Pin::<&'a mut T>::get_mut ](
    pinned: Pin<&'a mut T>,
) -> (inner: &'a mut T);

/// `inner` is what `Pin::get_mut` may give of this pin.
pub open spec fn unpinned<T: Unpin>(pinned: Pin<&mut T>, inner: &mut T) -> bool {
    call_ensures(Pin::<&mut T>::get_mut, (pinned,), inner)
}

/// The answer of a machine that was polled once.
///
/// A machine makes a bounded number of outside calls per poll. Where it got
/// somewhere and would like to go on at once, it answers `Again`: whoever drives
/// it polls it again without waiting to be woken.
pub enum Step<T> {
    /// The machine is through, with this result.
    Ready(T),
    /// Nothing more can happen until something that was polled wakes the task.
    Pending,
    /// Something happened; poll again.
    Again,
}

/// A machine that goes on step by step.
pub trait Machine: Sized {
    /// What the machine stands for.
    type Model;

    /// What it stands for now.
    spec fn model(&self) -> Self::Model;

    /// It is in order.
    spec fn in_order(&self) -> bool;

    /// `step` and `after` are what may come of one poll.
    spec fn steps(before: Self::Model, step: Step<()>, after: Self::Model) -> bool;

    /// Goes on by one step.
    fn poll_once(&mut self, cx: &mut Context<'_>) -> (step: Step<()>)
        requires
            old(self).in_order(),
        ensures
            final(self).in_order(),
            Self::steps(old(self).model(), step, final(self).model()),
    ;
}

/// A machine went on from one of these to the next, and wanted to go on.
pub open spec fn goes_on<M: Machine>(history: Seq<M::Model>, i: int) -> bool {
    M::steps(history[i], Step::Again, history[i + 1])
}

/// A machine went through these, one after the other, always wanting to go on, and answered `step`
/// in the end.
pub open spec fn driven<M: Machine>(history: Seq<M::Model>, step: Step<()>) -> bool {
    &&& history.len() > 1
    &&& forall|i: int| 0 <= i < history.len() - 2 ==> #[trigger] goes_on::<M>(history, i)
    &&& M::steps(history[history.len() - 2], step, history.last())
}

/// Polls a machine until it does not want to be polled again at once, or for as many rounds as a counter
/// holds.
pub fn drive<M: Machine>(machine: &mut M, cx: &mut Context<'_>) -> (step: Step<()>)
    requires
        old(machine).in_order(),
    ensures
        final(machine).in_order(),
        exists|history: Seq<M::Model>| #[trigger]
            driven::<M>(history, step) && history[0] == old(machine).model() && history.last()
                == final(machine).model() && (step is Again ==> history.len() == u64::MAX + 1),
{
    let ghost mut history = seq![machine.model()];
    let mut rounds: u64 = u64::MAX;
    while rounds > 0
        invariant
            machine.in_order(),
            history.len() == u64::MAX - rounds + 1,
            history[0] == old(machine).model(),
            history.last() == machine.model(),
            rounds < u64::MAX ==> driven::<M>(history, Step::Again),
        decreases rounds,
    {
        rounds -= 1;
        let step = machine.poll_once(cx);
        proof {
            let known = history;
            history = history.push(machine.model());
            assert forall|i: int| 0 <= i < history.len() - 2 implies #[trigger] goes_on::<M>(
                history,
                i,
            ) by {
                if i < known.len() - 2 {
                    assert(goes_on::<M>(known, i));
                }
            }
            assert(history[history.len() - 2] == known.last());
            assert(driven::<M>(history, step));
        }
        match step {
            Step::Again => {},
            step => {
                return step;
            },
        }
    }
    Step::Again
}

/// **A machine is driven step by step.** Each poll starts where the one before has ended, and all
/// but the last say that there is more to do at once. What the last one says is what comes of it.
pub proof fn driven_step_by_step<M: Machine>(history: Seq<M::Model>, step: Step<()>, i: int)
    requires
        driven::<M>(history, step),
        0 <= i < history.len() - 1,
    ensures
        i < history.len() - 2 ==> M::steps(history[i], Step::Again, history[i + 1]),
        i == history.len() - 2 ==> M::steps(history[i], step, history[i + 1]),
{
    if i < history.len() - 2 {
        assert(goes_on::<M>(history, i));
    }
}

} // verus!
