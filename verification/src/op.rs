use vstd::prelude::*;

verus! {

/// Outcome of one non-blocking readiness check of a pending operation.
#[derive(Clone, Copy, Debug, PartialEq, Eq, Structural)]
pub enum PollStatus {
    Ready,
    NotReady,
}

/// Infrastructure-level failure of the external timer service, distinct
/// from "not yet ready". A poll that reports this aborts the whole step.
#[derive(Clone, Copy, Debug, PartialEq, Eq, Structural)]
pub struct TimerFailure;

/// A delayed action with a non-blocking readiness check.
///
/// The schedulers own values of this kind but never look inside them; all
/// they rely on at run time is the status each poll reports. Backends are
/// supplied by the caller: a real timer service, or a deterministic fake.
pub trait PendingOp {
    /// Non-blocking readiness check, with no wake notification attached.
    fn poll(&mut self) -> Result<PollStatus, TimerFailure>;

    /// Non-blocking readiness check that also binds a one-shot wake
    /// notification scoped to `index`: if the operation transitions to
    /// Ready outside a poll call, the backend must arrange for `index` to
    /// be handed back to the scheduler (through its `notify` entry point)
    /// before a later step.
    fn poll_with_wake(&mut self, index: usize) -> Result<PollStatus, TimerFailure>;
}

/// Wrap each operation in an occupied slot: slot `i` receives operation `i`.
pub(crate) fn fill_slots<T>(ops: Vec<T>) -> (r: Vec<Option<T>>)
    ensures
        r@.len() == ops@.len(),
        forall|i: int| 0 <= i < ops@.len() ==> #[trigger] r@[i] == Some(ops@[i]),
{
    let ghost orig = ops@;
    let n = ops.len();
    let mut src = ops;
    let mut slots: Vec<Option<T>> = Vec::new();
    proof {
        assert(src@ =~= orig.take(src@.len() as int));
    }
    while src.len() > 0
        invariant
            orig.len() == n,
            src@.len() + slots@.len() == n,
            src@ == orig.take(src@.len() as int),
            forall|j: int|
                0 <= j < slots@.len() ==> #[trigger] slots@[j] == Some(orig[src@.len() + j]),
        decreases src.len(),
    {
        let ghost m = src@.len() as int;
        let op = src.pop().unwrap();
        proof {
            assert(1 <= m <= orig.len());
            assert(op == orig.take(m)[m - 1]);
            assert(orig.take(m)[m - 1] == orig[m - 1]);
            assert(src@ =~= orig.take(m - 1));
        }
        slots.insert(0, Some(op));
    }
    slots
}

/// Move the operation out of slot `i`, leaving the slot empty.
pub(crate) fn take_slot<T>(slots: &mut Vec<Option<T>>, i: usize) -> (r: Option<T>)
    requires
        i < old(slots)@.len(),
    ensures
        r == old(slots)@[i as int],
        final(slots)@ == old(slots)@.update(i as int, None),
{
    let slot = &mut slots[i];
    let mut taken: Option<T> = None;
    core::mem::swap(slot, &mut taken);
    taken
}

/// What one poll outcome does to the polled slot: Ready clears it for
/// good, NotReady puts the polled operation back where it was taken from.
/// The result says whether the slot was cleared.
pub fn settle_slot<T>(slots: &mut Vec<Option<T>>, index: usize, op: T, status: PollStatus) -> (cleared: bool)
    requires
        index < old(slots)@.len(),
    ensures
        cleared == (status is Ready),
        cleared ==> final(slots)@ == old(slots)@.update(index as int, None),
        !cleared ==> final(slots)@ == old(slots)@.update(index as int, Some(op)),
{
    match status {
        PollStatus::Ready => {
            slots.set(index, None);
            true
        },
        PollStatus::NotReady => {
            slots.set(index, Some(op));
            false
        },
    }
}

} // verus!
