use vstd::prelude::*;
use std::collections::VecDeque;
use crate::model::{count_true, lemma_retained_len, lemma_retained_push, no_dups, retained};
use crate::op::{fill_slots, settle_slot, take_slot, PendingOp, PollStatus, TimerFailure};

verus! {

/// The naive full-rescan scheduler: an ordered round-robin queue of pending
/// operations, every one of which is polled unconditionally on every step,
/// whatever its chance of being ready. Each step therefore costs time
/// proportional to the current queue length.
pub struct NaiveScheduler<T> {
    queue: VecDeque<usize>,
    slots: Vec<Option<T>>,
}

impl<T: PendingOp> NaiveScheduler<T> {
    /// The round-robin queue of still-pending slot indices, front first.
    pub closed spec fn queue_view(&self) -> Seq<usize> {
        self.queue@
    }

    /// The slot array holding the operations themselves.
    pub closed spec fn slots_view(&self) -> Seq<Option<T>> {
        self.slots@
    }

    /// Each queued index points at an occupied slot, no index is queued
    /// twice, and every occupied slot is queued.
    pub open spec fn wf(&self) -> bool {
        &&& no_dups(self.queue_view())
        &&& forall|k: int|
            0 <= k < self.queue_view().len() ==> ((#[trigger] self.queue_view()[k]) as int)
                < self.slots_view().len() && self.slots_view()[self.queue_view()[k] as int] is Some
        &&& forall|i: int|
            0 <= i < self.slots_view().len() && (#[trigger] self.slots_view()[i]) is Some
                ==> self.queue_view().contains(i as usize)
    }

    /// A scheduler holding the given operations: operation `k` sits in slot
    /// `k`, and the queue holds `0, 1, ..., n-1` in that order.
    pub fn new(ops: Vec<T>) -> (r: Self)
        ensures
            r.wf(),
            r.slots_view().len() == ops@.len(),
            r.queue_view().len() == ops@.len(),
            forall|k: int| 0 <= k < ops@.len() ==> #[trigger] r.queue_view()[k] == k as usize,
            forall|i: int| 0 <= i < ops@.len() ==> #[trigger] r.slots_view()[i] == Some(ops@[i]),
    {
        let n = ops.len();
        let slots = fill_slots(ops);
        let mut queue: VecDeque<usize> = VecDeque::new();
        let mut i: usize = 0;
        while i < n
            invariant
                i <= n,
                queue@.len() == i,
                forall|k: int| 0 <= k < i ==> #[trigger] queue@[k] == k as usize,
            decreases n - i,
        {
            queue.push_back(i);
            i = i + 1;
        }
        let r = NaiveScheduler { queue, slots };
        proof {
            assert forall|i2: int|
                0 <= i2 < r.slots_view().len() && (#[trigger] r.slots_view()[i2]) is Some
                implies r.queue_view().contains(i2 as usize) by {
                assert(r.queue_view()[i2] == i2 as usize);
            }
        }
        r
    }

    /// How many operations are still pending.
    pub fn remaining(&self) -> (r: usize)
        ensures
            r == self.queue_view().len(),
    {
        self.queue.len()
    }

    /// Terminal when the queue is empty.
    pub fn is_done(&self) -> (r: bool)
        ensures
            r == (self.queue_view().len() == 0),
    {
        self.queue.len() == 0
    }

    /// A copy of the pending queue, front first.
    pub fn queue_snapshot(&self) -> (r: Vec<usize>)
        ensures
            r@ == self.queue_view(),
    {
        let mut out: Vec<usize> = Vec::new();
        let mut k: usize = 0;
        while k < self.queue.len()
            invariant
                k <= self.queue@.len(),
                out@ == self.queue@.take(k as int),
            decreases self.queue@.len() - k,
        {
            let v = self.queue[k];
            out.push(v);
            proof {
                assert(out@ =~= self.queue@.take(k + 1));
            }
            k = k + 1;
        }
        proof {
            assert(self.queue@.take(self.queue@.len() as int) =~= self.queue@);
        }
        out
    }

    /// One full rescan. Every queued operation is polled exactly once, in
    /// queue order; the ones that report Ready are discarded, the rest are
    /// re-appended behind the survivors, so the relative order of the
    /// still-pending operations is preserved. On success the step says
    /// whether the queue is now empty; the first timer-service failure
    /// aborts the step at once.
    pub fn step(&mut self) -> (r: Result<bool, TimerFailure>)
        requires
            old(self).wf(),
        ensures
            final(self).wf(),
            final(self).slots_view().len() == old(self).slots_view().len(),
            final(self).queue_view().len() <= old(self).queue_view().len(),
            old(self).queue_view().len() == 0 ==> r == Ok::<bool, TimerFailure>(true),
            forall|i: int|
                0 <= i < old(self).slots_view().len() && !old(self).queue_view().contains(
                    i as usize,
                ) ==> final(self).slots_view()[i] == old(self).slots_view()[i],
            r matches Ok(done) ==> done == (final(self).queue_view().len() == 0),
            r is Ok ==> exists|ready: Seq<bool>|
                ready.len() == old(self).queue_view().len() && final(self).queue_view()
                    == retained(old(self).queue_view(), ready) && final(self).queue_view().len()
                    + count_true(ready) == old(self).queue_view().len(),
    {
        let l = self.queue.len();
        let ghost q0 = self.queue@;
        let ghost mut rd: Seq<bool> = Seq::empty();
        let mut k: usize = 0;
        while k < l
            invariant
                k <= l,
                l == q0.len(),
                rd.len() == k,
                old(self).wf(),
                q0 == old(self).queue_view(),
                self.slots@.len() == old(self).slots_view().len(),
                self.queue@ == q0.skip(k as int) + retained(q0.take(k as int), rd),
                no_dups(self.queue@),
                forall|j: int|
                    0 <= j < self.queue@.len() ==> ((#[trigger] self.queue@[j]) as int)
                        < self.slots@.len() && self.slots@[self.queue@[j] as int] is Some,
                forall|i: int|
                    0 <= i < self.slots@.len() && (#[trigger] self.slots@[i]) is Some
                        ==> self.queue@.contains(i as usize),
                forall|i: int|
                    0 <= i < self.slots@.len() && !q0.contains(i as usize)
                        ==> self.slots@[i] == old(self).slots_view()[i],
            decreases l - k,
        {
            let ghost qk = self.queue@;
            proof {
                lemma_retained_len(q0.take(k as int), rd);
                assert(qk[0] == q0.skip(k as int)[0]);
                assert(qk[0] == q0[k as int]);
                assert(q0.contains(qk[0]));
                assert((qk[0] as int) < self.slots@.len() && self.slots@[qk[0] as int] is Some);
            }
            let idx = self.queue.pop_front().unwrap();
            proof {
                assert(idx == qk[0]);
                assert(self.queue@ =~= qk.drop_first());
            }
            let taken = take_slot(&mut self.slots, idx);
            match taken {
                None => {
                    proof {
                        assert(false);
                    }
                },
                Some(mut op) => {
                    match op.poll() {
                        Err(e) => {
                            self.slots.set(idx, Some(op));
                            self.queue.push_back(idx);
                            proof {
                                assert(self.slots.len() == self.slots@.len());
                                Self::lemma_requeue(qk, self.slots@, idx);
                            }
                            return Err(e);
                        },
                        Ok(status) => {
                            let cleared = settle_slot(&mut self.slots, idx, op, status);
                            if cleared {
                                proof {
                                    assert(self.slots.len() == self.slots@.len());
                                    Self::lemma_discard(qk, self.slots@, idx);
                                }
                            } else {
                                self.queue.push_back(idx);
                                proof {
                                    assert(self.slots.len() == self.slots@.len());
                                    Self::lemma_requeue(qk, self.slots@, idx);
                                }
                            }
                            proof {
                                let rd0 = rd;
                                rd = rd.push(cleared);
                                assert(q0.take(k + 1) =~= q0.take(k as int).push(q0[k as int]));
                                lemma_retained_push(q0.take(k as int), rd0, q0[k as int], cleared);
                                assert(self.queue@ =~= q0.skip(k + 1) + retained(
                                    q0.take(k + 1),
                                    rd,
                                ));
                            }
                        },
                    }
                },
            }
            k = k + 1;
        }
        proof {
            assert(q0.skip(l as int) =~= Seq::<usize>::empty());
            assert(q0.take(l as int) =~= q0);
            assert(self.queue@ =~= retained(q0, rd));
            lemma_retained_len(q0, rd);
        }
        let done = self.queue.len() == 0;
        Ok(done)
    }

    /// A popped index that polled NotReady is re-appended: the queue stays
    /// well formed against slots in which that index is occupied again.
    proof fn lemma_requeue(qk: Seq<usize>, slots: Seq<Option<T>>, idx: usize)
        requires
            slots.len() <= usize::MAX,
            qk.len() > 0,
            qk[0] == idx,
            no_dups(qk),
            forall|j: int|
                0 <= j < qk.len() ==> ((#[trigger] qk[j]) as int) < slots.len() && (j == 0
                    || slots[qk[j] as int] is Some),
            slots[idx as int] is Some,
            forall|i: int|
                0 <= i < slots.len() && (#[trigger] slots[i]) is Some ==> qk.contains(i as usize),
        ensures
            no_dups(qk.drop_first().push(idx)),
            forall|j: int|
                0 <= j < qk.drop_first().push(idx).len() ==> ((#[trigger] qk.drop_first().push(
                    idx,
                )[j]) as int) < slots.len() && slots[qk.drop_first().push(idx)[j] as int] is Some,
            forall|i: int|
                0 <= i < slots.len() && (#[trigger] slots[i]) is Some ==> qk.drop_first().push(
                    idx,
                ).contains(i as usize),
    {
        let q1 = qk.drop_first().push(idx);
        assert forall|a: int, b: int| 0 <= a < b < q1.len() implies q1[a] != q1[b] by {
            if b == q1.len() - 1 {
                assert(q1[a] == qk[a + 1]);
                assert(q1[b] == qk[0]);
            } else {
                assert(q1[a] == qk[a + 1]);
                assert(q1[b] == qk[b + 1]);
            }
        }
        assert forall|i: int|
            0 <= i < slots.len() && (#[trigger] slots[i]) is Some implies q1.contains(
            i as usize,
        ) by {
            let p = choose|p: int| 0 <= p < qk.len() && qk[p] == i as usize;
            if p == 0 {
                assert(q1[q1.len() - 1] == i as usize);
            } else {
                assert(q1[p - 1] == i as usize);
            }
        }
    }

    /// A popped index that polled Ready is discarded and its slot cleared:
    /// the shortened queue stays well formed.
    proof fn lemma_discard(qk: Seq<usize>, slots: Seq<Option<T>>, idx: usize)
        requires
            slots.len() <= usize::MAX,
            qk.len() > 0,
            qk[0] == idx,
            no_dups(qk),
            slots[idx as int] is None,
            forall|j: int|
                0 <= j < qk.len() ==> ((#[trigger] qk[j]) as int) < slots.len() && (j == 0
                    || slots[qk[j] as int] is Some),
            forall|i: int|
                0 <= i < slots.len() && (#[trigger] slots[i]) is Some ==> qk.contains(i as usize),
        ensures
            no_dups(qk.drop_first()),
            forall|j: int|
                0 <= j < qk.drop_first().len() ==> ((#[trigger] qk.drop_first()[j]) as int)
                    < slots.len() && slots[qk.drop_first()[j] as int] is Some,
            forall|i: int|
                0 <= i < slots.len() && (#[trigger] slots[i]) is Some
                    ==> qk.drop_first().contains(i as usize),
    {
        assert forall|i: int|
            0 <= i < slots.len() && (#[trigger] slots[i]) is Some implies qk.drop_first().contains(
            i as usize,
        ) by {
            assert((i as usize) as int == i);
            let p = choose|p: int| 0 <= p < qk.len() && qk[p] == i as usize;
            assert(p != 0);
            assert(qk.drop_first()[p - 1] == i as usize);
        }
    }
}

} // verus!
