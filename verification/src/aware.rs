use vstd::prelude::*;
use crate::model::{
    clear_one, clear_ready, count_true, lemma_clear_ready_monotone, lemma_clear_ready_pointwise,
    lemma_clear_ready_snoc, lemma_count_true_all, lemma_count_true_update_false,
    lemma_count_true_zero, occupancy,
};
use crate::op::{fill_slots, settle_slot, take_slot, PendingOp, PollStatus, TimerFailure};
use crate::registry::WakeRegistry;

verus! {

/// The event-aware scheduler: a fixed array of optional operation slots, an
/// explicit active-count, and a wake registry. A step polls only the
/// indices drained from the registry, so it costs time proportional to the
/// number of wake notifications since the last step, not to the total
/// number of pending operations.
pub struct EventAwareScheduler<T> {
    slots: Vec<Option<T>>,
    n_active: usize,
    registry: WakeRegistry,
}

impl<T: PendingOp> EventAwareScheduler<T> {
    /// The slot array holding the operations still pending.
    pub closed spec fn slots_view(&self) -> Seq<Option<T>> {
        self.slots@
    }

    /// The number of operations not yet observed Ready.
    pub closed spec fn active(&self) -> usize {
        self.n_active
    }

    /// The registry contents: indices awaiting a recheck, oldest first.
    pub closed spec fn wakes(&self) -> Seq<usize> {
        self.registry@
    }

    /// The active-count agrees with the number of occupied slots, and every
    /// registered index is in range.
    pub open spec fn wf(&self) -> bool {
        &&& self.active() == count_true(occupancy(self.slots_view()))
        &&& forall|k: int|
            0 <= k < self.wakes().len() ==> ((#[trigger] self.wakes()[k]) as int)
                < self.slots_view().len()
    }

    /// A scheduler holding the given operations, every slot occupied, and
    /// every index pre-seeded into the registry so the first step performs
    /// the initial registration poll for each operation exactly once.
    pub fn new(ops: Vec<T>) -> (r: Self)
        ensures
            r.wf(),
            r.slots_view().len() == ops@.len(),
            r.active() == ops@.len(),
            forall|i: int| 0 <= i < ops@.len() ==> #[trigger] r.slots_view()[i] == Some(ops@[i]),
            r.wakes().len() == ops@.len(),
            forall|k: int| 0 <= k < ops@.len() ==> #[trigger] r.wakes()[k] == k as usize,
    {
        let n = ops.len();
        let slots = fill_slots(ops);
        let mut registry = WakeRegistry::new();
        let mut i: usize = 0;
        while i < n
            invariant
                i <= n,
                registry@.len() == i,
                forall|k: int| 0 <= k < i ==> #[trigger] registry@[k] == k as usize,
            decreases n - i,
        {
            registry.insert(i);
            i = i + 1;
        }
        let r = EventAwareScheduler { slots, n_active: n, registry };
        proof {
            assert forall|j: int| 0 <= j < n implies occupancy(r.slots_view())[j] by {
                assert(r.slots_view()[j] is Some);
            }
            lemma_count_true_all(occupancy(r.slots_view()));
        }
        r
    }

    /// How many operations have not yet been observed Ready.
    pub fn active_count(&self) -> (r: usize)
        ensures
            r == self.active(),
    {
        self.n_active
    }

    /// Terminal when the active-count has reached zero.
    pub fn is_done(&self) -> (r: bool)
        ensures
            r == (self.active() == 0),
    {
        self.n_active == 0
    }

    /// The number of slots, occupied or not.
    pub fn slot_count(&self) -> (r: usize)
        ensures
            r == self.slots_view().len(),
    {
        self.slots.len()
    }

    /// Whether slot `index` still holds its operation.
    pub fn has_slot(&self, index: usize) -> (r: bool)
        requires
            index < self.slots_view().len(),
        ensures
            r == (self.slots_view()[index as int] is Some),
    {
        self.slots[index].is_some()
    }

    /// An external notifier reports that the operation in slot `index`
    /// should be rechecked: the index is appended to the registry.
    pub fn notify(&mut self, index: usize)
        requires
            old(self).wf(),
            index < old(self).slots_view().len(),
        ensures
            final(self).wf(),
            final(self).wakes() == old(self).wakes().push(index),
            final(self).slots_view() == old(self).slots_view(),
            final(self).active() == old(self).active(),
    {
        self.registry.insert(index);
        proof {
            assert forall|k: int|
                0 <= k < self.wakes().len() implies ((#[trigger] self.wakes()[k]) as int)
                < self.slots_view().len() by {
                if k < old(self).wakes().len() {
                    assert(self.wakes()[k] == old(self).wakes()[k]);
                } else {
                    assert(self.wakes()[k] == index);
                }
            }
        }
    }

    /// A copy of the registry contents, oldest insert first, without
    /// disturbing them.
    pub fn ready_snapshot(&self) -> (r: Vec<usize>)
        ensures
            r@ == self.wakes(),
    {
        self.registry.snapshot()
    }

    /// One selective rescan. The registry is drained first, so concurrent
    /// notifiers are never blocked by the poll phase; then each drained
    /// index whose slot is still occupied is polled once, with a wake
    /// notification bound to that index. Ready operations leave their slot
    /// and lower the active-count; NotReady ones stay registered for a
    /// future wake; a drained index whose slot is already empty (a
    /// duplicate wake) is skipped harmlessly. On success the step says
    /// whether the active-count has reached zero; the first timer-service
    /// failure aborts the step at once.
    pub fn step(&mut self) -> (r: Result<bool, TimerFailure>)
        requires
            old(self).wf(),
        ensures
            final(self).wf(),
            final(self).slots_view().len() == old(self).slots_view().len(),
            final(self).wakes().len() == 0,
            final(self).active() <= old(self).active(),
            old(self).wakes().len() == 0 ==> (r matches Ok(done) && done == (old(self).active()
                == 0)),
            old(self).wakes().len() == 0 ==> final(self).slots_view() == old(self).slots_view()
                && final(self).active() == old(self).active(),
            forall|i: int|
                0 <= i < old(self).slots_view().len() && !old(self).wakes().contains(i as usize)
                    ==> final(self).slots_view()[i] == old(self).slots_view()[i],
            forall|i: int|
                0 <= i < old(self).slots_view().len() ==> ((#[trigger] occupancy(
                    final(self).slots_view(),
                )[i]) ==> occupancy(old(self).slots_view())[i]),
            r matches Ok(done) ==> done == (final(self).active() == 0),
            r is Ok ==> exists|ready: Seq<bool>|
                ready.len() == old(self).wakes().len() && occupancy(final(self).slots_view())
                    == clear_ready(occupancy(old(self).slots_view()), old(self).wakes(), ready),
    {
        let drained = self.registry.drain();
        let ghost d = drained@;
        let ghost occ0 = occupancy(self.slots@);
        let ghost mut st: Seq<bool> = Seq::empty();
        proof {
            assert(d.take(0) =~= Seq::<usize>::empty());
            assert(clear_ready(occ0, Seq::<usize>::empty(), Seq::<bool>::empty()) == occ0);
        }
        let mut j: usize = 0;
        while j < drained.len()
            invariant
                j <= drained@.len(),
                d == drained@,
                st.len() == j,
                old(self).wf(),
                d == old(self).wakes(),
                occ0 == occupancy(old(self).slots_view()),
                self.registry@.len() == 0,
                self.slots@.len() == old(self).slots_view().len(),
                occupancy(self.slots@) == clear_ready(occ0, d.take(j as int), st),
                self.n_active == count_true(occupancy(self.slots@)),
                forall|k: int|
                    0 <= k < d.len() ==> ((#[trigger] d[k]) as int) < self.slots@.len(),
                forall|i: int|
                    0 <= i < self.slots@.len() && !d.contains(i as usize) ==> self.slots@[i]
                        == old(self).slots_view()[i],
            decreases drained@.len() - j,
        {
            let idx = drained[j];
            let ghost occ_j = occupancy(self.slots@);
            proof {
                assert(d[j as int] == idx);
                assert(d.contains(idx));
                assert(d.take(j + 1) =~= d.take(j as int).push(idx));
            }
            let taken = take_slot(&mut self.slots, idx);
            match taken {
                None => {
                    proof {
                        assert(occupancy(self.slots@) =~= occ_j);
                        assert(clear_one(occ_j, idx, false) == occ_j);
                        lemma_clear_ready_snoc(occ0, d.take(j as int), st, idx, false);
                        st = st.push(false);
                    }
                },
                Some(mut op) => {
                    match op.poll_with_wake(idx) {
                        Err(e) => {
                            self.slots.set(idx, Some(op));
                            proof {
                                assert(occupancy(self.slots@) =~= occ_j);
                                lemma_clear_ready_monotone(occ0, d.take(j as int), st);
                                lemma_clear_ready_pointwise(occ0, d.take(j as int), st);
                            }
                            return Err(e);
                        },
                        Ok(status) => {
                            let cleared = settle_slot(&mut self.slots, idx, op, status);
                            if cleared {
                                proof {
                                    assert(occ_j[idx as int]);
                                    assert(occupancy(self.slots@) =~= occ_j.update(
                                        idx as int,
                                        false,
                                    ));
                                    assert(clear_one(occ_j, idx, true) == occ_j.update(
                                        idx as int,
                                        false,
                                    ));
                                    lemma_clear_ready_snoc(occ0, d.take(j as int), st, idx, true);
                                    lemma_count_true_update_false(occ_j, idx as int);
                                    lemma_count_true_zero(occ_j);
                                    st = st.push(true);
                                }
                                self.n_active = self.n_active - 1;
                            } else {
                                proof {
                                    assert(occupancy(self.slots@) =~= occ_j);
                                    assert(clear_one(occ_j, idx, false) == occ_j);
                                    lemma_clear_ready_snoc(occ0, d.take(j as int), st, idx, false);
                                    st = st.push(false);
                                }
                            }
                        },
                    }
                },
            }
            j = j + 1;
        }
        proof {
            assert(d.take(d.len() as int) =~= d);
            lemma_clear_ready_monotone(occ0, d, st);
            lemma_clear_ready_pointwise(occ0, d, st);
        }
        Ok(self.n_active == 0)
    }
}

} // verus!
