use vstd::prelude::*;

verus! {

/// Number of `true` entries in a sequence of readiness flags.
pub open spec fn count_true(s: Seq<bool>) -> nat
    decreases s.len(),
{
    if s.len() == 0 {
        0
    } else {
        (if s[0] {
            1nat
        } else {
            0nat
        }) + count_true(s.drop_first())
    }
}

/// No index occurs twice.
pub open spec fn no_dups(q: Seq<usize>) -> bool {
    forall|k1: int, k2: int| 0 <= k1 < k2 < q.len() ==> q[k1] != q[k2]
}

/// The queue left behind by one full rescan of `q`: entry `q[k]` is dropped
/// exactly when `ready[k]` is true, and the survivors keep their relative
/// order.
pub open spec fn retained(q: Seq<usize>, ready: Seq<bool>) -> Seq<usize>
    recommends
        ready.len() == q.len(),
    decreases q.len(),
{
    if q.len() == 0 {
        Seq::empty()
    } else {
        let rest = retained(q.drop_first(), ready.drop_first());
        if ready[0] {
            rest
        } else {
            seq![q[0]] + rest
        }
    }
}

/// Which slots of a slot array are occupied.
pub open spec fn occupancy<T>(slots: Seq<Option<T>>) -> Seq<bool> {
    Seq::new(slots.len(), |i: int| slots[i] is Some)
}

/// Occupancy after processing one drained index: the slot is cleared exactly
/// when it was occupied and its poll reported Ready.
pub open spec fn clear_one(occ: Seq<bool>, idx: usize, ready: bool) -> Seq<bool> {
    if (idx as int) < occ.len() && occ[idx as int] && ready {
        occ.update(idx as int, false)
    } else {
        occ
    }
}

/// Occupancy after processing a whole drained list front to back, where
/// `ready[k]` tells whether the poll of slot `drained[k]` reported Ready.
pub open spec fn clear_ready(occ: Seq<bool>, drained: Seq<usize>, ready: Seq<bool>) -> Seq<bool>
    recommends
        ready.len() == drained.len(),
    decreases drained.len(),
{
    if drained.len() == 0 {
        occ
    } else {
        clear_ready(clear_one(occ, drained[0], ready[0]), drained.drop_first(), ready.drop_first())
    }
}

/// `a` is a (not necessarily contiguous) subsequence of `b`: `b` with some
/// entries deleted and the relative order of the rest untouched.
pub open spec fn is_subseq(a: Seq<usize>, b: Seq<usize>) -> bool
    decreases b.len(),
{
    if a.len() == 0 {
        true
    } else if b.len() == 0 {
        false
    } else {
        (a[0] == b[0] && is_subseq(a.drop_first(), b.drop_first())) || is_subseq(a, b.drop_first())
    }
}

pub proof fn lemma_count_true_all(s: Seq<bool>)
    requires
        forall|j: int| 0 <= j < s.len() ==> s[j],
    ensures
        count_true(s) == s.len(),
    decreases s.len(),
{
    if s.len() > 0 {
        lemma_count_true_all(s.drop_first());
    }
}

/// A cleared slot lowers the count of occupied slots by exactly one.
pub proof fn lemma_count_true_update_false(s: Seq<bool>, i: int)
    requires
        0 <= i < s.len(),
        s[i],
    ensures
        count_true(s.update(i, false)) + 1 == count_true(s),
    decreases s.len(),
{
    if i == 0 {
        assert(s.update(0, false).drop_first() =~= s.drop_first());
    } else {
        assert(s.update(i, false).drop_first() =~= s.drop_first().update(i - 1, false));
        lemma_count_true_update_false(s.drop_first(), i - 1);
    }
}

/// A count of zero means no slot is occupied, and the other way around.
pub proof fn lemma_count_true_zero(s: Seq<bool>)
    ensures
        (count_true(s) == 0) <==> (forall|j: int| 0 <= j < s.len() ==> !s[j]),
    decreases s.len(),
{
    if s.len() > 0 {
        lemma_count_true_zero(s.drop_first());
        if count_true(s) == 0 {
            assert forall|j: int| 0 <= j < s.len() implies !s[j] by {
                if j > 0 {
                    assert(!s.drop_first()[j - 1]);
                }
            }
        } else {
            if !s[0] {
                assert(count_true(s.drop_first()) != 0);
                let j = choose|j: int| 0 <= j < s.drop_first().len() && s.drop_first()[j];
                assert(s[j + 1]);
            }
        }
    }
}

/// A full rescan keeps one entry for each NotReady poll: the new length plus
/// the number of Ready polls is the old length.
pub proof fn lemma_retained_len(q: Seq<usize>, ready: Seq<bool>)
    requires
        ready.len() == q.len(),
    ensures
        retained(q, ready).len() + count_true(ready) == q.len(),
    decreases q.len(),
{
    if q.len() > 0 {
        lemma_retained_len(q.drop_first(), ready.drop_first());
    }
}

/// Unfolding a rescan from the back: polling one more entry either drops it
/// (Ready) or re-appends it behind the survivors (NotReady).
pub proof fn lemma_retained_push(q: Seq<usize>, ready: Seq<bool>, x: usize, b: bool)
    requires
        ready.len() == q.len(),
    ensures
        retained(q.push(x), ready.push(b)) == if b {
            retained(q, ready)
        } else {
            retained(q, ready).push(x)
        },
    decreases q.len(),
{
    if q.len() == 0 {
        assert(q.push(x).drop_first() =~= Seq::<usize>::empty());
        assert(ready.push(b).drop_first() =~= Seq::<bool>::empty());
        assert(retained(Seq::<usize>::empty(), Seq::<bool>::empty()) == Seq::<usize>::empty());
        assert(ready.push(b)[0] == b);
        if b {
            assert(retained(q.push(x), ready.push(b)) == Seq::<usize>::empty());
            assert(retained(q, ready) == Seq::<usize>::empty());
        } else {
            assert(retained(q.push(x), ready.push(b)) == seq![x] + Seq::<usize>::empty());
            assert(seq![x] + Seq::<usize>::empty() =~= retained(q, ready).push(x));
        }
    } else {
        assert(q.push(x).drop_first() =~= q.drop_first().push(x));
        assert(ready.push(b).drop_first() =~= ready.drop_first().push(b));
        lemma_retained_push(q.drop_first(), ready.drop_first(), x, b);
        let rest = retained(q.drop_first(), ready.drop_first());
        let rest_pushed = retained(q.push(x).drop_first(), ready.push(b).drop_first());
        assert(rest_pushed == retained(q.drop_first().push(x), ready.drop_first().push(b)));
        assert(ready.push(b)[0] == ready[0]);
        assert(q.push(x)[0] == q[0]);
        if b {
            assert(rest_pushed == rest);
            if ready[0] {
                assert(retained(q.push(x), ready.push(b)) == rest);
                assert(retained(q, ready) == rest);
            } else {
                assert(retained(q.push(x), ready.push(b)) == seq![q[0]] + rest);
                assert(retained(q, ready) == seq![q[0]] + rest);
            }
        } else {
            assert(rest_pushed == rest.push(x));
            if ready[0] {
                assert(retained(q.push(x), ready.push(b)) == rest.push(x));
                assert(retained(q, ready).push(x) == rest.push(x));
            } else {
                assert(retained(q.push(x), ready.push(b)) == seq![q[0]] + rest.push(x));
                assert((seq![q[0]] + rest).push(x) =~= seq![q[0]] + rest.push(x));
                assert(retained(q, ready).push(x) == (seq![q[0]] + rest).push(x));
            }
        }
    }
}

/// Every survivor of a rescan was in the queue before it.
pub proof fn lemma_retained_contains(q: Seq<usize>, ready: Seq<bool>)
    requires
        ready.len() == q.len(),
    ensures
        forall|j: int|
            0 <= j < retained(q, ready).len() ==> q.contains(#[trigger] retained(q, ready)[j]),
    decreases q.len(),
{
    if q.len() > 0 {
        lemma_retained_contains(q.drop_first(), ready.drop_first());
        let r = retained(q, ready);
        let rest = retained(q.drop_first(), ready.drop_first());
        assert forall|j: int| 0 <= j < r.len() implies q.contains(#[trigger] r[j]) by {
            if ready[0] {
                assert(q.drop_first().contains(r[j]));
                let i = choose|i: int| 0 <= i < q.drop_first().len() && q.drop_first()[i] == r[j];
                assert(q[i + 1] == r[j]);
            } else {
                if j == 0 {
                    assert(q[0] == r[0]);
                } else {
                    assert(r[j] == rest[j - 1]);
                    assert(q.drop_first().contains(rest[j - 1]));
                    let i = choose|i: int|
                        0 <= i < q.drop_first().len() && q.drop_first()[i] == rest[j - 1];
                    assert(q[i + 1] == r[j]);
                }
            }
        }
    }
}

pub proof fn lemma_subseq_of_tail(a: Seq<usize>, b: Seq<usize>)
    requires
        b.len() > 0,
        is_subseq(a, b.drop_first()),
    ensures
        is_subseq(a, b),
{
}

/// Order preservation of the naive rescan: the queue a step leaves behind is
/// the old queue with the Ready entries deleted, in the old relative order.
pub proof fn lemma_retained_subseq(q: Seq<usize>, ready: Seq<bool>)
    requires
        ready.len() == q.len(),
    ensures
        is_subseq(retained(q, ready), q),
    decreases q.len(),
{
    if q.len() > 0 {
        lemma_retained_subseq(q.drop_first(), ready.drop_first());
        if ready[0] {
            lemma_subseq_of_tail(retained(q, ready), q);
        } else {
            let r = retained(q, ready);
            let rest = retained(q.drop_first(), ready.drop_first());
            assert(r.drop_first() =~= rest);
            assert(r[0] == q[0]);
        }
    }
}

/// Termination witness for the naive scheduler: a step in which every poll
/// reports Ready leaves the queue empty, so the scheduler is terminal.
pub proof fn lemma_rescan_terminates(q: Seq<usize>, ready: Seq<bool>)
    requires
        ready.len() == q.len(),
        forall|k: int| 0 <= k < ready.len() ==> ready[k],
    ensures
        retained(q, ready).len() == 0,
{
    lemma_retained_len(q, ready);
    lemma_count_true_all(ready);
}

pub proof fn lemma_clear_ready_len(occ: Seq<bool>, drained: Seq<usize>, ready: Seq<bool>)
    ensures
        clear_ready(occ, drained, ready).len() == occ.len(),
    decreases drained.len(),
{
    if drained.len() > 0 {
        lemma_clear_ready_len(clear_one(occ, drained[0], ready[0]), drained.drop_first(),
            ready.drop_first());
    }
}

/// Unfolding the drained list from the back: one more processed index acts
/// on the occupancy the earlier ones left behind.
pub proof fn lemma_clear_ready_snoc(
    occ: Seq<bool>,
    drained: Seq<usize>,
    ready: Seq<bool>,
    i: usize,
    b: bool,
)
    requires
        ready.len() == drained.len(),
    ensures
        clear_ready(occ, drained.push(i), ready.push(b)) == clear_one(
            clear_ready(occ, drained, ready),
            i,
            b,
        ),
    decreases drained.len(),
{
    if drained.len() == 0 {
        assert(drained.push(i).drop_first() =~= Seq::<usize>::empty());
        assert(ready.push(b).drop_first() =~= Seq::<bool>::empty());
        assert(drained.push(i)[0] == i);
        assert(ready.push(b)[0] == b);
        let occ1 = clear_one(occ, i, b);
        assert(clear_ready(occ1, Seq::<usize>::empty(), Seq::<bool>::empty()) == occ1);
        assert(clear_ready(occ, drained, ready) == occ);
    } else {
        assert(drained.push(i).drop_first() =~= drained.drop_first().push(i));
        assert(ready.push(b).drop_first() =~= ready.drop_first().push(b));
        assert(drained.push(i)[0] == drained[0]);
        assert(ready.push(b)[0] == ready[0]);
        let occ1 = clear_one(occ, drained[0], ready[0]);
        lemma_clear_ready_snoc(occ1, drained.drop_first(), ready.drop_first(), i, b);
        assert(clear_ready(occ, drained.push(i), ready.push(b)) == clear_ready(
            occ1,
            drained.drop_first().push(i),
            ready.drop_first().push(b),
        ));
        assert(clear_ready(occ, drained, ready) == clear_ready(occ1, drained.drop_first(),
        ready.drop_first()));
    }
}

/// Processing drained indices only ever clears slots, it never fills one.
pub proof fn lemma_clear_ready_pointwise(occ: Seq<bool>, drained: Seq<usize>, ready: Seq<bool>)
    ensures
        forall|i: int|
            0 <= i < occ.len() ==> (#[trigger] clear_ready(occ, drained, ready)[i] ==> occ[i]),
    decreases drained.len(),
{
    if drained.len() > 0 {
        let occ1 = clear_one(occ, drained[0], ready[0]);
        lemma_clear_ready_pointwise(occ1, drained.drop_first(), ready.drop_first());
        assert(clear_ready(occ, drained, ready) == clear_ready(occ1, drained.drop_first(),
        ready.drop_first()));
        assert forall|i: int|
            0 <= i < occ.len() implies (#[trigger] clear_ready(occ, drained, ready)[i]
            ==> occ[i]) by {
            if clear_ready(occ, drained, ready)[i] {
                assert(clear_ready(occ1, drained.drop_first(), ready.drop_first())[i]);
                assert(occ1[i]);
            }
        }
    }
}

/// The active count never rises across an event-aware step.
pub proof fn lemma_clear_ready_monotone(occ: Seq<bool>, drained: Seq<usize>, ready: Seq<bool>)
    ensures
        count_true(clear_ready(occ, drained, ready)) <= count_true(occ),
    decreases drained.len(),
{
    if drained.len() > 0 {
        let occ1 = clear_one(occ, drained[0], ready[0]);
        if (drained[0] as int) < occ.len() && occ[drained[0] as int] && ready[0] {
            lemma_count_true_update_false(occ, drained[0] as int);
        }
        lemma_clear_ready_monotone(occ1, drained.drop_first(), ready.drop_first());
    }
}

/// Termination witness for the event-aware scheduler: if the drained list
/// covers every occupied slot and every poll reports Ready, the step clears
/// everything and the active count reaches zero.
pub proof fn lemma_clear_ready_complete(occ: Seq<bool>, drained: Seq<usize>, ready: Seq<bool>)
    requires
        occ.len() <= usize::MAX,
        ready.len() == drained.len(),
        forall|k: int| 0 <= k < ready.len() ==> ready[k],
        forall|i: int| 0 <= i < occ.len() && occ[i] ==> drained.contains(i as usize),
    ensures
        count_true(clear_ready(occ, drained, ready)) == 0,
{
    lemma_clear_ready_cleared(occ, drained, ready);
    let out = clear_ready(occ, drained, ready);
    lemma_clear_ready_pointwise(occ, drained, ready);
    lemma_clear_ready_len(occ, drained, ready);
    assert forall|j: int| 0 <= j < out.len() implies !out[j] by {
        if out[j] {
            assert(occ[j]);
            assert(drained.contains(j as usize));
        }
    }
    lemma_count_true_zero(out);
}

/// With all polls Ready, a slot that was occupied and whose index was
/// drained is clear afterwards.
proof fn lemma_clear_ready_cleared(occ: Seq<bool>, drained: Seq<usize>, ready: Seq<bool>)
    requires
        occ.len() <= usize::MAX,
        ready.len() == drained.len(),
        forall|k: int| 0 <= k < ready.len() ==> ready[k],
    ensures
        forall|i: int|
            0 <= i < occ.len() && occ[i] && drained.contains(i as usize) ==> !clear_ready(
                occ,
                drained,
                ready,
            )[i],
    decreases drained.len(),
{
    if drained.len() > 0 {
        let occ1 = clear_one(occ, drained[0], ready[0]);
        lemma_clear_ready_cleared(occ1, drained.drop_first(), ready.drop_first());
        lemma_clear_ready_pointwise(occ1, drained.drop_first(), ready.drop_first());
        let out = clear_ready(occ, drained, ready);
        assert(out == clear_ready(occ1, drained.drop_first(), ready.drop_first()));
        assert forall|i: int|
            0 <= i < occ.len() && occ[i] && drained.contains(i as usize) implies !out[i] by {
            assert((i as usize) as int == i);
            if i == drained[0] as int {
                assert(!occ1[i]);
                if out[i] {
                    assert(clear_ready(occ1, drained.drop_first(), ready.drop_first())[i]);
                    assert(occ1[i]);
                }
            } else {
                assert(drained[0] != i as usize);
                let k = choose|k: int| 0 <= k < drained.len() && drained[k] == i as usize;
                assert(k != 0);
                assert(drained.drop_first()[k - 1] == i as usize);
                assert(drained.drop_first().contains(i as usize));
                assert(occ1[i] == occ[i]);
            }
        }
    }
}

} // verus!
