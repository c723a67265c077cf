use vstd::prelude::*;

verus! {

/// The wake registry: the collection of slot indices whose operations have
/// signalled readiness since the last drain.
///
/// Duplicate indices are kept, not deduplicated: dropping one could lose a
/// legitimate wake. `drain` hands out the current contents, oldest insert
/// first, and leaves the registry empty.
pub struct WakeRegistry {
    items: Vec<usize>,
}

impl View for WakeRegistry {
    type V = Seq<usize>;

    closed spec fn view(&self) -> Seq<usize> {
        self.items@
    }
}

impl WakeRegistry {
    /// A registry with nothing pending.
    pub fn new() -> (r: WakeRegistry)
        ensures
            r@ == Seq::<usize>::empty(),
    {
        WakeRegistry { items: Vec::new() }
    }

    /// Append `index` to the pending-ready contents.
    pub fn insert(&mut self, index: usize)
        ensures
            final(self)@ == old(self)@.push(index),
    {
        self.items.push(index);
    }

    /// Retrieve and clear the current contents in one move: the result is
    /// everything inserted since the last drain, in insertion order, and
    /// the registry is empty afterwards.
    pub fn drain(&mut self) -> (r: Vec<usize>)
        ensures
            r@ == old(self)@,
            final(self)@ == Seq::<usize>::empty(),
    {
        let mut out: Vec<usize> = Vec::new();
        core::mem::swap(&mut self.items, &mut out);
        out
    }

    /// How many inserts are pending.
    pub fn len(&self) -> (r: usize)
        ensures
            r == self@.len(),
    {
        self.items.len()
    }

    /// A copy of the pending contents, in insertion order, without
    /// disturbing them.
    pub fn snapshot(&self) -> (r: Vec<usize>)
        ensures
            r@ == self@,
    {
        let mut out: Vec<usize> = Vec::new();
        let mut k: usize = 0;
        while k < self.items.len()
            invariant
                k <= self.items@.len(),
                out@ == self.items@.take(k as int),
            decreases self.items@.len() - k,
        {
            out.push(self.items[k]);
            proof {
                assert(out@ =~= self.items@.take(k + 1));
            }
            k = k + 1;
        }
        proof {
            assert(self.items@.take(self.items@.len() as int) =~= self.items@);
        }
        out
    }
}

} // verus!
