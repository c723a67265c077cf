use vstd::prelude::*;
use vstd::arithmetic::div_mod::{
    lemma_div_is_ordered, lemma_fundamental_div_mod, lemma_mod_bound, lemma_mod_multiples_basic,
};
use vstd::arithmetic::mul::{lemma_mul_inequality, lemma_mul_is_commutative};
use rand::RngExt;

verus! {

/// `ms` rounded down to the nearest multiple of `granularity`.
pub open spec fn quantized(ms: int, granularity: int) -> int
    recommends
        granularity > 0,
{
    (ms / granularity) * granularity
}

/// Relies on rand: `rand::rng()` hands back the thread-local generator and
/// `Rng::random_range(lo..hi)` returns a value sampled from `[lo, hi)`; it
/// panics only on an empty range, which `lo < hi` rules out. (Like any
/// first use of the thread-local generator, the call can abort if the OS
/// entropy source is unavailable — an environmental failure of the same
/// kind as running out of memory.)
#[verifier::external_body]
fn sample_uniform(lo: u64, hi: u64) -> (r: u64)
    requires
        lo < hi,
    ensures
        lo <= r < hi,
{
    rand::rng().random_range(lo..hi)
}

/// Produces the bounded, quantized random delay, in milliseconds, for one
/// pending operation: uniformly sampled from `[min_ms, max_ms)`, then
/// rounded down to a multiple of `granularity_ms`.
pub struct DurationGen {
    min_ms: u64,
    max_ms: u64,
    granularity_ms: u64,
}

impl DurationGen {
    pub closed spec fn min_ms(&self) -> u64 {
        self.min_ms
    }

    pub closed spec fn max_ms(&self) -> u64 {
        self.max_ms
    }

    pub closed spec fn granularity_ms(&self) -> u64 {
        self.granularity_ms
    }

    /// A nonempty sampling window and a positive granularity.
    pub open spec fn wf(&self) -> bool {
        self.min_ms() < self.max_ms() && self.granularity_ms() > 0
    }

    pub fn new(min_ms: u64, max_ms: u64, granularity_ms: u64) -> (r: DurationGen)
        requires
            min_ms < max_ms,
            granularity_ms > 0,
        ensures
            r.wf(),
            r.min_ms() == min_ms,
            r.max_ms() == max_ms,
            r.granularity_ms() == granularity_ms,
    {
        DurationGen { min_ms, max_ms, granularity_ms }
    }

    /// The next delay: a sample of `[min_ms, max_ms)` rounded down to a
    /// multiple of the granularity. When the bounds collapse under
    /// quantization to a single representable value, every call returns
    /// that value; that is allowed, not an error.
    pub fn next_ms(&self) -> (r: u64)
        requires
            self.wf(),
        ensures
            exists|s: u64|
                self.min_ms() <= s < self.max_ms() && r == quantized(
                    s as int,
                    self.granularity_ms() as int,
                ),
            r % self.granularity_ms() == 0,
            quantized(self.min_ms() as int, self.granularity_ms() as int) <= r <= quantized(
                (self.max_ms() - 1) as int,
                self.granularity_ms() as int,
            ),
    {
        let s = sample_uniform(self.min_ms, self.max_ms);
        let g = self.granularity_ms;
        let q = s / g;
        proof {
            let si = s as int;
            let gi = g as int;
            lemma_fundamental_div_mod(si, gi);
            lemma_mod_bound(si, gi);
            lemma_mul_is_commutative(gi, si / gi);
            assert((si / gi) * gi <= si);
        }
        let r = q * g;
        proof {
            let si = s as int;
            let gi = g as int;
            lemma_mod_multiples_basic(si / gi, gi);
            lemma_div_is_ordered(self.min_ms as int, si, gi);
            lemma_mul_inequality((self.min_ms as int) / gi, si / gi, gi);
            lemma_div_is_ordered(si, (self.max_ms - 1) as int, gi);
            lemma_mul_inequality(si / gi, ((self.max_ms - 1) as int) / gi, gi);
            assert(self.min_ms() <= s < self.max_ms() && r == quantized(
                s as int,
                self.granularity_ms() as int,
            ));
        }
        r
    }
}

} // verus!
