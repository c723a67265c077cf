use vstd::prelude::*;

verus! {

/// Which scheduling strategy the driver runs.
#[derive(Clone, Copy, Debug, PartialEq, Eq, Structural)]
pub enum Strategy {
    /// Rescan every pending operation on every cycle.
    Rescan,
    /// Recheck only the operations the wake registry reports as ready.
    EventAware,
}

/// The run's immutable configuration: operation count, delay bounds and
/// granularity in milliseconds, and the chosen strategy. Fixed at startup,
/// passed explicitly to the driver and the generators, never ambient.
#[derive(Clone, Copy, Debug)]
pub struct Config {
    pub count: usize,
    pub min_ms: u64,
    pub max_ms: u64,
    pub granularity_ms: u64,
    pub strategy: Strategy,
}

impl Config {
    /// The delay bounds are sound: a nonempty sampling window and a
    /// positive granularity.
    pub open spec fn wf(&self) -> bool {
        self.min_ms < self.max_ms && self.granularity_ms > 0
    }

    /// Build a configuration, rejecting delay bounds the duration
    /// generator cannot work with.
    pub fn new(count: usize, min_ms: u64, max_ms: u64, granularity_ms: u64, strategy: Strategy) -> (r:
        Option<Config>)
        ensures
            r is Some <==> (min_ms < max_ms && granularity_ms > 0),
            r matches Some(c) ==> c.wf() && c.count == count && c.min_ms == min_ms && c.max_ms
                == max_ms && c.granularity_ms == granularity_ms && c.strategy == strategy,
    {
        if min_ms < max_ms && granularity_ms > 0 {
            Some(Config { count, min_ms, max_ms, granularity_ms, strategy })
        } else {
            None
        }
    }
}

} // verus!
