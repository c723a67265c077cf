//! A workload that drives a large number of concurrently pending timed
//! operations to completion inside a single cooperative loop, comparing two
//! strategies: a naive scheduler that rescans every pending operation on
//! every cycle, and an event-aware scheduler that only rechecks operations
//! whose readiness was signalled through a shared wake registry.

pub mod aware;
pub mod config;
pub mod durations;
pub mod model;
pub mod naive;
pub mod op;
pub mod registry;
