//! Errors of the batched entity store and of the wildfire environment.
use vstd::prelude::*;

verus! {

/// Failures of the batched entity store.
#[derive(Debug)]
pub enum CoreError {
    /// A local index (or an environment index) that is not live.
    IndexOutOfBounds(usize),
    /// An add that would exceed the per-environment maximum.
    CapacityExceeded { attempted: usize, max: usize },
    /// A structurally nonsensical request.
    InvalidOperation(String),
}

/// Failures of the wildfire environment.
#[derive(Debug)]
pub enum WildfireError {
    AgentIndexOutOfBounds(usize),
    FireIndexOutOfBounds(usize),
    AgentCapacityExceeded { attempted: usize, max: usize },
    FireCapacityExceeded { attempted: usize, max: usize },
    /// The configuration was rejected before any allocation.
    InvalidWildfireOperation(String),
    Core(CoreError),
}

impl From<CoreError> for WildfireError {
    fn from(e: CoreError) -> (r: WildfireError)
        ensures
            r == WildfireError::Core(e),
    {
        WildfireError::Core(e)
    }
}

impl vstd::std_specs::convert::FromSpecImpl<CoreError> for WildfireError {
    open spec fn obeys_from_spec() -> bool {
        true
    }

    open spec fn from_spec(e: CoreError) -> WildfireError {
        WildfireError::Core(e)
    }
}

} // verus!
