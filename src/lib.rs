//! Runtime core of a batched multi-agent simulation framework: a composable
//! algebra of action/observation spaces with seeded sampling and exhaustive
//! enumeration, and a fixed-capacity batched entity store.
use vstd::prelude::*;

pub mod backend;
pub mod error;
pub mod rng;
pub mod spaces;
pub mod store;
pub mod wildfire;

verus! {

/// Greeting of the core library.
pub fn hello() -> (r: &'static str)
    ensures
        r@ == "Hello from core!"@,
{
    "Hello from core!"
}

} // verus!
