//! Verified building blocks: a fixed-size worker-pool model together with a
//! collection of small verified utilities (line search, text transforms,
//! simple statistics, and demonstration types).

pub mod basics;
pub mod closures;
pub mod extremes;
pub mod grep;
pub mod http;
pub mod inventory;
pub mod kitchen;
pub mod macro_output;
pub mod pool;
pub mod runner;
pub mod server;
pub mod stats;
pub mod text;

use vstd::prelude::*;

verus! {

/// Adds two machine words.
pub fn add(left: usize, right: usize) -> (r: usize)
    requires
        left + right <= usize::MAX,
    ensures
        r == left + right,
{
    left + right
}

} // verus!
