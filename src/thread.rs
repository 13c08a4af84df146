//! The worker pool's supervision.
use vstd::prelude::*;

pub mod pool;

verus! {

} // verus!
