//! Single-block storage interface.
use vstd::prelude::*;

pub mod block_repr;

verus! {

} // verus!
