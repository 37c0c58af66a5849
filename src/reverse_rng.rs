use vstd::prelude::*;

pub mod data_point;
pub mod input;
pub mod search;
pub mod simd_search;

verus! {

} // verus!
