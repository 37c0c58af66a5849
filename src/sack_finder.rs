use vstd::prelude::*;

pub mod app;

verus! {

} // verus!
