use vstd::prelude::*;

pub mod error;
pub mod fresh_file_finder;
pub mod gui;
pub mod read;
pub mod rng;
pub mod sack_finder;
pub mod save;
pub mod text;
pub mod write;
pub mod reverse_rng;

verus! {

} // verus!
