use vstd::prelude::*;

pub mod laws;
pub mod options;
pub mod store;
pub mod task;

verus! {

} // verus!
