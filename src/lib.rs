use vstd::prelude::*;

pub mod buffer;
pub mod config;
pub mod escape;

verus! {

} // verus!
