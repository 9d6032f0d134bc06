use vstd::prelude::*;

pub mod amount;
pub mod domain;
pub mod executor;
pub mod index;
pub mod intent;
pub mod json;
pub mod limits;
pub mod ports;
pub mod text;

verus! {

} // verus!
