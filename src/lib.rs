//! Builder for programmable blockchain transactions: an argument graph of
//! inputs and commands, with alias resolution and finalization into a flat,
//! positionally indexed transaction value.
use vstd::prelude::*;

pub mod api;
pub mod builder;
pub mod encoding;
pub mod error;
pub mod laws;
pub mod model;

verus! {

} // verus!
