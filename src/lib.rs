//! A checked layer over a native gradient-boosting engine: status codes become
//! typed results, configurations become the engine's parameter text, and the
//! sizes of the buffers handed to the engine are computed here.

use vstd::prelude::*;

pub mod error;
pub mod model;
pub mod names;
pub mod params;
pub mod predict;
pub mod training;

verus! {

} // verus!
