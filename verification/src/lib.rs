//! Verified core of a runtime for differentially private analyses: random
//! bit sampling, IEEE-754 bit strings, scheduling of a computation graph,
//! and the shape logic of a few components.

pub mod binary;
pub mod snapping;
pub mod scheduler;
pub mod materialize;
pub mod components;
