//! Job-queue telemetry for a cluster dashboard: schema-driven record
//! extraction, log-path interpolation and resource aggregation.
use vstd::prelude::*;

pub mod app;
pub mod extract;
pub mod filter;
pub mod gres;
pub mod interpolate;
pub mod inventory;
pub mod order;
pub mod overview;
pub mod schema;
pub mod text;

verus! {

} // verus!
