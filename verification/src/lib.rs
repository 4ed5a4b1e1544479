//! An offline Monte-Carlo path tracer built on a saturating fixed-point
//! scalar, so that every stage of the renderer carries a machine-checked
//! contract: sphere intersection, closest-hit aggregation, material
//! scattering, the recursive integrator, and the tiled sampling loop.

pub mod fx;
pub mod math;
pub mod render;
pub mod rng;
pub mod trace;
