//! A particle simulation core: a growing store of fixed-radius circular
//! particles, a spatial-partition grid rebuilt every tick, and a collision
//! resolver that separates overlapping pairs with a one-shot positional
//! correction.
//!
//! Positions are fixed-point: one pixel is `SCALE` coordinate units, so all
//! geometry is exact integer arithmetic and every operation carries a proved
//! contract.  The windowing, drawing and pointer-capture layers are external
//! collaborators and live outside this library.

pub mod params;
pub mod math;
pub mod store;
pub mod grid;
pub mod resolve;
pub mod model;
pub mod laws;
