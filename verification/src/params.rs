//! Build-time configuration constants and the particle position type.
//!
//! Coordinates are fixed-point integers: `SCALE` units per pixel.  The shared
//! particle radius and the grid resolution are build-time constants; together
//! they fix the simulation domain to a square of side
//! `2 * RADIUS * GRID_SIZE` pixels, centered at the origin.

use vstd::prelude::*;

verus! {

/// Fixed-point scale: coordinate units per pixel.
pub const SCALE: i64 = 65536;

/// Shared radius of every particle, in coordinate units (8 pixels).
pub const RADIUS: i64 = 8 * SCALE;

/// Particle diameter, which is also the side of one grid cell.
pub const DIAMETER: i64 = 2 * RADIUS;

/// The grid is `GRID_SIZE x GRID_SIZE` cells.
pub const GRID_SIZE: usize = 80;

/// Number of cells in the flattened grid array.
pub const GRID_CELLS: usize = 80 * 80;

/// Half the side of the covered domain: `DIAMETER * GRID_SIZE / 2`.
pub const HALF_EXTENT: i64 = 40 * DIAMETER;

/// Largest coordinate magnitude the library stores.  Positions are kept
/// within `[-COORD_LIMIT, COORD_LIMIT]` so that every squared distance fits
/// comfortably in 128-bit intermediates; this is a machine limit of the
/// fixed-point representation, far beyond the covered domain.
pub const COORD_LIMIT: i64 = 0x2000_0000_0000_0000;

/// A particle position: fixed-point x and y coordinates.
#[derive(Clone, Copy, PartialEq, Eq, Structural, Debug)]
pub struct Pos {
    pub x: i64,
    pub y: i64,
}

/// A single coordinate lies within the representable range.
pub open spec fn coord_ok(v: int) -> bool {
    -COORD_LIMIT <= v <= COORD_LIMIT
}

/// Both coordinates of a position lie within the representable range.
pub open spec fn pos_ok(p: Pos) -> bool {
    coord_ok(p.x as int) && coord_ok(p.y as int)
}

/// Every position in a store is within range.
pub open spec fn all_pos_ok(ps: Seq<Pos>) -> bool {
    forall|i: int| 0 <= i < ps.len() ==> pos_ok(#[trigger] ps[i])
}

} // verus!
