//! Collision-resolution scenarios: exact fixed-point outcomes of whole
//! ticks, traced through the deterministic scan order.

use particle_grid::model::Model;
use particle_grid::params::{Pos, DIAMETER, HALF_EXTENT, RADIUS, SCALE};

fn distance_px(a: Pos, b: Pos) -> f64 {
    let dx: f64 = (b.x - a.x) as f64 / SCALE as f64;
    let dy: f64 = (b.y - a.y) as f64 / SCALE as f64;
    (dx * dx + dy * dy).sqrt()
}

#[test]
fn scenario_a_axis_pair_separates_to_one_diameter() {
    // Particles at (0,0) and (5,0) pixels, diameter 16 pixels.
    let mut m = Model::new();
    m.on_pointer_move(0, 0);
    m.on_pointer_move(5 * SCALE, 0);
    m.on_tick();
    let p0 = m.position(0);
    let p1 = m.position(1);
    // Exact fixed-point outcome: t = 2.1, so (0,0) -> (-5.5,0), (5,0) -> (10.5,0).
    assert_eq!(p0, Pos { x: -360448, y: 0 });
    assert_eq!(p1, Pos { x: 688128, y: 0 });
    // Distance exactly one diameter, midpoint unchanged at (2.5, 0).
    assert_eq!(p1.x - p0.x, DIAMETER);
    assert!((distance_px(p0, p1) - 16.0).abs() < 1e-4);
    assert_eq!(p0.x + p1.x, 5 * SCALE);
    assert_eq!(p0.y + p1.y, 0);
}

#[test]
fn scenario_a_second_tick_changes_nothing() {
    let mut m = Model::new();
    m.on_pointer_move(0, 0);
    m.on_pointer_move(5 * SCALE, 0);
    m.on_tick();
    let p0 = m.position(0);
    let p1 = m.position(1);
    m.on_tick();
    assert_eq!(m.position(0), p0);
    assert_eq!(m.position(1), p1);
}

#[test]
fn two_body_diagonal_keeps_midpoint_and_separates() {
    // (0,0) and (3,4) pixels: distance 5, an exact square root, but the
    // interpolation truncates, so the final distance is one diameter only
    // up to a few fixed-point units.
    let mut m = Model::new();
    m.on_pointer_move(0, 0);
    m.on_pointer_move(3 * SCALE, 4 * SCALE);
    m.on_tick();
    let p0 = m.position(0);
    let p1 = m.position(1);
    assert_eq!(p0, Pos { x: -216268, y: -288358 });
    assert_eq!(p1, Pos { x: 412876, y: 550502 });
    // Midpoint is preserved exactly; distance to within fixed-point error.
    assert_eq!(p0.x + p1.x, 3 * SCALE);
    assert_eq!(p0.y + p1.y, 4 * SCALE);
    assert!((distance_px(p0, p1) - 16.0).abs() < 1e-3);
}

#[test]
fn zero_distance_pair_is_left_unchanged() {
    // Coincident centers: the interpolation factor would divide by zero,
    // so the documented fallback leaves the pair in place.
    let mut m = Model::new();
    m.on_pointer_move(2 * SCALE, 3 * SCALE);
    m.on_pointer_move(2 * SCALE, 3 * SCALE);
    m.on_tick();
    assert_eq!(m.position(0), Pos { x: 2 * SCALE, y: 3 * SCALE });
    assert_eq!(m.position(1), Pos { x: 2 * SCALE, y: 3 * SCALE });
}

#[test]
fn settled_configuration_is_a_fixed_point() {
    // No pair closer than one diameter: repeated ticks change nothing.
    let mut m = Model::new();
    m.on_pointer_move(0, 0);
    m.on_pointer_move(2 * DIAMETER, 0);
    m.on_pointer_move(0, 2 * DIAMETER);
    m.on_tick();
    m.on_tick();
    assert_eq!(m.position(0), Pos { x: 0, y: 0 });
    assert_eq!(m.position(1), Pos { x: 2 * DIAMETER, y: 0 });
    assert_eq!(m.position(2), Pos { x: 0, y: 2 * DIAMETER });
}

#[test]
fn scenario_b_border_cell_is_a_dead_zone() {
    // A particle in border cell x = 0, another exactly one diameter away:
    // no overlap is ever resolved, the pair stays put.
    let mut m = Model::new();
    m.on_pointer_move(-HALF_EXTENT, 0);
    m.on_pointer_move(-HALF_EXTENT + DIAMETER, 0);
    m.on_tick();
    assert_eq!(m.position(0), Pos { x: -HALF_EXTENT, y: 0 });
    assert_eq!(m.position(1), Pos { x: -HALF_EXTENT + DIAMETER, y: 0 });
}

#[test]
fn scenario_b_overlap_inside_border_cell_is_never_resolved() {
    // Two overlapping particles both residing in border cell (0, 40):
    // border cells are never scanned as the current cell, so the overlap
    // survives every tick.
    let mut m = Model::new();
    m.on_pointer_move(-HALF_EXTENT, 0);
    m.on_pointer_move(-HALF_EXTENT + RADIUS, 0);
    m.on_tick();
    m.on_tick();
    assert_eq!(m.position(0), Pos { x: -HALF_EXTENT, y: 0 });
    assert_eq!(m.position(1), Pos { x: -HALF_EXTENT + RADIUS, y: 0 });
}

#[test]
fn scenario_c_three_collinear_particles() {
    // (0,0), (6,0), (12,0) pixels, each neighbor pair closer than one
    // diameter: the fixed scan order gives one deterministic outcome,
    // (-5, 0), (3.5, 0), (19.5, 0) pixels.
    let mut m = Model::new();
    m.on_pointer_move(0, 0);
    m.on_pointer_move(6 * SCALE, 0);
    m.on_pointer_move(12 * SCALE, 0);
    m.on_tick();
    assert_eq!(m.position(0), Pos { x: -5 * SCALE, y: 0 });
    assert_eq!(m.position(1), Pos { x: 229376, y: 0 });
    assert_eq!(m.position(2), Pos { x: 1277952, y: 0 });
}

#[test]
fn a_single_particle_is_never_paired_with_itself() {
    // The only candidate pair frames the particle against itself, which the
    // resolver never resolves.
    let mut m = Model::new();
    m.on_pointer_move(0, 0);
    m.on_tick();
    m.on_tick();
    assert_eq!(m.particle_count(), 1);
    assert_eq!(m.position(0), Pos { x: 0, y: 0 });
}

#[test]
fn wraparound_aliasing_causes_no_false_collision() {
    // Two particles eighty cells apart alias into the same grid cell, but
    // the overlap test uses true distance, so neither moves.
    let mut m = Model::new();
    m.on_pointer_move(-HALF_EXTENT + DIAMETER, 0);
    m.on_pointer_move(-HALF_EXTENT + 81 * DIAMETER, 0);
    m.update_grid();
    let c0 = particle_grid::grid::cell_coordinate(&m.position(0));
    let c1 = particle_grid::grid::cell_coordinate(&m.position(1));
    assert_eq!(c0, c1);
    m.on_tick();
    assert_eq!(m.position(0), Pos { x: -HALF_EXTENT + DIAMETER, y: 0 });
    assert_eq!(m.position(1), Pos { x: -HALF_EXTENT + 81 * DIAMETER, y: 0 });
}
