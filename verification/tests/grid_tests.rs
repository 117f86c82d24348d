//! Cell-coordinate and grid-rebuild behavior.

use particle_grid::grid::cell_coordinate;
use particle_grid::model::Model;
use particle_grid::params::{Pos, DIAMETER, GRID_SIZE, HALF_EXTENT, SCALE};
use particle_grid::store::ParticleStore;

#[test]
fn store_is_index_stable() {
    let mut s = ParticleStore::new();
    assert_eq!(s.len(), 0);
    let i0: usize = s.add(Pos { x: 1, y: 2 });
    let i1: usize = s.add(Pos { x: 3, y: 4 });
    assert_eq!((i0, i1), (0, 1));
    assert_eq!(s.get(0), Pos { x: 1, y: 2 });
    s.set(0, Pos { x: 9, y: 9 });
    assert_eq!(s.get(0), Pos { x: 9, y: 9 });
    assert_eq!(s.get(1), Pos { x: 3, y: 4 });
    assert_eq!(s.len(), 2);
}

#[test]
fn cell_coordinate_always_in_range() {
    let samples: Vec<Pos> = vec![
        Pos { x: 0, y: 0 },
        Pos { x: -HALF_EXTENT, y: -HALF_EXTENT },
        Pos { x: HALF_EXTENT - 1, y: HALF_EXTENT - 1 },
        Pos { x: HALF_EXTENT, y: 0 },
        Pos { x: -HALF_EXTENT - 1, y: 0 },
        Pos { x: -HALF_EXTENT - DIAMETER, y: 7 * DIAMETER },
        Pos { x: 123 * DIAMETER + 55, y: -987 * DIAMETER - 1 },
        Pos { x: 500_000 * SCALE, y: -500_000 * SCALE },
    ];
    for p in &samples {
        let (x, y) = cell_coordinate(p);
        assert!(x < GRID_SIZE);
        assert!(y < GRID_SIZE);
    }
}

#[test]
fn cell_coordinate_center_and_corners() {
    assert_eq!(cell_coordinate(&Pos { x: 0, y: 0 }), (40, 40));
    assert_eq!(cell_coordinate(&Pos { x: -HALF_EXTENT, y: -HALF_EXTENT }), (0, 0));
    assert_eq!(cell_coordinate(&Pos { x: HALF_EXTENT - 1, y: 0 }), (79, 40));
}

#[test]
fn cell_coordinate_wraps_around() {
    // One diameter beyond either edge of the covered domain aliases back in.
    assert_eq!(cell_coordinate(&Pos { x: HALF_EXTENT, y: 0 }).0, 0);
    assert_eq!(cell_coordinate(&Pos { x: -HALF_EXTENT - DIAMETER, y: 0 }).0, 79);
    // A truncated quotient of zero lands in cell 0 from both sides.
    assert_eq!(cell_coordinate(&Pos { x: -HALF_EXTENT - 1, y: 0 }).0, 0);
}

#[test]
fn rebuild_puts_each_particle_in_exactly_one_cell() {
    let mut m = Model::new();
    m.on_pointer_move(0, 0);
    m.on_pointer_move(3 * SCALE, 4 * SCALE);
    m.on_pointer_move(-HALF_EXTENT, HALF_EXTENT - 1);
    m.on_pointer_move(25 * DIAMETER, -13 * DIAMETER);
    m.update_grid();
    let n: usize = m.particle_count();
    assert_eq!(n, 4);
    let mut seen: Vec<usize> = vec![0; n];
    for x in 0..GRID_SIZE {
        for y in 0..GRID_SIZE {
            let cell = m.grid.get(x, y);
            for &index in cell.iter() {
                assert!(index < n);
                seen[index] += 1;
                let p = m.position(index);
                assert_eq!(cell_coordinate(&p), (x, y));
            }
        }
    }
    for count in &seen {
        assert_eq!(*count, 1);
    }
}

#[test]
fn add_inserts_into_grid_at_current_position() {
    let mut m = Model::new();
    m.on_pointer_move(0, 0);
    // Without any tick, the new index is already in its cell.
    assert_eq!(m.grid.get(40, 40), &vec![0usize]);
    m.on_pointer_move(0, 0);
    assert_eq!(m.grid.get(40, 40), &vec![0usize, 1]);
}

#[test]
fn particle_walk_matches_indexed_access() {
    let mut m = Model::new();
    m.on_pointer_move(1, 2);
    m.on_pointer_move(-3 * SCALE, 4 * SCALE);
    m.on_pointer_move(0, 0);
    let walk = m.particles();
    assert_eq!(walk.len(), 3);
    for (i, p) in walk.iter().enumerate() {
        assert_eq!(*p, m.position(i));
    }
}

#[test]
fn pointer_events_append_unconditionally() {
    let mut m = Model::new();
    assert_eq!(m.particle_count(), 0);
    m.on_pointer_move(7 * SCALE, -2 * SCALE);
    m.on_pointer_move(7 * SCALE, -2 * SCALE);
    assert_eq!(m.particle_count(), 2);
    assert_eq!(m.position(0), Pos { x: 7 * SCALE, y: -2 * SCALE });
    assert_eq!(m.position(1), Pos { x: 7 * SCALE, y: -2 * SCALE });
}
