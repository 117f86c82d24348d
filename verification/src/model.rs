//! The simulation aggregate: particle store plus spatial grid, with the
//! collision resolver and the tick driver.  One tick clears the grid,
//! reinserts every particle at its current position, and runs the resolver
//! once; the whole effect on the store is pinned to the functional model
//! `tick_spec`.

use vstd::prelude::*;
use vstd::arithmetic::mul::lemma_mul_upper_bound;
use vstd::arithmetic::div_mod::{lemma_fundamental_div_mod, lemma_mod_bound};
use crate::params::{Pos, pos_ok, coord_ok, all_pos_ok, RADIUS, DIAMETER, GRID_SIZE, GRID_CELLS,
    COORD_LIMIT};
use crate::store::ParticleStore;
use crate::grid::{Grid, cell_at, grid_dims, grid_indices_below, cell_index, cell_seq,
    rebuild_cells, grid_view, lemma_cell_index_in_range, lemma_cell_seq_elems, copy_cell};
use crate::resolve::{abs_of, dist_sq, overlapping, resolve_pair, run_inner, run_pairs, nbr_index,
    run_nbrs, run_row, run_scan, scan_spec, lemma_abs_square, lemma_resolve_pair_basic};
use crate::math::{isqrt_u128, lemma_isqrt_bounds, lemma_isqrt_below, lemma_isqrt_above};

verus! {

/// The simulation state: the particle store and the grid, exclusively owned
/// and mutated in place by the tick driver.
pub struct Model {
    pub store: ParticleStore,
    pub grid: Grid,
}

/// Well-formedness: the grid has its fixed structure, every stored position
/// is in range, and every index the grid holds is a valid store index.
pub open spec fn model_wf(m: Model) -> bool {
    &&& grid_dims(m.grid)
    &&& all_pos_ok(m.store@)
    &&& grid_indices_below(m.grid, m.store@.len() as int)
}

/// The full effect of one tick on the stored positions: one resolver pass
/// over the grid as rebuilt from those positions.
pub open spec fn tick_spec(ps: Seq<Pos>) -> Seq<Pos> {
    scan_spec(ps, rebuild_cells(ps))
}

/// The squared diameter, the overlap threshold for squared distances.
fn diameter_sq() -> (r: u128)
    ensures
        r == DIAMETER * DIAMETER,
        r == 1099511627776u128,
{
    assert(DIAMETER == 1048576);
    assert(1048576u128 * 1048576u128 == 1099511627776u128) by (nonlinear_arith);
    (DIAMETER as u128) * (DIAMETER as u128)
}

/// Squared center distance, in unsigned 128-bit arithmetic.
fn dist_sq_exec(a: Pos, b: Pos) -> (r: u128)
    requires
        pos_ok(a),
        pos_ok(b),
    ensures
        r == dist_sq(a, b),
{
    let dx: i128 = (b.x as i128) - (a.x as i128);
    let dy: i128 = (b.y as i128) - (a.y as i128);
    let ux: u128 = if dx >= 0 {
        dx as u128
    } else {
        (-dx) as u128
    };
    let uy: u128 = if dy >= 0 {
        dy as u128
    } else {
        (-dy) as u128
    };
    proof {
        assert(ux == abs_of(b.x - a.x));
        assert(uy == abs_of(b.y - a.y));
        lemma_abs_square(b.x - a.x);
        lemma_abs_square(b.y - a.y);
        lemma_mul_upper_bound(ux as int, 2 * COORD_LIMIT as int, ux as int, 2 * COORD_LIMIT as int);
        lemma_mul_upper_bound(uy as int, 2 * COORD_LIMIT as int, uy as int, 2 * COORD_LIMIT as int);
    }
    ux * ux + uy * uy
}

impl Model {
    /// A fresh simulation: no particles, an empty grid.
    pub fn new() -> (m: Model)
        ensures
            m.store@ == Seq::<Pos>::empty(),
            model_wf(m),
    {
        Model { store: ParticleStore::new(), grid: Grid::new() }
    }

    /// Number of particles, for diagnostic display.
    pub fn particle_count(&self) -> (n: usize)
        ensures
            n == self.store@.len(),
    {
        self.store.len()
    }

    /// Position of the particle at `index`, for rendering; indices are
    /// stable, so a caller may restart the walk at any time.
    pub fn position(&self, index: usize) -> (p: Pos)
        requires
            index < self.store@.len(),
        ensures
            p == self.store@[index as int],
    {
        self.store.get(index)
    }

    /// The rendering walk: every position in index order, so entry `i` is
    /// the particle with store index `i`.  The walk is finite, not retained,
    /// and can be re-created at any time; indices are stable.
    #[verifier::loop_isolation(false)]
    pub fn particles(&self) -> (r: Vec<Pos>)
        ensures
            r@ == self.store@,
    {
        let mut r: Vec<Pos> = Vec::new();
        let n = self.store.len();
        let mut i: usize = 0;
        while i < n
            invariant
                i <= n,
                r@ == self.store@.subrange(0, i as int),
            decreases n - i,
        {
            r.push(self.store.get(i));
            assert(r@ =~= self.store@.subrange(0, i + 1));
            i = i + 1;
        }
        assert(r@ =~= self.store@);
        r
    }

    /// Clears the grid and reinserts every particle from the store at its
    /// current position, in index order.
    #[verifier::loop_isolation(false)]
    pub fn update_grid(&mut self)
        requires
            grid_dims(old(self).grid),
            all_pos_ok(old(self).store@),
        ensures
            final(self).store == old(self).store,
            grid_view(final(self).grid) == rebuild_cells(final(self).store@),
            model_wf(*final(self)),
    {
        self.grid.clear();
        let n = self.store.len();
        let mut k: usize = 0;
        while k < n
            invariant
                k <= n,
                self.store == old(self).store,
                grid_dims(self.grid),
                forall|c: int|
                    0 <= c < GRID_CELLS ==> #[trigger] cell_at(self.grid, c) == cell_seq(
                        self.store@,
                        k as int,
                        c,
                    ),
            decreases n - k,
        {
            let p = self.store.get(k);
            proof {
                lemma_cell_index_in_range(p);
            }
            let ghost pre = self.grid;
            self.grid.add(&p, k);
            proof {
                assert forall|c: int| 0 <= c < GRID_CELLS implies #[trigger] cell_at(self.grid, c)
                    == cell_seq(self.store@, k + 1, c) by {
                    if c == cell_index(p) {
                        assert(cell_at(self.grid, c) == cell_at(pre, c).push(k));
                    } else {
                        assert(cell_at(self.grid, c) == cell_at(pre, c));
                    }
                }
            }
            k = k + 1;
        }
        proof {
            assert(grid_view(self.grid) =~= rebuild_cells(self.store@));
            assert forall|c: int, kk: int|
                0 <= c < GRID_CELLS && 0 <= kk < cell_at(self.grid, c).len() implies #[trigger] cell_at(
                self.grid,
                c,
            )[kk] < self.store@.len() by {
                lemma_cell_seq_elems(self.store@, n as int, c);
                assert(cell_at(self.grid, c).contains(cell_at(self.grid, c)[kk]));
            }
        }
    }

    /// Whether the two particles overlap: center distance strictly below
    /// one diameter.
    pub fn cell_collision(&self, obj_index_1: usize, obj_index_2: usize) -> (r: bool)
        requires
            obj_index_1 < self.store@.len(),
            obj_index_2 < self.store@.len(),
            all_pos_ok(self.store@),
        ensures
            r == overlapping(self.store@[obj_index_1 as int], self.store@[obj_index_2 as int]),
    {
        let a = self.store.get(obj_index_1);
        let b = self.store.get(obj_index_2);
        let dsq = dist_sq_exec(a, b);
        let dd: u128 = diameter_sq();
        dsq < dd
    }

    /// Applies the one-shot positional correction to the pair.  The effect
    /// on the store is exactly `resolve_pair`; in particular coincident
    /// centers and corrections that would leave the coordinate range fall
    /// back to leaving the pair unchanged, and a non-overlapping pair is
    /// untouched.  A pair is always two distinct particles.
    pub fn solve_collision(&mut self, obj_index_1: usize, obj_index_2: usize)
        requires
            obj_index_1 != obj_index_2,
            obj_index_1 < old(self).store@.len(),
            obj_index_2 < old(self).store@.len(),
            all_pos_ok(old(self).store@),
        ensures
            final(self).store@ == resolve_pair(
                old(self).store@,
                obj_index_1 as int,
                obj_index_2 as int,
            ),
            final(self).grid == old(self).grid,
            final(self).store@.len() == old(self).store@.len(),
            all_pos_ok(final(self).store@),
    {
        proof {
            lemma_resolve_pair_basic(old(self).store@, obj_index_1 as int, obj_index_2 as int);
        }
        let a = self.store.get(obj_index_1);
        let b = self.store.get(obj_index_2);
        let dsq = dist_sq_exec(a, b);
        let dd: u128 = diameter_sq();
        if dsq == 0 || dsq >= dd {
            return ;
        }
        let d: u128 = isqrt_u128(dsq);
        proof {
            lemma_isqrt_bounds(dsq as int);
            lemma_isqrt_below(dsq as int, DIAMETER as int);
            lemma_isqrt_above(dsq as int, 1);
        }
        let half: u128 = d / 2;
        let dx: i128 = (b.x as i128) - (a.x as i128);
        let dy: i128 = (b.y as i128) - (a.y as i128);
        let ux: u128 = if dx >= 0 {
            dx as u128
        } else {
            (-dx) as u128
        };
        let uy: u128 = if dy >= 0 {
            dy as u128
        } else {
            (-dy) as u128
        };
        proof {
            assert(ux == abs_of(b.x - a.x));
            assert(uy == abs_of(b.y - a.y));
            lemma_abs_square(b.x - a.x);
            lemma_abs_square(b.y - a.y);
            lemma_isqrt_above(dsq as int, ux as int);
            lemma_isqrt_above(dsq as int, uy as int);
            assert(ux <= d && uy <= d);
        }
        let rr: u128 = RADIUS as u128;
        proof {
            lemma_mul_upper_bound(rr + half, DIAMETER as int, ux as int, DIAMETER as int);
            lemma_mul_upper_bound(rr + half, DIAMETER as int, uy as int, DIAMETER as int);
        }
        let numx: u128 = (rr + half) * ux;
        let numy: u128 = (rr + half) * uy;
        let magx: u128 = numx / d;
        let magy: u128 = numy / d;
        proof {
            lemma_fundamental_div_mod(numx as int, d as int);
            lemma_fundamental_div_mod(numy as int, d as int);
            lemma_mod_bound(numx as int, d as int);
            lemma_mod_bound(numy as int, d as int);
            lemma_mul_upper_bound(rr + half, rr + half, ux as int, d as int);
            lemma_mul_upper_bound(rr + half, rr + half, uy as int, d as int);
            assert(magx < DIAMETER) by (nonlinear_arith)
                requires
                    numx == d * magx + (numx as int) % (d as int),
                    (numx as int) % (d as int) >= 0,
                    numx <= (rr + half) * (d as int),
                    rr + half < DIAMETER,
                    d >= 1,
            {}
            assert(magy < DIAMETER) by (nonlinear_arith)
                requires
                    numy == d * magy + (numy as int) % (d as int),
                    (numy as int) % (d as int) >= 0,
                    numy <= (rr + half) * (d as int),
                    rr + half < DIAMETER,
                    d >= 1,
            {}
        }
        let adjx: i128 = if dx >= 0 {
            magx as i128
        } else {
            -(magx as i128)
        };
        let adjy: i128 = if dy >= 0 {
            magy as i128
        } else {
            -(magy as i128)
        };
        proof {
            assert(adjx == crate::resolve::adj_component(b.x - a.x, d as int));
            assert(adjy == crate::resolve::adj_component(b.y - a.y, d as int));
        }
        let lim: i128 = COORD_LIMIT as i128;
        let nbx: i128 = (a.x as i128) + adjx;
        let nby: i128 = (a.y as i128) + adjy;
        let nax: i128 = (b.x as i128) - adjx;
        let nay: i128 = (b.y as i128) - adjy;
        if -lim <= nbx && nbx <= lim && -lim <= nby && nby <= lim && -lim <= nax && nax <= lim
            && -lim <= nay && nay <= lim {
            self.store.set(obj_index_2, Pos { x: nbx as i64, y: nby as i64 });
            self.store.set(obj_index_1, Pos { x: nax as i64, y: nay as i64 });
            proof {
                assert(self.store@ == resolve_pair(
                    old(self).store@,
                    obj_index_1 as int,
                    obj_index_2 as int,
                ));
            }
        } else {
            proof {
                assert(self.store@ == resolve_pair(
                    old(self).store@,
                    obj_index_1 as int,
                    obj_index_2 as int,
                ));
            }
        }
    }

    /// Tests and resolves every ordered pair with differing indices drawn
    /// from `cell_1` x `cell_2`, first index ascending, second index
    /// ascending within it; each resolution uses the positions current at
    /// that moment.
    #[verifier::loop_isolation(false)]
    pub fn check_cell_collisions(&mut self, cell_1: &Vec<usize>, cell_2: &Vec<usize>)
        requires
            forall|k: int|
                0 <= k < cell_1@.len() ==> #[trigger] cell_1@[k] < old(self).store@.len(),
            forall|k: int|
                0 <= k < cell_2@.len() ==> #[trigger] cell_2@[k] < old(self).store@.len(),
            all_pos_ok(old(self).store@),
        ensures
            final(self).store@ == run_pairs(old(self).store@, cell_1@, cell_2@, 0),
            final(self).grid == old(self).grid,
            final(self).store@.len() == old(self).store@.len(),
            all_pos_ok(final(self).store@),
    {
        let mut k1: usize = 0;
        while k1 < cell_1.len()
            invariant
                k1 <= cell_1@.len(),
                run_pairs(old(self).store@, cell_1@, cell_2@, 0) == run_pairs(
                    self.store@,
                    cell_1@,
                    cell_2@,
                    k1 as int,
                ),
                self.store@.len() == old(self).store@.len(),
                all_pos_ok(self.store@),
                self.grid == old(self).grid,
            decreases cell_1@.len() - k1,
        {
            let obj_index_1 = cell_1[k1];
            let ghost ps_mid = self.store@;
            let mut k2: usize = 0;
            while k2 < cell_2.len()
                invariant
                    k2 <= cell_2@.len(),
                    k1 < cell_1@.len(),
                    obj_index_1 == cell_1@[k1 as int],
                    run_inner(ps_mid, obj_index_1, cell_2@, 0) == run_inner(
                        self.store@,
                        obj_index_1,
                        cell_2@,
                        k2 as int,
                    ),
                    self.store@.len() == old(self).store@.len(),
                    all_pos_ok(self.store@),
                    self.grid == old(self).grid,
                decreases cell_2@.len() - k2,
            {
                let obj_index_2 = cell_2[k2];
                let ghost ps_cur = self.store@;
                if obj_index_1 != obj_index_2 && self.cell_collision(obj_index_1, obj_index_2) {
                    self.solve_collision(obj_index_1, obj_index_2);
                }
                proof {
                    assert(self.store@ == resolve_pair(
                        ps_cur,
                        obj_index_1 as int,
                        obj_index_2 as int,
                    ));
                }
                k2 = k2 + 1;
            }
            k1 = k1 + 1;
        }
    }

    /// One full resolver pass: every interior cell, x then y ascending,
    /// each framed against its 3x3 neighborhood, dx then dy ascending.
    /// Border cells are never the current cell; a particle residing in one
    /// is only reached as a neighbor of an adjacent interior cell.
    #[verifier::loop_isolation(false)]
    pub fn find_collision_grid(&mut self)
        requires
            model_wf(*old(self)),
        ensures
            final(self).store@ == scan_spec(old(self).store@, grid_view(old(self).grid)),
            final(self).grid == old(self).grid,
            final(self).store@.len() == old(self).store@.len(),
            model_wf(*final(self)),
    {
        let ghost g = grid_view(old(self).grid);
        let mut x: usize = 1;
        while x < GRID_SIZE - 1
            invariant
                1 <= x <= GRID_SIZE - 1,
                run_scan(old(self).store@, g, 1) == run_scan(self.store@, g, x as int),
                self.grid == old(self).grid,
                self.store@.len() == old(self).store@.len(),
                all_pos_ok(self.store@),
            decreases GRID_SIZE - 1 - x,
        {
            let ghost ps_row = self.store@;
            let mut y: usize = 1;
            while y < GRID_SIZE - 1
                invariant
                    1 <= y <= GRID_SIZE - 1,
                    1 <= x <= GRID_SIZE - 2,
                    run_row(ps_row, g, x as int, 1) == run_row(self.store@, g, x as int, y as int),
                    self.grid == old(self).grid,
                    self.store@.len() == old(self).store@.len(),
                    all_pos_ok(self.store@),
                decreases GRID_SIZE - 1 - y,
            {
                let current_cell = copy_cell(self.grid.get(x, y));
                let ghost ps_cell = self.store@;
                let mut nk: usize = 0;
                while nk < 9
                    invariant
                        nk <= 9,
                        1 <= x <= GRID_SIZE - 2,
                        1 <= y <= GRID_SIZE - 2,
                        run_nbrs(ps_cell, g, x as int, y as int, 0) == run_nbrs(
                            self.store@,
                            g,
                            x as int,
                            y as int,
                            nk as int,
                        ),
                        current_cell@ == g[(x as int) * (GRID_SIZE as int) + (y as int)],
                        self.grid == old(self).grid,
                        self.store@.len() == old(self).store@.len(),
                        all_pos_ok(self.store@),
                    decreases 9 - nk,
                {
                    let nx = x - 1 + nk / 3;
                    let ny = y - 1 + nk % 3;
                    let other_cell = copy_cell(self.grid.get(nx, ny));
                    proof {
                        assert(other_cell@ == g[nbr_index(x as int, y as int, nk as int)]);
                        assert forall|k: int| 0 <= k < current_cell@.len() implies #[trigger] current_cell@[k]
                            < self.store@.len() by {
                            assert(cell_at(self.grid, (x as int) * (GRID_SIZE as int) + (y as int))[k]
                                < old(self).store@.len());
                        }
                        assert forall|k: int| 0 <= k < other_cell@.len() implies #[trigger] other_cell@[k]
                            < self.store@.len() by {
                            assert(cell_at(self.grid, nbr_index(x as int, y as int, nk as int))[k]
                                < old(self).store@.len());
                        }
                    }
                    self.check_cell_collisions(&current_cell, &other_cell);
                    nk = nk + 1;
                }
                y = y + 1;
            }
            x = x + 1;
        }
    }

    /// Appends a particle at `point`: the new index goes into the grid cell
    /// of the current position, then the position is appended to the store.
    pub fn add(&mut self, point: &Pos)
        requires
            pos_ok(*point),
            model_wf(*old(self)),
        ensures
            final(self).store@ == old(self).store@.push(*point),
            cell_at(final(self).grid, cell_index(*point)) == cell_at(
                old(self).grid,
                cell_index(*point),
            ).push(old(self).store@.len() as usize),
            forall|c: int|
                0 <= c < GRID_CELLS && c != cell_index(*point) ==> #[trigger] cell_at(
                    final(self).grid,
                    c,
                ) == cell_at(old(self).grid, c),
            model_wf(*final(self)),
    {
        proof {
            lemma_cell_index_in_range(*point);
        }
        let index = self.store.len();
        self.grid.add(point, index);
        let _index2: usize = self.store.add(*point);
        proof {
            let ci = cell_index(*point);
            assert forall|c: int, kk: int|
                0 <= c < GRID_CELLS && 0 <= kk < cell_at(self.grid, c).len() implies #[trigger] cell_at(
                self.grid,
                c,
            )[kk] < self.store@.len() by {
                if c == ci {
                    if kk < cell_at(old(self).grid, c).len() {
                        assert(cell_at(self.grid, c)[kk] == cell_at(old(self).grid, c)[kk]);
                    } else {
                        assert(cell_at(self.grid, c)[kk] == index);
                    }
                } else {
                    assert(cell_at(self.grid, c)[kk] == cell_at(old(self).grid, c)[kk]);
                }
            }
        }
    }

    /// A pointer event at `(x, y)` unconditionally appends a particle
    /// there: no throttling and no deduplication.
    pub fn on_pointer_move(&mut self, x: i64, y: i64)
        requires
            coord_ok(x as int),
            coord_ok(y as int),
            model_wf(*old(self)),
        ensures
            final(self).store@ == old(self).store@.push(Pos { x, y }),
            model_wf(*final(self)),
    {
        let p = Pos { x, y };
        self.add(&p);
    }

    /// One tick: clear the grid, reinsert every particle at its current
    /// position, then run the resolver once.  The store afterwards is
    /// exactly `tick_spec` of the store before.
    pub fn on_tick(&mut self)
        requires
            model_wf(*old(self)),
        ensures
            final(self).store@ == tick_spec(old(self).store@),
            grid_view(final(self).grid) == rebuild_cells(old(self).store@),
            final(self).store@.len() == old(self).store@.len(),
            model_wf(*final(self)),
    {
        self.update_grid();
        self.find_collision_grid();
        proof {
            crate::resolve::lemma_run_scan_basic(old(self).store@, rebuild_cells(old(self).store@), 1);
        }
    }
}

} // verus!
