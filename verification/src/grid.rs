//! The spatial-partition grid: a fixed `GRID_SIZE x GRID_SIZE` array of
//! cells, each one diameter wide, covering a square domain centered at the
//! origin.  A cell holds the ordered sequence of store indices of the
//! particles currently mapped to it; the whole grid is cleared and
//! repopulated from the store every tick.
//!
//! The cell coordinate of a position offsets it by half the domain extent,
//! divides by the diameter, truncates toward zero, and reduces modulo
//! `GRID_SIZE` (Euclidean, so the result always lies in `[0, GRID_SIZE)`).
//! Positions outside the covered domain therefore wrap around instead of
//! being rejected: the documented edge-case policy of the simulation,
//! not an error.

use vstd::prelude::*;
use vstd::pervasive::VecAdditionalExecFns;
use vstd::arithmetic::div_mod::{lemma_fundamental_div_mod, lemma_fundamental_div_mod_converse};
use crate::params::{Pos, pos_ok, DIAMETER, GRID_SIZE, GRID_CELLS, HALF_EXTENT};

verus! {

/// Cell coordinate of a single axis value: offset by half the extent,
/// truncate the quotient by the diameter toward zero, then reduce modulo
/// `GRID_SIZE` with a nonnegative remainder.
pub open spec fn cell_of(v: int) -> int {
    let shifted = v + HALF_EXTENT;
    let q = if shifted >= 0 {
        shifted / (DIAMETER as int)
    } else {
        -((-shifted) / (DIAMETER as int))
    };
    q % (GRID_SIZE as int)
}

/// Flat index of the cell a position maps to: `x * GRID_SIZE + y`.
pub open spec fn cell_index(p: Pos) -> int {
    cell_of(p.x as int) * GRID_SIZE + cell_of(p.y as int)
}

/// `cell_of` always lands in `[0, GRID_SIZE)`.
pub proof fn lemma_cell_of_in_range(v: int)
    ensures
        0 <= cell_of(v) < GRID_SIZE,
{
    vstd::arithmetic::div_mod::lemma_mod_bound(
        if v + HALF_EXTENT >= 0 {
            (v + HALF_EXTENT) / (DIAMETER as int)
        } else {
            -((-(v + HALF_EXTENT)) / (DIAMETER as int))
        },
        GRID_SIZE as int,
    );
}

/// `cell_index` always lands in `[0, GRID_CELLS)`.
pub proof fn lemma_cell_index_in_range(p: Pos)
    ensures
        0 <= cell_index(p) < GRID_CELLS,
{
    lemma_cell_of_in_range(p.x as int);
    lemma_cell_of_in_range(p.y as int);
}

/// Cell coordinate along one axis, computed with unsigned arithmetic.
fn cell_axis(v: i64) -> (c: usize)
    requires
        crate::params::coord_ok(v as int),
    ensures
        c == cell_of(v as int),
        c < GRID_SIZE,
{
    proof {
        lemma_cell_of_in_range(v as int);
    }
    let shifted: i64 = v + HALF_EXTENT;
    let n: u64 = GRID_SIZE as u64;
    if shifted >= 0 {
        let q: u64 = (shifted as u64) / (DIAMETER as u64);
        let c: u64 = q % n;
        assert(q == (shifted as int) / (DIAMETER as int));
        (c as usize)
    } else {
        let m: u64 = ((-shifted) as u64) / (DIAMETER as u64);
        let r: u64 = m % n;
        proof {
            let mi = m as int;
            let g = GRID_SIZE as int;
            lemma_fundamental_div_mod(mi, g);
            if mi % g == 0 {
                lemma_fundamental_div_mod_converse(-mi, g, -(mi / g), 0);
            } else {
                lemma_fundamental_div_mod_converse(-mi, g, -(mi / g) - 1, g - mi % g);
            }
        }
        if r == 0 {
            0usize
        } else {
            ((n - r) as usize)
        }
    }
}

/// Cell coordinate of a position: both axes, each in `[0, GRID_SIZE)`.
pub fn cell_coordinate(p: &Pos) -> (c: (usize, usize))
    requires
        pos_ok(*p),
    ensures
        c.0 == cell_of(p.x as int),
        c.1 == cell_of(p.y as int),
        c.0 < GRID_SIZE,
        c.1 < GRID_SIZE,
{
    (cell_axis(p.x), cell_axis(p.y))
}

/// The spatial grid: `GRID_CELLS` growable index sequences in a flat array,
/// cell `(x, y)` at flat position `x * GRID_SIZE + y`.
pub struct Grid {
    cells: Vec<Vec<usize>>,
}

/// Contents of the flat cell `c` as a sequence of store indices.
pub closed spec fn cell_at(g: Grid, c: int) -> Seq<usize> {
    g.cells@[c]@
}

/// The grid has its fixed `GRID_CELLS`-cell structure.
pub closed spec fn grid_dims(g: Grid) -> bool {
    g.cells@.len() == GRID_CELLS
}

/// Every index stored anywhere in the grid is below `len`.
pub open spec fn grid_indices_below(g: Grid, len: int) -> bool {
    forall|c: int, k: int|
        0 <= c < GRID_CELLS && 0 <= k < cell_at(g, c).len() ==> #[trigger] cell_at(g, c)[k] < len
}

/// Contents of flat cell `c` after the first `n` particles of `ps` have
/// been inserted in index order: exactly the indices below `n` that map to
/// `c`, ascending.
pub open spec fn cell_seq(ps: Seq<Pos>, n: int, c: int) -> Seq<usize>
    decreases n,
{
    if n <= 0 {
        Seq::<usize>::empty()
    } else {
        let rest = cell_seq(ps, n - 1, c);
        if cell_index(ps[n - 1]) == c {
            rest.push((n - 1) as usize)
        } else {
            rest
        }
    }
}

/// Contents of every cell after a full rebuild from the store.
pub open spec fn rebuild_cells(ps: Seq<Pos>) -> Seq<Seq<usize>> {
    Seq::new(GRID_CELLS as nat, |c: int| cell_seq(ps, ps.len() as int, c))
}

/// The grid's cells as one sequence of index sequences.
pub open spec fn grid_view(g: Grid) -> Seq<Seq<usize>> {
    Seq::new(GRID_CELLS as nat, |c: int| cell_at(g, c))
}

/// Every index a cell of `cell_seq` holds is a store index below `n` whose
/// position maps to that cell, each appears at most once, and they are in
/// ascending order.
pub proof fn lemma_cell_seq_elems(ps: Seq<Pos>, n: int, c: int)
    requires
        0 <= n <= usize::MAX,
    ensures
        forall|e: usize|
            #[trigger] cell_seq(ps, n, c).contains(e) <==> (e < n && cell_index(ps[e as int])
                == c),
        forall|p: int, q: int|
            0 <= p < q < cell_seq(ps, n, c).len() ==> #[trigger] cell_seq(ps, n, c)[p]
                < #[trigger] cell_seq(ps, n, c)[q],
    decreases n,
{
    if n <= 0 {
        assert forall|e: usize| #[trigger] cell_seq(ps, n, c).contains(e) implies false by {
            assert(cell_seq(ps, n, c).len() == 0);
        }
    } else {
        lemma_cell_seq_elems(ps, n - 1, c);
        let rest = cell_seq(ps, n - 1, c);
        let cur = cell_seq(ps, n, c);
        if cell_index(ps[n - 1]) == c {
            assert(cur == rest.push((n - 1) as usize));
            assert forall|e: usize| #[trigger] cur.contains(e) implies (e < n && cell_index(
                ps[e as int],
            ) == c) by {
                let k = choose|k: int| 0 <= k < cur.len() && cur[k] == e;
                if k < rest.len() {
                    assert(rest.contains(e));
                }
            }
            assert forall|e: usize| e < n && cell_index(ps[e as int]) == c implies cur.contains(
                e,
            ) by {
                if e < n - 1 {
                    assert(rest.contains(e));
                    let k = choose|k: int| 0 <= k < rest.len() && rest[k] == e;
                    assert(cur[k] == e);
                } else {
                    assert(cur[rest.len() as int] == e);
                }
            }
            assert forall|p: int, q: int| 0 <= p < q < cur.len() implies cur[p] < cur[q] by {
                if q < rest.len() {
                } else {
                    assert(cur[q] == (n - 1) as usize);
                    assert(rest.contains(rest[p]));
                }
            }
        } else {
            assert forall|e: usize| e < n && cell_index(ps[e as int]) == c implies cur.contains(
                e,
            ) by {
                assert(rest.contains(e));
            }
        }
    }
}

/// Copies a cell's index sequence into a fresh vector.
pub(crate) fn copy_cell(v: &Vec<usize>) -> (r: Vec<usize>)
    ensures
        r@ == v@,
{
    let mut r: Vec<usize> = Vec::new();
    let mut i: usize = 0;
    while i < v.len()
        invariant
            i <= v.len(),
            r@ == v@.subrange(0, i as int),
        decreases v.len() - i,
    {
        r.push(v[i]);
        assert(r@ =~= v@.subrange(0, i + 1));
        i = i + 1;
    }
    assert(r@ =~= v@);
    r
}

impl Grid {
    /// A grid of `GRID_CELLS` empty cells.
    pub fn new() -> (g: Grid)
        ensures
            grid_dims(g),
            forall|c: int| 0 <= c < GRID_CELLS ==> #[trigger] cell_at(g, c) == Seq::<usize>::empty(),
    {
        let mut cells: Vec<Vec<usize>> = Vec::new();
        let mut i: usize = 0;
        while i < GRID_CELLS
            invariant
                i <= GRID_CELLS,
                cells@.len() == i,
                forall|c: int| 0 <= c < i ==> (#[trigger] cells@[c])@ == Seq::<usize>::empty(),
            decreases GRID_CELLS - i,
        {
            cells.push(Vec::new());
            i = i + 1;
        }
        Grid { cells }
    }

    /// The index sequence of cell `(x, y)`; both coordinates must be in
    /// range — the resolver guarantees this by construction.
    pub fn get(&self, x: usize, y: usize) -> (r: &Vec<usize>)
        requires
            grid_dims(*self),
            x < GRID_SIZE,
            y < GRID_SIZE,
        ensures
            r@ == cell_at(*self, x * GRID_SIZE + y),
    {
        &self.cells[x * GRID_SIZE + y]
    }

    /// Empties every cell while keeping the grid structure.
    pub fn clear(&mut self)
        requires
            grid_dims(*old(self)),
        ensures
            grid_dims(*final(self)),
            forall|c: int|
                0 <= c < GRID_CELLS ==> #[trigger] cell_at(*final(self), c) == Seq::<usize>::empty(),
    {
        let mut i: usize = 0;
        while i < GRID_CELLS
            invariant
                grid_dims(*self),
                i <= GRID_CELLS,
                forall|c: int| 0 <= c < i ==> #[trigger] cell_at(*self, c) == Seq::<usize>::empty(),
            decreases GRID_CELLS - i,
        {
            let ghost pre = *self;
            self.cells.set(i, Vec::new());
            proof {
                assert forall|c: int| 0 <= c < i + 1 implies #[trigger] cell_at(*self, c)
                    == Seq::<usize>::empty() by {
                    if c < i {
                        assert(cell_at(*self, c) == cell_at(pre, c));
                    }
                }
            }
            i = i + 1;
        }
    }

    /// Appends `index` to the cell the position maps to; every other cell is
    /// untouched.
    pub fn add(&mut self, p: &Pos, index: usize)
        requires
            grid_dims(*old(self)),
            pos_ok(*p),
        ensures
            grid_dims(*final(self)),
            cell_at(*final(self), cell_index(*p)) == cell_at(*old(self), cell_index(*p)).push(index),
            forall|c: int|
                0 <= c < GRID_CELLS && c != cell_index(*p) ==> #[trigger] cell_at(*final(self), c)
                    == cell_at(*old(self), c),
    {
        let (cx, cy) = cell_coordinate(p);
        let ci: usize = cx * GRID_SIZE + cy;
        let mut cell = copy_cell(&self.cells[ci]);
        cell.push(index);
        self.cells.set(ci, cell);
    }
}

} // verus!
