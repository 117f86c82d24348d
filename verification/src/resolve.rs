//! The mathematical model of collision resolution.
//!
//! `resolve_pair` is the one-shot positional correction applied to an
//! overlapping pair: with `d` the floor square root of the squared center
//! distance, both centers move along their original connecting line by
//! `(RADIUS + d/2) / d` of it, landing at a distance of about one diameter.
//! Two documented fallback policies make the step total:
//! - coincident centers (`d = 0`) would divide by zero, so the pair is left
//!   unchanged;
//! - a correction that would push a coordinate outside the representable
//!   range is skipped entirely, so stored positions stay in range.
//!
//! `run_*` fold `resolve_pair` over the deterministic scan order of the
//! resolver: interior cells with x then y ascending, the 3x3 neighborhood
//! with dx then dy ascending, particle indices ascending within each cell.
//! The same unordered pair can be visited and corrected more than once: a
//! pair of adjacent cells is framed both ways, and that repetition is part
//! of the intended dynamics, deliberately not deduplicated.

use vstd::prelude::*;
use crate::params::{Pos, pos_ok, coord_ok, all_pos_ok, RADIUS, DIAMETER, GRID_SIZE, GRID_CELLS};
use crate::math::isqrt;

verus! {

/// Absolute value.
pub open spec fn abs_of(v: int) -> int {
    if v < 0 {
        -v
    } else {
        v
    }
}

/// Squared Euclidean distance between two centers.
pub open spec fn dist_sq(a: Pos, b: Pos) -> int {
    let dx = b.x - a.x;
    let dy = b.y - a.y;
    dx * dx + dy * dy
}

/// Two particles overlap iff their center distance is below one diameter.
pub open spec fn overlapping(a: Pos, b: Pos) -> bool {
    dist_sq(a, b) < DIAMETER * DIAMETER
}

/// Signed correction along one axis: `(RADIUS + d/2) * delta / d`, with the
/// magnitude computed first and the division truncating toward zero.
pub open spec fn adj_component(delta: int, d: int) -> int {
    let mag = ((RADIUS + d / 2) * abs_of(delta)) / d;
    if delta >= 0 {
        mag
    } else {
        -mag
    }
}

/// One resolution step on the pair `(i, j)`.  Out-of-range or equal indices,
/// non-overlapping pairs, coincident centers, and corrections that would
/// leave the coordinate range all leave the store unchanged; otherwise both
/// positions move toward each other along their original connecting line,
/// using each particle's pre-update position.
pub open spec fn resolve_pair(ps: Seq<Pos>, i: int, j: int) -> Seq<Pos> {
    if !(0 <= i < ps.len() && 0 <= j < ps.len()) || i == j {
        ps
    } else {
        let a = ps[i];
        let b = ps[j];
        let dsq = dist_sq(a, b);
        if dsq == 0 || dsq >= DIAMETER * DIAMETER {
            ps
        } else {
            let d = isqrt(dsq);
            let adjx = adj_component(b.x - a.x, d);
            let adjy = adj_component(b.y - a.y, d);
            let nbx = a.x + adjx;
            let nby = a.y + adjy;
            let nax = b.x - adjx;
            let nay = b.y - adjy;
            if coord_ok(nbx) && coord_ok(nby) && coord_ok(nax) && coord_ok(nay) {
                ps.update(j, Pos { x: nbx as i64, y: nby as i64 }).update(
                    i,
                    Pos { x: nax as i64, y: nay as i64 },
                )
            } else {
                ps
            }
        }
    }
}

/// Folds `resolve_pair(_, i, _)` over the indices of `cell2` from `k` on.
pub open spec fn run_inner(ps: Seq<Pos>, i: usize, cell2: Seq<usize>, k: int) -> Seq<Pos>
    decreases cell2.len() - k,
{
    if k < 0 || k >= cell2.len() {
        ps
    } else {
        run_inner(resolve_pair(ps, i as int, cell2[k] as int), i, cell2, k + 1)
    }
}

/// Folds `run_inner` over the indices of `cell1` from `k` on: every ordered
/// pair drawn from `cell1` x `cell2`, first index ascending, second index
/// ascending within it.
pub open spec fn run_pairs(ps: Seq<Pos>, cell1: Seq<usize>, cell2: Seq<usize>, k: int) -> Seq<Pos>
    decreases cell1.len() - k,
{
    if k < 0 || k >= cell1.len() {
        ps
    } else {
        run_pairs(run_inner(ps, cell1[k], cell2, 0), cell1, cell2, k + 1)
    }
}

/// Flat index of the `n`-th cell (0..9, dx ascending then dy ascending) of
/// the 3x3 neighborhood of cell `(x, y)`.
pub open spec fn nbr_index(x: int, y: int, n: int) -> int {
    (x - 1 + n / 3) * (GRID_SIZE as int) + (y - 1 + n % 3)
}

/// Folds the current cell of `(x, y)` against its 3x3 neighborhood from
/// neighbor `n` on.
pub open spec fn run_nbrs(ps: Seq<Pos>, g: Seq<Seq<usize>>, x: int, y: int, n: int) -> Seq<Pos>
    decreases 9 - n,
{
    if n < 0 || n >= 9 {
        ps
    } else {
        run_nbrs(
            run_pairs(ps, g[x * (GRID_SIZE as int) + y], g[nbr_index(x, y, n)], 0),
            g,
            x,
            y,
            n + 1,
        )
    }
}

/// Folds `run_nbrs` over the interior cells of row `x` from `y` on.
pub open spec fn run_row(ps: Seq<Pos>, g: Seq<Seq<usize>>, x: int, y: int) -> Seq<Pos>
    decreases (GRID_SIZE as int) - 1 - y,
{
    if y < 1 || y > (GRID_SIZE as int) - 2 {
        ps
    } else {
        run_row(run_nbrs(ps, g, x, y, 0), g, x, y + 1)
    }
}

/// Folds `run_row` over the interior rows from `x` on.
pub open spec fn run_scan(ps: Seq<Pos>, g: Seq<Seq<usize>>, x: int) -> Seq<Pos>
    decreases (GRID_SIZE as int) - 1 - x,
{
    if x < 1 || x > (GRID_SIZE as int) - 2 {
        ps
    } else {
        run_scan(run_row(ps, g, x, 1), g, x + 1)
    }
}

/// One full resolver pass over grid contents `g`: interior cells only, in
/// the fixed deterministic scan order.
pub open spec fn scan_spec(ps: Seq<Pos>, g: Seq<Seq<usize>>) -> Seq<Pos> {
    run_scan(ps, g, 1)
}

/// Squaring forgets the sign.
pub proof fn lemma_abs_square(v: int)
    ensures
        abs_of(v) * abs_of(v) == v * v,
{
    if v < 0 {
        assert((-v) * (-v) == v * v) by (nonlinear_arith);
    }
}

/// `resolve_pair` keeps the store's length, keeps every position in range,
/// and touches no particle but `i` and `j`.
pub proof fn lemma_resolve_pair_basic(ps: Seq<Pos>, i: int, j: int)
    ensures
        resolve_pair(ps, i, j).len() == ps.len(),
        all_pos_ok(ps) ==> all_pos_ok(resolve_pair(ps, i, j)),
        forall|k: int|
            0 <= k < ps.len() && k != i && k != j ==> resolve_pair(ps, i, j)[k] == ps[k],
{
    let r = resolve_pair(ps, i, j);
    if r != ps {
        assert forall|k: int| 0 <= k < ps.len() && pos_ok(ps[k]) implies pos_ok(r[k]) by {}
    }
}

/// `run_inner` keeps length and range, for every starting point.
pub proof fn lemma_run_inner_basic(ps: Seq<Pos>, i: usize, cell2: Seq<usize>, k: int)
    ensures
        run_inner(ps, i, cell2, k).len() == ps.len(),
        all_pos_ok(ps) ==> all_pos_ok(run_inner(ps, i, cell2, k)),
    decreases cell2.len() - k,
{
    if k < 0 || k >= cell2.len() {
    } else {
        lemma_resolve_pair_basic(ps, i as int, cell2[k] as int);
        lemma_run_inner_basic(resolve_pair(ps, i as int, cell2[k] as int), i, cell2, k + 1);
    }
}

/// `run_pairs` keeps length and range.
pub proof fn lemma_run_pairs_basic(ps: Seq<Pos>, cell1: Seq<usize>, cell2: Seq<usize>, k: int)
    ensures
        run_pairs(ps, cell1, cell2, k).len() == ps.len(),
        all_pos_ok(ps) ==> all_pos_ok(run_pairs(ps, cell1, cell2, k)),
    decreases cell1.len() - k,
{
    if k < 0 || k >= cell1.len() {
    } else {
        lemma_run_inner_basic(ps, cell1[k], cell2, 0);
        lemma_run_pairs_basic(run_inner(ps, cell1[k], cell2, 0), cell1, cell2, k + 1);
    }
}

/// `run_nbrs` keeps length and range.
pub proof fn lemma_run_nbrs_basic(ps: Seq<Pos>, g: Seq<Seq<usize>>, x: int, y: int, n: int)
    ensures
        run_nbrs(ps, g, x, y, n).len() == ps.len(),
        all_pos_ok(ps) ==> all_pos_ok(run_nbrs(ps, g, x, y, n)),
    decreases 9 - n,
{
    if n < 0 || n >= 9 {
    } else {
        let ps1 = run_pairs(ps, g[x * (GRID_SIZE as int) + y], g[nbr_index(x, y, n)], 0);
        lemma_run_pairs_basic(ps, g[x * (GRID_SIZE as int) + y], g[nbr_index(x, y, n)], 0);
        lemma_run_nbrs_basic(ps1, g, x, y, n + 1);
    }
}

/// `run_row` keeps length and range.
pub proof fn lemma_run_row_basic(ps: Seq<Pos>, g: Seq<Seq<usize>>, x: int, y: int)
    ensures
        run_row(ps, g, x, y).len() == ps.len(),
        all_pos_ok(ps) ==> all_pos_ok(run_row(ps, g, x, y)),
    decreases (GRID_SIZE as int) - 1 - y,
{
    if y < 1 || y > (GRID_SIZE as int) - 2 {
    } else {
        lemma_run_nbrs_basic(ps, g, x, y, 0);
        lemma_run_row_basic(run_nbrs(ps, g, x, y, 0), g, x, y + 1);
    }
}

/// `run_scan` keeps length and range.
pub proof fn lemma_run_scan_basic(ps: Seq<Pos>, g: Seq<Seq<usize>>, x: int)
    ensures
        run_scan(ps, g, x).len() == ps.len(),
        all_pos_ok(ps) ==> all_pos_ok(run_scan(ps, g, x)),
    decreases (GRID_SIZE as int) - 1 - x,
{
    if x < 1 || x > (GRID_SIZE as int) - 2 {
    } else {
        lemma_run_row_basic(ps, g, x, 1);
        lemma_run_scan_basic(run_row(ps, g, x, 1), g, x + 1);
    }
}

} // verus!
