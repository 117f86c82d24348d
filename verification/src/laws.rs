//! The library's laws: properties that relate several operations, stated
//! and proved over the same spec functions the operations' own contracts
//! use.

use vstd::prelude::*;
use vstd::arithmetic::div_mod::lemma_fundamental_div_mod;
use crate::params::{Pos, coord_ok, RADIUS, DIAMETER, GRID_SIZE, GRID_CELLS, COORD_LIMIT, SCALE};
use crate::grid::{cell_index, cell_seq, rebuild_cells, lemma_cell_seq_elems,
    lemma_cell_index_in_range};
use crate::resolve::{abs_of, dist_sq, resolve_pair, run_inner, run_pairs, nbr_index, run_nbrs,
    run_row, run_scan, scan_spec, lemma_abs_square};
use crate::math::{isqrt, lemma_isqrt_bounds, lemma_isqrt_below, lemma_isqrt_above};
use crate::model::tick_spec;

verus! {

/// Immediately after a grid rebuild, a particle's index appears in the one
/// cell given by the cell coordinate of its position, in no other cell, and
/// exactly once there (each cell is strictly ascending, so free of
/// duplicates).
pub proof fn lemma_rebuild_exactly_one(ps: Seq<Pos>, i: usize)
    requires
        (i as int) < ps.len(),
        ps.len() <= usize::MAX,
    ensures
        0 <= cell_index(ps[i as int]) < GRID_CELLS,
        rebuild_cells(ps)[cell_index(ps[i as int])].contains(i),
        forall|c: int|
            0 <= c < GRID_CELLS && c != cell_index(ps[i as int]) ==> !(
            #[trigger] rebuild_cells(ps)[c]).contains(i),
        forall|p: int, q: int|
            0 <= p < q < rebuild_cells(ps)[cell_index(ps[i as int])].len()
                ==> #[trigger] rebuild_cells(ps)[cell_index(ps[i as int])][p]
                < #[trigger] rebuild_cells(ps)[cell_index(ps[i as int])][q],
{
    lemma_cell_index_in_range(ps[i as int]);
    let ci = cell_index(ps[i as int]);
    lemma_cell_seq_elems(ps, ps.len() as int, ci);
    assert(cell_seq(ps, ps.len() as int, ci).contains(i));
    assert forall|c: int|
        0 <= c < GRID_CELLS && c != ci implies !(#[trigger] rebuild_cells(ps)[c]).contains(i) by {
        lemma_cell_seq_elems(ps, ps.len() as int, c);
    }
}

/// A pair whose resolution leaves the store unchanged, by any of the
/// documented reasons, really is a fixed point of `resolve_pair`.
proof fn lemma_resolve_identity(ps: Seq<Pos>, i: int, j: int)
    requires
        !(0 <= i < ps.len() && 0 <= j < ps.len()) || i == j || dist_sq(ps[i], ps[j]) >= DIAMETER
            * DIAMETER,
    ensures
        resolve_pair(ps, i, j) == ps,
{
}

/// No two distinct in-range particles brought together by these two cells
/// are closer than one diameter.
pub open spec fn cell_pair_settled(ps: Seq<Pos>, c1: Seq<usize>, c2: Seq<usize>) -> bool {
    forall|a: int, b: int|
        #![trigger c1[a], c2[b]]
        0 <= a < c1.len() && 0 <= b < c2.len() && c1[a] != c2[b] && c1[a] < ps.len() && c2[b]
            < ps.len() ==> dist_sq(ps[c1[a] as int], ps[c2[b] as int]) >= DIAMETER * DIAMETER
}

/// No two particles within grid-search range are closer than one diameter:
/// every pair that some interior-cell framing of the scan brings together
/// is separated.
pub open spec fn scan_settled(ps: Seq<Pos>, g: Seq<Seq<usize>>) -> bool {
    forall|x: int, y: int, n: int|
        #![trigger nbr_index(x, y, n)]
        1 <= x <= (GRID_SIZE as int) - 2 && 1 <= y <= (GRID_SIZE as int) - 2 && 0 <= n < 9
            ==> cell_pair_settled(ps, g[x * (GRID_SIZE as int) + y], g[nbr_index(x, y, n)])
}

proof fn lemma_run_inner_fixed(ps: Seq<Pos>, i: usize, c2: Seq<usize>, k: int)
    requires
        forall|b: int|
            0 <= b < c2.len() ==> resolve_pair(ps, i as int, (#[trigger] c2[b]) as int) == ps,
    ensures
        run_inner(ps, i, c2, k) == ps,
    decreases c2.len() - k,
{
    if k < 0 || k >= c2.len() {
    } else {
        lemma_run_inner_fixed(ps, i, c2, k + 1);
    }
}

proof fn lemma_run_pairs_settled(ps: Seq<Pos>, c1: Seq<usize>, c2: Seq<usize>, k: int)
    requires
        cell_pair_settled(ps, c1, c2),
    ensures
        run_pairs(ps, c1, c2, k) == ps,
    decreases c1.len() - k,
{
    if k < 0 || k >= c1.len() {
    } else {
        assert forall|b: int|
            0 <= b < c2.len() implies resolve_pair(ps, c1[k] as int, (#[trigger] c2[b]) as int)
            == ps by {
            lemma_resolve_identity(ps, c1[k] as int, c2[b] as int);
        }
        lemma_run_inner_fixed(ps, c1[k], c2, 0);
        lemma_run_pairs_settled(ps, c1, c2, k + 1);
    }
}

proof fn lemma_run_nbrs_settled(ps: Seq<Pos>, g: Seq<Seq<usize>>, x: int, y: int, n: int)
    requires
        scan_settled(ps, g),
        1 <= x <= (GRID_SIZE as int) - 2,
        1 <= y <= (GRID_SIZE as int) - 2,
    ensures
        run_nbrs(ps, g, x, y, n) == ps,
    decreases 9 - n,
{
    if n < 0 || n >= 9 {
    } else {
        assert(cell_pair_settled(ps, g[x * (GRID_SIZE as int) + y], g[nbr_index(x, y, n)]));
        lemma_run_pairs_settled(ps, g[x * (GRID_SIZE as int) + y], g[nbr_index(x, y, n)], 0);
        lemma_run_nbrs_settled(ps, g, x, y, n + 1);
    }
}

proof fn lemma_run_row_settled(ps: Seq<Pos>, g: Seq<Seq<usize>>, x: int, y: int)
    requires
        scan_settled(ps, g),
        1 <= x <= (GRID_SIZE as int) - 2,
    ensures
        run_row(ps, g, x, y) == ps,
    decreases (GRID_SIZE as int) - 1 - y,
{
    if y < 1 || y > (GRID_SIZE as int) - 2 {
    } else {
        lemma_run_nbrs_settled(ps, g, x, y, 0);
        lemma_run_row_settled(ps, g, x, y + 1);
    }
}

proof fn lemma_run_scan_settled(ps: Seq<Pos>, g: Seq<Seq<usize>>, x: int)
    requires
        scan_settled(ps, g),
    ensures
        run_scan(ps, g, x) == ps,
    decreases (GRID_SIZE as int) - 1 - x,
{
    if x < 1 || x > (GRID_SIZE as int) - 2 {
    } else {
        lemma_run_row_settled(ps, g, x, 1);
        lemma_run_scan_settled(ps, g, x + 1);
    }
}

/// Once no two particles within grid-search range are closer than one
/// diameter, one resolver pass over that grid changes no position.
pub proof fn lemma_settled_scan_fixed(ps: Seq<Pos>, g: Seq<Seq<usize>>)
    requires
        scan_settled(ps, g),
    ensures
        scan_spec(ps, g) == ps,
{
    lemma_run_scan_settled(ps, g, 1);
}

/// Once no two particles within grid-search range are closer than one
/// diameter, a whole tick is a no-op on positions — and therefore so is
/// every further tick.
pub proof fn lemma_settled_tick_fixed(ps: Seq<Pos>)
    requires
        scan_settled(ps, rebuild_cells(ps)),
    ensures
        tick_spec(ps) == ps,
{
    lemma_settled_scan_fixed(ps, rebuild_cells(ps));
}

/// If no two distinct particles at all are closer than one diameter, the
/// grid-search-range hypothesis holds for any grid contents.
pub proof fn lemma_separated_implies_settled(ps: Seq<Pos>, g: Seq<Seq<usize>>)
    requires
        forall|i: int, j: int|
            0 <= i < ps.len() && 0 <= j < ps.len() && i != j ==> dist_sq(
                #[trigger] ps[i],
                #[trigger] ps[j],
            ) >= DIAMETER * DIAMETER,
    ensures
        scan_settled(ps, g),
{
}

/// A particle is never paired with itself during resolution: the resolver
/// only ever calls the correction on two distinct indices, and the
/// resolution step itself leaves any self-pair untouched.
pub proof fn lemma_no_self_pairing(ps: Seq<Pos>, i: int)
    ensures
        resolve_pair(ps, i, i) == ps,
{
}

/// A lone particle is framed only against itself, so a whole tick never
/// moves it.
pub proof fn lemma_lone_particle_fixed(ps: Seq<Pos>)
    requires
        ps.len() <= 1,
    ensures
        tick_spec(ps) == ps,
{
    lemma_settled_tick_fixed(ps);
}

/// A resolution step preserves the sum of the two centers, coordinate by
/// coordinate, and so preserves their midpoint: the same correction that is
/// added to one particle is subtracted from the other, computed once from
/// the pre-update positions — or nothing moves at all.
pub proof fn lemma_resolve_midpoint(ps: Seq<Pos>, i: int, j: int)
    requires
        0 <= i < ps.len(),
        0 <= j < ps.len(),
        i != j,
    ensures
        resolve_pair(ps, i, j)[i].x + resolve_pair(ps, i, j)[j].x == ps[i].x + ps[j].x,
        resolve_pair(ps, i, j)[i].y + resolve_pair(ps, i, j)[j].y == ps[i].y + ps[j].y,
{
}

/// Two-body separation: an overlapping pair at positive distance, with
/// enough margin to the coordinate range and with exact interpolation
/// arithmetic (the squared distance is a perfect even square and the
/// corrections divide evenly), lands at distance exactly one diameter after
/// a single resolution step.  On other inputs the truncating arithmetic
/// leaves the final distance within a few fixed-point units of one
/// diameter instead.
pub proof fn lemma_two_body_separation(ps: Seq<Pos>, i: int, j: int)
    requires
        0 <= i < ps.len(),
        0 <= j < ps.len(),
        i != j,
        0 < dist_sq(ps[i], ps[j]) < DIAMETER * DIAMETER,
        abs_of(ps[i].x as int) <= COORD_LIMIT - DIAMETER,
        abs_of(ps[i].y as int) <= COORD_LIMIT - DIAMETER,
        abs_of(ps[j].x as int) <= COORD_LIMIT - DIAMETER,
        abs_of(ps[j].y as int) <= COORD_LIMIT - DIAMETER,
        isqrt(dist_sq(ps[i], ps[j])) * isqrt(dist_sq(ps[i], ps[j])) == dist_sq(ps[i], ps[j]),
        isqrt(dist_sq(ps[i], ps[j])) % 2 == 0,
        ((RADIUS + isqrt(dist_sq(ps[i], ps[j])) / 2) * abs_of(ps[j].x - ps[i].x)) % isqrt(
            dist_sq(ps[i], ps[j]),
        ) == 0,
        ((RADIUS + isqrt(dist_sq(ps[i], ps[j])) / 2) * abs_of(ps[j].y - ps[i].y)) % isqrt(
            dist_sq(ps[i], ps[j]),
        ) == 0,
    ensures
        dist_sq(resolve_pair(ps, i, j)[i], resolve_pair(ps, i, j)[j]) == DIAMETER * DIAMETER,
        resolve_pair(ps, i, j)[i].x + resolve_pair(ps, i, j)[j].x == ps[i].x + ps[j].x,
        resolve_pair(ps, i, j)[i].y + resolve_pair(ps, i, j)[j].y == ps[i].y + ps[j].y,
{
    let a = ps[i];
    let b = ps[j];
    let dsq = dist_sq(a, b);
    let d = isqrt(dsq);
    let dx = b.x - a.x;
    let dy = b.y - a.y;
    let ux = abs_of(dx);
    let uy = abs_of(dy);
    lemma_isqrt_bounds(dsq);
    lemma_isqrt_above(dsq, 1);
    lemma_isqrt_below(dsq, DIAMETER as int);
    lemma_abs_square(dx);
    lemma_abs_square(dy);
    lemma_isqrt_above(dsq, ux);
    lemma_isqrt_above(dsq, uy);
    let half = d / 2;
    assert(d == 2 * half) by {
        lemma_fundamental_div_mod(d, 2);
    }
    let t = RADIUS + half;
    assert(t < DIAMETER);
    let magx = (t * ux) / d;
    let magy = (t * uy) / d;
    assert(d * magx == t * ux) by {
        lemma_fundamental_div_mod(t * ux, d);
    }
    assert(d * magy == t * uy) by {
        lemma_fundamental_div_mod(t * uy, d);
    }
    assert(t * ux <= t * d && t * uy <= t * d) by (nonlinear_arith)
        requires
            0 <= ux <= d,
            0 <= uy <= d,
            t >= 0,
    {}
    assert(magx <= t) by (nonlinear_arith)
        requires
            d >= 1,
            t >= 0,
            d * magx == t * ux,
            t * ux <= t * d,
    {}
    assert(magy <= t) by (nonlinear_arith)
        requires
            d >= 1,
            t >= 0,
            d * magy == t * uy,
            t * uy <= t * d,
    {}
    let adjx = crate::resolve::adj_component(dx, d);
    let adjy = crate::resolve::adj_component(dy, d);
    assert(abs_of(adjx) <= t && abs_of(adjy) <= t);
    if dx >= 0 {
        assert(d * adjx == t * dx);
    } else {
        assert(d * adjx == t * dx) by (nonlinear_arith)
            requires
                adjx == -magx,
                d * magx == t * ux,
                ux == -dx,
        {}
    }
    if dy >= 0 {
        assert(d * adjy == t * dy);
    } else {
        assert(d * adjy == t * dy) by (nonlinear_arith)
            requires
                adjy == -magy,
                d * magy == t * uy,
                uy == -dy,
        {}
    }
    let nbx = a.x + adjx;
    let nby = a.y + adjy;
    let nax = b.x - adjx;
    let nay = b.y - adjy;
    assert(coord_ok(nbx) && coord_ok(nby) && coord_ok(nax) && coord_ok(nay));
    let r = resolve_pair(ps, i, j);
    assert(r == ps.update(j, Pos { x: nbx as i64, y: nby as i64 }).update(
        i,
        Pos { x: nax as i64, y: nay as i64 },
    ));
    assert(r[j].x == nbx && r[j].y == nby && r[i].x == nax && r[i].y == nay);
    let ndx = nbx - nax;
    let ndy = nby - nay;
    assert(d * ndx == DIAMETER * dx) by (nonlinear_arith)
        requires
            ndx == 2 * adjx - dx,
            d * adjx == t * dx,
            t == RADIUS + half,
            d == 2 * half,
            DIAMETER == 2 * RADIUS,
    {}
    assert(d * ndy == DIAMETER * dy) by (nonlinear_arith)
        requires
            ndy == 2 * adjy - dy,
            d * adjy == t * dy,
            t == RADIUS + half,
            d == 2 * half,
            DIAMETER == 2 * RADIUS,
    {}
    assert(ndx * ndx + ndy * ndy == DIAMETER * DIAMETER) by (nonlinear_arith)
        requires
            d >= 1,
            d * ndx == DIAMETER * dx,
            d * ndy == DIAMETER * dy,
            dx * dx + dy * dy == d * d,
    {}
    assert(dist_sq(r[i], r[j]) == ndx * ndx + ndy * ndy);
}

/// Two-body separation with truncation accounted for: after one resolution
/// step, an overlapping pair at positive distance (with margin to the
/// coordinate range) ends no closer than one diameter less a few
/// fixed-point units.  When the pair starts at least one pixel apart, the
/// final squared distance is also at most `44 * DIAMETER + 18` above the
/// squared diameter, so the final distance misses one diameter by well
/// under a thousandth of a pixel.  (A pair closer than a pixel can
/// overshoot: the floor square root then normalizes the correction
/// direction coarsely.)  The midpoint is preserved exactly in every case.
pub proof fn lemma_two_body_tolerance(ps: Seq<Pos>, i: int, j: int)
    requires
        0 <= i < ps.len(),
        0 <= j < ps.len(),
        i != j,
        0 < dist_sq(ps[i], ps[j]) < DIAMETER * DIAMETER,
        abs_of(ps[i].x as int) <= COORD_LIMIT - DIAMETER,
        abs_of(ps[i].y as int) <= COORD_LIMIT - DIAMETER,
        abs_of(ps[j].x as int) <= COORD_LIMIT - DIAMETER,
        abs_of(ps[j].y as int) <= COORD_LIMIT - DIAMETER,
    ensures
        dist_sq(resolve_pair(ps, i, j)[i], resolve_pair(ps, i, j)[j]) >= DIAMETER * DIAMETER - 12
            * DIAMETER,
        dist_sq(ps[i], ps[j]) >= SCALE * SCALE ==> dist_sq(
            resolve_pair(ps, i, j)[i],
            resolve_pair(ps, i, j)[j],
        ) <= DIAMETER * DIAMETER + 44 * DIAMETER + 18,
        resolve_pair(ps, i, j)[i].x + resolve_pair(ps, i, j)[j].x == ps[i].x + ps[j].x,
        resolve_pair(ps, i, j)[i].y + resolve_pair(ps, i, j)[j].y == ps[i].y + ps[j].y,
{
    let a = ps[i];
    let b = ps[j];
    let dsq = dist_sq(a, b);
    let d = isqrt(dsq);
    let dx = b.x - a.x;
    let dy = b.y - a.y;
    let ux = abs_of(dx);
    let uy = abs_of(dy);
    lemma_isqrt_bounds(dsq);
    lemma_isqrt_above(dsq, 1);
    lemma_isqrt_below(dsq, DIAMETER as int);
    lemma_abs_square(dx);
    lemma_abs_square(dy);
    lemma_isqrt_above(dsq, ux);
    lemma_isqrt_above(dsq, uy);
    let half = d / 2;
    let parity = d % 2;
    lemma_fundamental_div_mod(d, 2);
    assert(d == 2 * half + parity && 0 <= parity <= 1);
    let t = RADIUS + half;
    assert(t < DIAMETER);
    let rx = (t * ux) % d;
    let ry = (t * uy) % d;
    let magx = (t * ux) / d;
    let magy = (t * uy) / d;
    lemma_fundamental_div_mod(t * ux, d);
    lemma_fundamental_div_mod(t * uy, d);
    vstd::arithmetic::div_mod::lemma_mod_bound(t * ux, d);
    vstd::arithmetic::div_mod::lemma_mod_bound(t * uy, d);
    assert(t * ux <= t * d && t * uy <= t * d) by (nonlinear_arith)
        requires
            0 <= ux <= d,
            0 <= uy <= d,
            t >= 0,
    {}
    assert(magx <= t) by (nonlinear_arith)
        requires
            d >= 1,
            t >= 0,
            d * magx == t * ux - rx,
            rx >= 0,
            t * ux <= t * d,
    {}
    assert(magy <= t) by (nonlinear_arith)
        requires
            d >= 1,
            t >= 0,
            d * magy == t * uy - ry,
            ry >= 0,
            t * uy <= t * d,
    {}
    assert(magx >= 0 && magy >= 0) by (nonlinear_arith)
        requires
            d >= 1,
            d * magx == t * ux - rx,
            d * magy == t * uy - ry,
            rx < d,
            ry < d,
            t * ux >= 0,
            t * uy >= 0,
    {}
    let adjx = crate::resolve::adj_component(dx, d);
    let adjy = crate::resolve::adj_component(dy, d);
    assert(abs_of(adjx) <= t && abs_of(adjy) <= t);
    let ex = if dx >= 0 {
        -rx
    } else {
        rx
    };
    let ey = if dy >= 0 {
        -ry
    } else {
        ry
    };
    if dx >= 0 {
        assert(d * adjx == t * dx + ex);
    } else {
        assert(d * adjx == t * dx + ex) by (nonlinear_arith)
            requires
                adjx == -magx,
                d * magx == t * ux - rx,
                ux == -dx,
                ex == rx,
        {}
    }
    if dy >= 0 {
        assert(d * adjy == t * dy + ey);
    } else {
        assert(d * adjy == t * dy + ey) by (nonlinear_arith)
            requires
                adjy == -magy,
                d * magy == t * uy - ry,
                uy == -dy,
                ey == ry,
        {}
    }
    let nbx = a.x + adjx;
    let nby = a.y + adjy;
    let nax = b.x - adjx;
    let nay = b.y - adjy;
    assert(coord_ok(nbx) && coord_ok(nby) && coord_ok(nax) && coord_ok(nay));
    let r = resolve_pair(ps, i, j);
    assert(r == ps.update(j, Pos { x: nbx as i64, y: nby as i64 }).update(
        i,
        Pos { x: nax as i64, y: nay as i64 },
    ));
    assert(r[j].x == nbx && r[j].y == nby && r[i].x == nax && r[i].y == nay);
    let ndx = nbx - nax;
    let ndy = nby - nay;
    let fx = -(parity * dx) + 2 * ex;
    let fy = -(parity * dy) + 2 * ey;
    assert(d * ndx == DIAMETER * dx + fx) by (nonlinear_arith)
        requires
            ndx == 2 * adjx - dx,
            d * adjx == t * dx + ex,
            t == RADIUS + half,
            d == 2 * half + parity,
            DIAMETER == 2 * RADIUS,
            fx == -(parity * dx) + 2 * ex,
    {}
    assert(d * ndy == DIAMETER * dy + fy) by (nonlinear_arith)
        requires
            ndy == 2 * adjy - dy,
            d * adjy == t * dy + ey,
            t == RADIUS + half,
            d == 2 * half + parity,
            DIAMETER == 2 * RADIUS,
            fy == -(parity * dy) + 2 * ey,
    {}
    assert(-3 * d <= fx <= 3 * d && -3 * d <= fy <= 3 * d) by (nonlinear_arith)
        requires
            fx == -(parity * dx) + 2 * ex,
            fy == -(parity * dy) + 2 * ey,
            0 <= parity <= 1,
            -d <= dx <= d,
            -d <= dy <= d,
            -d <= ex <= d,
            -d <= ey <= d,
    {}
    let sq = dist_sq(r[i], r[j]);
    assert(sq == ndx * ndx + ndy * ndy);
    assert(d * d * sq == (d * ndx) * (d * ndx) + (d * ndy) * (d * ndy)) by (nonlinear_arith)
        requires
            sq == ndx * ndx + ndy * ndy,
    {}
    let big = DIAMETER * DIAMETER;
    let cross = dx * fx + dy * fy;
    let sqe = fx * fx + fy * fy;
    assert(d * d * sq == big * dsq + 2 * DIAMETER * cross + sqe) by (nonlinear_arith)
        requires
            d * d * sq == (DIAMETER * dx + fx) * (DIAMETER * dx + fx) + (DIAMETER * dy + fy) * (
            DIAMETER * dy + fy),
            dx * dx + dy * dy == dsq,
            big == DIAMETER * DIAMETER,
            cross == dx * fx + dy * fy,
            sqe == fx * fx + fy * fy,
    {}
    assert(-6 * (d * d) <= cross <= 6 * (d * d)) by (nonlinear_arith)
        requires
            cross == dx * fx + dy * fy,
            -3 * d <= fx <= 3 * d,
            -3 * d <= fy <= 3 * d,
            -d <= dx <= d,
            -d <= dy <= d,
            d >= 0,
    {}
    assert(0 <= sqe <= 18 * (d * d)) by (nonlinear_arith)
        requires
            sqe == fx * fx + fy * fy,
            -3 * d <= fx <= 3 * d,
            -3 * d <= fy <= 3 * d,
            d >= 0,
    {}
    assert(sq >= big - 12 * DIAMETER) by (nonlinear_arith)
        requires
            d * d * sq == big * dsq + 2 * DIAMETER * cross + sqe,
            cross >= -6 * (d * d),
            sqe >= 0,
            dsq >= d * d,
            d >= 1,
            big >= 0,
            DIAMETER > 0,
    {}
    if dsq >= SCALE * SCALE {
        lemma_isqrt_above(dsq, SCALE as int);
        assert(sq <= big + 44 * DIAMETER + 18) by (nonlinear_arith)
            requires
                d * d * sq == big * dsq + 2 * DIAMETER * cross + sqe,
                cross <= 6 * (d * d),
                sqe <= 18 * (d * d),
                dsq < (d + 1) * (d + 1),
                d >= SCALE,
                SCALE >= 1,
                big == DIAMETER * DIAMETER,
                DIAMETER == 16 * SCALE,
        {}
    }
}

} // verus!
