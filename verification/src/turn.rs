//! Which way the triangles of a mesh turn.
//!
//! Where the vertices of the polygon are placed at the corners of a convex
//! polygon, in anticlockwise order, no triangle of the mesh is clockwise.

use vstd::prelude::*;
use crate::area::{lemma_wedge_turned, place, triangle_area, wedge};
use crate::laws::lemma_start_exists;
use crate::model::{
    after, all_active, before, begins, cap, closing, comb, fan, join_of, joins, last_lit, lit,
    mesh, none_active, run_first, start_index, strips, vertex, visit,
};
use crate::point::MarchPoint;
use crate::wrap::{lemma_wrap, lemma_wrap_wide, wrap};

verus! {

/// Twice the signed area of the triangle with the corners `a`, `b` and `c`:
/// positive where they lie in anticlockwise order, zero where they lie in line.
pub open spec fn turn(a: (int, int), b: (int, int), c: (int, int)) -> int {
    wedge(a, b) + wedge(b, c) + wedge(c, a)
}

/// The positions are the corners of a convex polygon in anticlockwise order:
/// no three of them, taken in rising order, lie in clockwise order.
pub open spec fn convex(pts: Seq<(int, int)>) -> bool {
    forall|i: int, j: int, k: int|
        0 <= i < j < k < pts.len() ==> #[trigger] turn(pts[i], pts[j], pts[k]) >= 0
}

/// The sum of two positions.
pub open spec fn plus(a: (int, int), b: (int, int)) -> (int, int) {
    (a.0 + b.0, a.1 + b.1)
}

/// Twice the position at place `d` of the way around the polygon, counted in
/// half edges from vertex 0: a vertex at an even place, the middle of an edge
/// at an odd one.
pub open spec fn half_way(pts: Seq<(int, int)>, d: int) -> (int, int) {
    let n = pts.len() as int;
    plus(pts[wrap(n, d / 2)], pts[wrap(n, (d + 1) / 2)])
}

/// A wedge between sums is the sum of the wedges between their parts.
proof fn lemma_wedge_of_sums(a: (int, int), b: (int, int), c: (int, int), d: (int, int))
    ensures
        wedge(plus(a, b), plus(c, d)) == wedge(a, c) + wedge(a, d) + wedge(b, c) + wedge(b, d),
{
    reveal(wedge);
    assert((a.0 + b.0) * (c.1 + d.1) == a.0 * c.1 + a.0 * d.1 + b.0 * c.1 + b.0 * d.1)
        by (nonlinear_arith);
    assert((c.0 + d.0) * (a.1 + b.1) == c.0 * a.1 + c.0 * b.1 + d.0 * a.1 + d.0 * b.1)
        by (nonlinear_arith);
}

/// Three positions of which two are the same lie in line.
proof fn lemma_turn_flat(a: (int, int), b: (int, int))
    ensures
        turn(a, a, b) == 0,
        turn(a, b, b) == 0,
        turn(a, b, a) == 0,
{
    lemma_wedge_turned(a, b);
    lemma_wedge_turned(a, a);
    lemma_wedge_turned(b, b);
}

/// On a convex polygon, three vertices met in this order on one way around
/// it do not lie in clockwise order.
proof fn lemma_vertices_turn(pts: Seq<(int, int)>, u: int, v: int, w: int)
    requires
        convex(pts),
        pts.len() >= 1,
        -pts.len() <= u <= v <= w <= u + pts.len(),
        w < 3 * pts.len(),
    ensures
        turn(pts[wrap(pts.len() as int, u)], pts[wrap(pts.len() as int, v)], pts[wrap(
            pts.len() as int,
            w,
        )]) >= 0,
{
    let n = pts.len() as int;
    lemma_wrap_wide(n, u);
    lemma_wrap_wide(n, v);
    lemma_wrap_wide(n, w);
    let i = wrap(n, u);
    let j = wrap(n, v);
    let k = wrap(n, w);
    lemma_turn_flat(pts[i], pts[j]);
    lemma_turn_flat(pts[i], pts[k]);
    lemma_turn_flat(pts[j], pts[k]);
    if i < j && j < k {
        assert(turn(pts[i], pts[j], pts[k]) >= 0);
    } else if j < k && k < i {
        assert(turn(pts[j], pts[k], pts[i]) >= 0);
    } else if k < i && i < j {
        assert(turn(pts[k], pts[i], pts[j]) >= 0);
    }
}

/// On a convex polygon, three places met in this order on one way around it
/// do not lie in clockwise order.
pub proof fn lemma_places_turn(pts: Seq<(int, int)>, d: int, e: int, f: int)
    requires
        convex(pts),
        pts.len() >= 1,
        -2 * pts.len() <= d < e < f < d + 2 * pts.len(),
        f < 6 * pts.len() - 1,
    ensures
        turn(half_way(pts, d), half_way(pts, e), half_way(pts, f)) >= 0,
{
    let n = pts.len() as int;
    let (d0, d1) = (d / 2, (d + 1) / 2);
    let (e0, e1) = (e / 2, (e + 1) / 2);
    let (f0, f1) = (f / 2, (f + 1) / 2);
    let (a0, a1) = (pts[wrap(n, d0)], pts[wrap(n, d1)]);
    let (b0, b1) = (pts[wrap(n, e0)], pts[wrap(n, e1)]);
    let (c0, c1) = (pts[wrap(n, f0)], pts[wrap(n, f1)]);
    lemma_vertices_turn(pts, d0, e0, f0);
    lemma_vertices_turn(pts, d0, e1, f1);
    lemma_vertices_turn(pts, d1, e0, f1);
    lemma_vertices_turn(pts, d1, e1, f0);
    lemma_wedge_of_sums(a0, a1, b0, b1);
    lemma_wedge_of_sums(b0, b1, c0, c1);
    lemma_wedge_of_sums(c0, c1, a0, a1);
    // Among these four triangles of vertices, each wedge between two parts
    // occurs once.
    assert(turn(half_way(pts, d), half_way(pts, e), half_way(pts, f)) == turn(a0, b0, c0) + turn(
        a0,
        b1,
        c1,
    ) + turn(a1, b0, c1) + turn(a1, b1, c0));
}

/// No triangle of the mesh is clockwise.
pub open spec fn anticlockwise(pts: Seq<(int, int)>, m: Seq<[MarchPoint; 3]>) -> bool {
    forall|t: int| 0 <= t < m.len() ==> triangle_area(pts, #[trigger] m[t]) >= 0
}

/// Where vertex `v` is met after `u` steps around the polygon, the vertex
/// lies at place `2 * u`, the midpoint before it one place earlier and the
/// midpoint after it one place later.
proof fn lemma_corner_places(pts: Seq<(int, int)>, v: int, u: int)
    requires
        1 <= pts.len() <= 256,
        -pts.len() < u < 3 * pts.len() - 1,
        v == wrap(pts.len() as int, u),
    ensures
        place(pts, MarchPoint::At(v as u8)) == half_way(pts, 2 * u),
        place(pts, before(pts.len() as int, v)) == half_way(pts, 2 * u - 1),
        place(pts, after(pts.len() as int, v)) == half_way(pts, 2 * u + 1),
{
    let n = pts.len() as int;
    lemma_wrap_wide(n, u);
    lemma_wrap_wide(n, u - 1);
    lemma_wrap_wide(n, u + 1);
    lemma_wrap(n, v + n - 1);
    lemma_wrap(n, v + 1);
}

/// A triangle whose corners are met in this order on one way around a
/// convex polygon, from whichever corner one begins, is not clockwise.
proof fn lemma_triangle_turns(pts: Seq<(int, int)>, t: [MarchPoint; 3], d: int, e: int, f: int)
    requires
        convex(pts),
        pts.len() >= 1,
        place(pts, t[0]) == half_way(pts, d),
        place(pts, t[1]) == half_way(pts, e),
        place(pts, t[2]) == half_way(pts, f),
        -2 * pts.len() <= d < 6 * pts.len() - 1,
        -2 * pts.len() <= e < 6 * pts.len() - 1,
        -2 * pts.len() <= f < 6 * pts.len() - 1,
        (d < e < f < d + 2 * pts.len()) || (e < f < d < e + 2 * pts.len()) || (f < d < e < f + 2
            * pts.len()),
    ensures
        triangle_area(pts, t) >= 0,
{
    if d < e < f {
        lemma_places_turn(pts, d, e, f);
    } else if e < f < d {
        lemma_places_turn(pts, e, f, d);
    } else {
        lemma_places_turn(pts, f, d, e);
    }
}

/// A triangle with two corners at one position is flat.
proof fn lemma_triangle_flat(pts: Seq<(int, int)>, t: [MarchPoint; 3])
    requires
        place(pts, t[0]) == place(pts, t[1]) || place(pts, t[1]) == place(pts, t[2]) || place(
            pts,
            t[2],
        ) == place(pts, t[0]),
    ensures
        triangle_area(pts, t) == 0,
{
    lemma_turn_flat(place(pts, t[0]), place(pts, t[1]));
    lemma_turn_flat(place(pts, t[1]), place(pts, t[2]));
    lemma_turn_flat(place(pts, t[2]), place(pts, t[0]));
}

/// A run begins at or before each of its positions, and the last active
/// position below `p` is active and below `p`.
proof fn lemma_run_bounds(active: Seq<bool>, s: int, p: int)
    requires
        0 <= p,
    ensures
        0 <= run_first(active, s, p) <= p,
        p > 0 && lit(active, s, p - 1) ==> run_first(active, s, p) < p,
        -1 <= last_lit(active, s, p) < p,
        last_lit(active, s, p) >= 0 ==> lit(active, s, last_lit(active, s, p)),
    decreases p,
{
    if p > 0 {
        lemma_run_bounds(active, s, p - 1);
    }
}

/// The positions at which the clusters that begin below `p` begin.
spec fn firsts(active: Seq<bool>, s: int, p: int) -> Seq<int>
    decreases p,
{
    if p <= 0 {
        Seq::empty()
    } else if begins(active, s, p - 1) {
        firsts(active, s, p - 1).push(p - 1)
    } else {
        firsts(active, s, p - 1)
    }
}

/// The join points are the midpoints before the positions at which the
/// clusters begin, and those positions rise.
proof fn lemma_firsts(active: Seq<bool>, s: int, p: int)
    requires
        0 <= p,
    ensures
        ({
            let n = active.len() as int;
            let j = joins(active, s, p);
            let b = firsts(active, s, p);
            let e = last_lit(active, s, p);
            &&& b.len() == j.len()
            &&& forall|c: int|
                0 <= c < b.len() ==> 0 <= #[trigger] b[c] < p && j[c] == before(
                    n,
                    vertex(n, s, b[c]),
                )
            &&& forall|c: int, d: int| 0 <= c < d < b.len() ==> b[c] < b[d]
            &&& e >= 0 <==> b.len() > 0
            &&& e >= 0 ==> b.last() == run_first(active, s, e)
        }),
    decreases p,
{
    if p > 0 {
        lemma_firsts(active, s, p - 1);
    }
}

/// No triangle that the walk lays is clockwise.
proof fn lemma_strips_turn(active: Seq<bool>, s: int, p: int, pts: Seq<(int, int)>)
    requires
        convex(pts),
        pts.len() == active.len(),
        2 <= active.len() <= 256,
        0 <= s < active.len(),
        0 <= p <= active.len(),
        !lit(active, s, active.len() - 1),
    ensures
        anticlockwise(pts, strips(active, s, p)),
    decreases p,
{
    let n = active.len() as int;
    if p > 0 {
        let q = p - 1;
        lemma_strips_turn(active, s, q, pts);
        lemma_run_bounds(active, s, q);
        let u = s + q;
        let v = vertex(n, s, q);
        let e = last_lit(active, s, q);
        lemma_corner_places(pts, v, u);
        let done = strips(active, s, q);
        let more = visit(active, s, q);
        if lit(active, s, q) {
            if q > 0 && lit(active, s, q - 1) {
                let f = run_first(active, s, q);
                let join = join_of(active, s, q);
                lemma_corner_places(pts, vertex(n, s, f), s + f);
                lemma_triangle_turns(
                    pts,
                    [before(n, v), MarchPoint::At(v as u8), join],
                    2 * u - 1,
                    2 * u,
                    2 * (s + f) - 1,
                );
                lemma_triangle_turns(
                    pts,
                    [MarchPoint::At(v as u8), after(n, v), join],
                    2 * u,
                    2 * u + 1,
                    2 * (s + f) - 1,
                );
            } else {
                lemma_triangle_turns(pts, cap(n, v), 2 * u, 2 * u + 1, 2 * u - 1);
                if e >= 0 {
                    lemma_run_bounds(active, s, e);
                    let f = run_first(active, s, e);
                    lemma_corner_places(pts, vertex(n, s, f), s + f);
                    lemma_corner_places(pts, vertex(n, s, e), s + e);
                    lemma_triangle_turns(
                        pts,
                        [before(n, v), join_of(active, s, e), after(n, vertex(n, s, e))],
                        2 * u - 1,
                        2 * (s + f) - 1,
                        2 * (s + e) + 1,
                    );
                }
            }
        }
        let m = done + more;
        assert forall|t: int| 0 <= t < m.len() implies triangle_area(pts, #[trigger] m[t])
            >= 0 by {
            if t < done.len() {
                assert(m[t] == done[t]);
            } else {
                assert(m[t] == more[t - done.len()]);
            }
        }
    }
}

/// The triangle that closes the ring of the clusters is not clockwise.
proof fn lemma_closing_turn(active: Seq<bool>, s: int, pts: Seq<(int, int)>)
    requires
        convex(pts),
        pts.len() == active.len(),
        2 <= active.len() <= 256,
        0 <= s < active.len(),
        !lit(active, s, active.len() - 1),
    ensures
        anticlockwise(pts, closing(active, s)),
{
    let n = active.len() as int;
    let j = joins(active, s, n);
    let b = firsts(active, s, n);
    let e = last_lit(active, s, n);
    if j.len() > 1 {
        lemma_firsts(active, s, n);
        lemma_run_bounds(active, s, n);
        lemma_run_bounds(active, s, e);
        assert(b[0] < b[b.len() - 1]);
        lemma_corner_places(pts, vertex(n, s, b[0]), s + b[0]);
        lemma_corner_places(pts, vertex(n, s, b.last()), s + b.last());
        lemma_corner_places(pts, vertex(n, s, e), s + e);
        lemma_triangle_turns(
            pts,
            [j[0], j.last(), after(n, vertex(n, s, e))],
            2 * (s + b[0]) - 1,
            2 * (s + b.last()) - 1,
            2 * (s + e) + 1,
        );
    }
}

/// No triangle among the join points is clockwise.
proof fn lemma_comb_turn(active: Seq<bool>, s: int, idx: int, pts: Seq<(int, int)>)
    requires
        convex(pts),
        pts.len() == active.len(),
        2 <= active.len() <= 256,
        0 <= s < active.len(),
        0 <= idx,
    ensures
        anticlockwise(pts, comb(joins(active, s, active.len() as int), idx)),
    decreases joins(active, s, active.len() as int).len() - idx,
{
    let n = active.len() as int;
    let j = joins(active, s, n);
    let b = firsts(active, s, n);
    let k = j.len() as int;
    if idx + 1 < k {
        lemma_comb_turn(active, s, idx + 2, pts);
        lemma_firsts(active, s, n);
        lemma_wrap(k, idx + 2);
        let third = wrap(k, idx + 2);
        let head = [j[idx], j[idx + 1], j[third]];
        let tail = comb(j, idx + 2);
        assert(b[idx] < b[idx + 1]);
        lemma_corner_places(pts, vertex(n, s, b[idx]), s + b[idx]);
        lemma_corner_places(pts, vertex(n, s, b[idx + 1]), s + b[idx + 1]);
        lemma_corner_places(pts, vertex(n, s, b[third]), s + b[third]);
        if third == idx {
            lemma_triangle_flat(pts, head);
        } else {
            if idx + 2 < k {
                assert(b[idx + 1] < b[idx + 2]);
            } else {
                assert(b[0] < b[idx]);
            }
            lemma_triangle_turns(
                pts,
                head,
                2 * (s + b[idx]) - 1,
                2 * (s + b[idx + 1]) - 1,
                2 * (s + b[third]) - 1,
            );
        }
        let m = seq![head] + tail;
        assert forall|t: int| 0 <= t < m.len() implies triangle_area(pts, #[trigger] m[t])
            >= 0 by {
            if t >= 1 {
                assert(m[t] == tail[t - 1]);
            }
        }
    }
}

/// No triangle of the fan over the whole polygon is clockwise.
proof fn lemma_fan_turn(pts: Seq<(int, int)>)
    requires
        convex(pts),
        1 <= pts.len() <= 256,
    ensures
        anticlockwise(pts, fan(pts.len() as int)),
{
    let n = pts.len() as int;
    assert forall|t: int| 0 <= t < fan(n).len() implies triangle_area(pts, #[trigger] fan(n)[t])
        >= 0 by {
        lemma_wrap(n, 0);
        lemma_wrap(n, t + 1);
        lemma_wrap(n, t + 2);
        lemma_triangle_turns(pts, fan(n)[t], 0, 2 * (t + 1), 2 * (t + 2));
    }
}

/// The triangles of a mesh all turn one way: where the vertices lie at the
/// corners of a convex polygon, in anticlockwise order, no triangle of the
/// mesh is clockwise.
pub proof fn lemma_mesh_turns_one_way(active: Seq<bool>, pts: Seq<(int, int)>)
    requires
        1 <= active.len() <= 256,
        pts.len() == active.len(),
        convex(pts),
    ensures
        anticlockwise(pts, mesh(active)),
{
    let n = active.len() as int;
    if none_active(active) {
    } else if all_active(active) {
        lemma_fan_turn(pts);
    } else {
        let s = start_index(active);
        lemma_start_exists(active);
        let j = joins(active, s, n);
        let a = strips(active, s, n);
        let b = closing(active, s);
        let c = comb(j, 0);
        lemma_strips_turn(active, s, n, pts);
        lemma_closing_turn(active, s, pts);
        lemma_comb_turn(active, s, 0, pts);
        let m = a + b + c;
        assert forall|t: int| 0 <= t < m.len() implies triangle_area(pts, #[trigger] m[t])
            >= 0 by {
            if t < a.len() {
                assert(m[t] == a[t]);
            } else if t < a.len() + b.len() {
                assert(m[t] == b[t - a.len()]);
            } else {
                assert(m[t] == c[t - a.len() - b.len()]);
            }
        }
    }
}

} // verus!
