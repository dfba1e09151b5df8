//! The area of a mesh, for any placement of the polygon's vertices at whole
//! coordinates.
//!
//! To stay within the integers, a corner is placed at twice its position: a
//! vertex at twice its coordinates, a midpoint at the sum of the coordinates
//! of its two vertices. Areas are signed, positive for corners in
//! anticlockwise order, and come out as eight times the true area.

use vstd::prelude::*;
use crate::laws::{lemma_clusters_half, lemma_joins_are_clusters, lemma_start_exists};
use crate::model::{
    after, all_active, before, cap, closing, clustered, comb, fan, is_start, join_of, joins,
    last_lit, lit, mesh, none_active, start_index, strips, vertex, visit,
};
use crate::point::MarchPoint;
use crate::wrap::{lemma_wrap, wrap};

verus! {

/// Twice the position of a corner, where vertex `i` lies at `pts[i]`.
pub open spec fn place(pts: Seq<(int, int)>, c: MarchPoint) -> (int, int) {
    match c {
        MarchPoint::At(i) => (2 * pts[i as int].0, 2 * pts[i as int].1),
        MarchPoint::Between(i, j) => (
            pts[i as int].0 + pts[j as int].0,
            pts[i as int].1 + pts[j as int].1,
        ),
    }
}

/// Twice the signed area of the triangle from the origin to `a` and on to `b`.
#[verifier::opaque]
pub open spec fn wedge(a: (int, int), b: (int, int)) -> int {
    a.0 * b.1 - b.0 * a.1
}

/// The wedge from one corner to another.
pub open spec fn step(pts: Seq<(int, int)>, a: MarchPoint, b: MarchPoint) -> int {
    wedge(place(pts, a), place(pts, b))
}

/// Eight times the signed area of a triangle.
pub open spec fn triangle_area(pts: Seq<(int, int)>, t: [MarchPoint; 3]) -> int {
    step(pts, t[0], t[1]) + step(pts, t[1], t[2]) + step(pts, t[2], t[0])
}

/// Eight times the sum of the signed areas of the triangles of a mesh.
pub open spec fn mesh_area(pts: Seq<(int, int)>, m: Seq<[MarchPoint; 3]>) -> int
    decreases m.len(),
{
    if m.len() == 0 {
        0
    } else {
        mesh_area(pts, m.drop_last()) + triangle_area(pts, m.last())
    }
}

/// The sum of the wedges along a line through the given corners.
pub open spec fn path(pts: Seq<(int, int)>, o: Seq<MarchPoint>) -> int
    decreases o.len(),
{
    if o.len() <= 1 {
        0
    } else {
        path(pts, o.drop_last()) + step(pts, o[o.len() - 2], o.last())
    }
}

/// Eight times the signed area that the closed line through the given corners
/// goes around.
pub open spec fn ring(pts: Seq<(int, int)>, o: Seq<MarchPoint>) -> int {
    if o.len() == 0 {
        0
    } else {
        path(pts, o) + step(pts, o.last(), o[0])
    }
}

/// The three corners that an active vertex adds to the outline.
pub open spec fn corner(n: int, i: int) -> Seq<MarchPoint> {
    seq![before(n, i), MarchPoint::At(i as u8), after(n, i)]
}

/// The outline of the active vertices from `lo` up to `hi`: for each of them,
/// in rising order, the midpoint before it, the vertex and the midpoint after it.
pub open spec fn outline_range(active: Seq<bool>, lo: int, hi: int) -> Seq<MarchPoint>
    decreases hi - lo,
{
    if hi <= lo {
        Seq::empty()
    } else if active[hi - 1] {
        outline_range(active, lo, hi - 1) + corner(active.len() as int, hi - 1)
    } else {
        outline_range(active, lo, hi - 1)
    }
}

/// The outline of the active part of the polygon: the closed line through it
/// runs along the polygon where it is active, through the midpoints of the
/// edges between an active and an inactive vertex, and straight across what
/// is inactive.
pub open spec fn outline(active: Seq<bool>) -> Seq<MarchPoint> {
    outline_range(active, 0, active.len() as int)
}

/// A wedge changes its sign when its sides change places, and a wedge
/// between equal sides is zero.
pub proof fn lemma_wedge_turned(a: (int, int), b: (int, int))
    ensures
        wedge(a, b) == -wedge(b, a),
        a == b ==> wedge(a, b) == 0,
{
    reveal(wedge);
}

/// The wedges from a point to the middle of a stretch and from there to its
/// end add up to the wedge from the point to the end, all taken twice.
pub proof fn lemma_wedge_through_middle(a: (int, int), b: (int, int))
    ensures
        wedge((2 * a.0, 2 * a.1), (a.0 + b.0, a.1 + b.1)) + wedge(
            (a.0 + b.0, a.1 + b.1),
            (2 * b.0, 2 * b.1),
        ) == wedge((2 * a.0, 2 * a.1), (2 * b.0, 2 * b.1)),
{
    reveal(wedge);
    let (x, y) = a;
    let (u, v) = b;
    assert((2 * x) * (y + v) == 2 * (x * y) + 2 * (x * v)) by (nonlinear_arith);
    assert((x + u) * (2 * y) == 2 * (x * y) + 2 * (u * y)) by (nonlinear_arith);
    assert((x + u) * (2 * v) == 2 * (x * v) + 2 * (u * v)) by (nonlinear_arith);
    assert((2 * u) * (y + v) == 2 * (u * y) + 2 * (u * v)) by (nonlinear_arith);
    assert((2 * x) * (2 * v) == 4 * (x * v)) by (nonlinear_arith);
    assert((2 * u) * (2 * y) == 4 * (u * y)) by (nonlinear_arith);
}

/// The area of a mesh in two parts is the sum of the areas of the parts.
pub proof fn lemma_mesh_area_concat(
    pts: Seq<(int, int)>,
    a: Seq<[MarchPoint; 3]>,
    b: Seq<[MarchPoint; 3]>,
)
    ensures
        mesh_area(pts, a + b) == mesh_area(pts, a) + mesh_area(pts, b),
    decreases b.len(),
{
    if b.len() == 0 {
        assert(a + b =~= a);
    } else {
        lemma_mesh_area_concat(pts, a, b.drop_last());
        assert((a + b).drop_last() =~= a + b.drop_last());
    }
}

/// The line through two runs of corners is the line through the first, the
/// step from its last corner to the first of the second, and the line through
/// the second.
pub proof fn lemma_path_concat(pts: Seq<(int, int)>, a: Seq<MarchPoint>, b: Seq<MarchPoint>)
    requires
        a.len() > 0,
        b.len() > 0,
    ensures
        path(pts, a + b) == path(pts, a) + step(pts, a.last(), b[0]) + path(pts, b),
    decreases b.len(),
{
    assert((a + b).drop_last() =~= a + b.drop_last());
    if b.len() == 1 {
        assert(a + b.drop_last() =~= a);
    } else {
        lemma_path_concat(pts, a, b.drop_last());
    }
}

/// The outline along the walk from vertex `s`, of the positions below `p`.
spec fn walk_outline(active: Seq<bool>, s: int, p: int) -> Seq<MarchPoint>
    decreases p,
{
    let n = active.len() as int;
    if p <= 0 {
        Seq::empty()
    } else if lit(active, s, p - 1) {
        walk_outline(active, s, p - 1) + corner(n, vertex(n, s, p - 1))
    } else {
        walk_outline(active, s, p - 1)
    }
}

/// The midpoint after a vertex is the midpoint before the next one.
proof fn lemma_shared_midpoint(pts: Seq<(int, int)>, n: int, v: int, w: int)
    requires
        1 <= n <= 256,
        0 <= v < n,
        w == wrap(n, v + 1),
    ensures
        place(pts, after(n, v)) == place(pts, before(n, w)),
{
    lemma_wrap(n, v + 1);
    lemma_wrap(n, w + n - 1);
}

/// The area of one triangle and of two.
proof fn lemma_small_mesh_area(pts: Seq<(int, int)>, t: [MarchPoint; 3], u: [MarchPoint; 3])
    ensures
        mesh_area(pts, seq![t]) == triangle_area(pts, t),
        mesh_area(pts, seq![t, u]) == triangle_area(pts, t) + triangle_area(pts, u),
{
    reveal_with_fuel(mesh_area, 3);
    assert(seq![t, u].drop_last() =~= seq![t]);
}

/// The line through the three corners of an active vertex.
proof fn lemma_corner_path(pts: Seq<(int, int)>, n: int, v: int)
    ensures
        path(pts, corner(n, v)) == step(pts, before(n, v), MarchPoint::At(v as u8)) + step(
            pts,
            MarchPoint::At(v as u8),
            after(n, v),
        ),
{
    reveal_with_fuel(path, 3);
    assert(corner(n, v).drop_last() =~= seq![before(n, v), MarchPoint::At(v as u8)]);
}

/// What the walk has covered so far: the area between its outline, the line
/// from the outline's end back to the last join point, and the line back
/// through the join points.
proof fn lemma_walk_area(active: Seq<bool>, s: int, p: int, pts: Seq<(int, int)>)
    requires
        1 <= active.len() <= 256,
        0 <= s < active.len(),
        0 <= p <= active.len(),
    ensures
        ({
            let n = active.len() as int;
            let o = walk_outline(active, s, p);
            let j = joins(active, s, p);
            let e = last_lit(active, s, p);
            if e < 0 {
                &&& o.len() == 0
                &&& j.len() == 0
                &&& strips(active, s, p).len() == 0
            } else {
                &&& e < p
                &&& lit(active, s, e)
                &&& o.len() > 0
                &&& j.len() > 0
                &&& o[0] == j[0]
                &&& place(pts, o.last()) == place(pts, after(n, vertex(n, s, e)))
                &&& j.last() == join_of(active, s, e)
                &&& mesh_area(pts, strips(active, s, p)) == path(pts, o) + step(
                    pts,
                    o.last(),
                    j.last(),
                ) - path(pts, j)
            }
        }),
    decreases p,
{
    let n = active.len() as int;
    if p > 0 {
        let q = p - 1;
        lemma_walk_area(active, s, q, pts);
        let o = walk_outline(active, s, q);
        let j = joins(active, s, q);
        let e = last_lit(active, s, q);
        let v = vertex(n, s, q);
        let b = before(n, v);
        let a = after(n, v);
        let at = MarchPoint::At(v as u8);
        let done = strips(active, s, q);
        let more = visit(active, s, q);
        lemma_mesh_area_concat(pts, done, more);
        if !lit(active, s, q) {
            assert(done + more =~= done);
        } else {
            lemma_corner_path(pts, n, v);
            lemma_wedge_turned(place(pts, a), place(pts, b));
            if q > 0 && lit(active, s, q - 1) {
                let jp = j.last();
                lemma_wrap(n, s + q - 1);
                lemma_wrap(n, s + q);
                lemma_wrap(n, vertex(n, s, q - 1) + 1);
                lemma_shared_midpoint(pts, n, vertex(n, s, q - 1), v);
                lemma_path_concat(pts, o, corner(n, v));
                lemma_small_mesh_area(pts, [b, at, jp], [at, a, jp]);
                lemma_wedge_turned(place(pts, at), place(pts, jp));
                lemma_wedge_turned(place(pts, b), place(pts, jp));
                lemma_wedge_turned(place(pts, b), place(pts, b));
                assert(more =~= seq![[b, at, jp], [at, a, jp]]);
            } else if e < 0 {
                lemma_small_mesh_area(pts, cap(n, v), cap(n, v));
                assert(walk_outline(active, s, p) =~= corner(n, v));
                assert(joins(active, s, p) =~= seq![b]);
                assert(done + more =~= seq![cap(n, v)]);
            } else {
                let jp = j.last();
                let ep = after(n, vertex(n, s, e));
                lemma_path_concat(pts, o, corner(n, v));
                lemma_small_mesh_area(pts, cap(n, v), [b, jp, ep]);
                assert(more =~= seq![cap(n, v), [b, jp, ep]]);
                assert(joins(active, s, p).drop_last() =~= j);
                lemma_wedge_turned(place(pts, jp), place(pts, b));
                lemma_wedge_turned(place(pts, jp), place(pts, ep));
            }
        }
    }
}

/// The triangles among two, three or four join points cover what the closed
/// line through the join points goes around.
proof fn lemma_comb_area(pts: Seq<(int, int)>, j: Seq<MarchPoint>)
    requires
        2 <= j.len() <= 4,
    ensures
        mesh_area(pts, comb(j, 0)) == ring(pts, j),
{
    reveal_with_fuel(comb, 3);
    reveal_with_fuel(path, 5);
    lemma_wrap(j.len() as int, 2);
    lemma_wedge_turned(place(pts, j[0]), place(pts, j[0]));
    lemma_wedge_turned(place(pts, j[0]), place(pts, j[1]));
    if j.len() == 2 {
        lemma_small_mesh_area(pts, [j[0], j[1], j[0]], [j[0], j[1], j[0]]);
        assert(comb(j, 0) =~= seq![[j[0], j[1], j[0]]]);
        assert(j.drop_last().drop_last() =~= Seq::<MarchPoint>::empty());
    } else if j.len() == 3 {
        lemma_small_mesh_area(pts, [j[0], j[1], j[2]], [j[0], j[1], j[2]]);
        assert(comb(j, 0) =~= seq![[j[0], j[1], j[2]]]);
    } else {
        lemma_small_mesh_area(pts, [j[0], j[1], j[2]], [j[2], j[3], j[0]]);
        lemma_wedge_turned(place(pts, j[0]), place(pts, j[2]));
        lemma_wrap(4, 4);
        assert(comb(j, 4) =~= Seq::<[MarchPoint; 3]>::empty());
        assert(comb(j, 2) =~= seq![[j[2], j[3], j[0]]]);
        assert(comb(j, 0) =~= seq![[j[0], j[1], j[2]], [j[2], j[3], j[0]]]);
    }
}

/// The mesh of a mask with an active and an inactive vertex covers what the
/// outline along its walk goes around.
proof fn lemma_clustered_area(active: Seq<bool>, s: int, pts: Seq<(int, int)>)
    requires
        1 <= active.len() <= 9,
        is_start(active, s),
    ensures
        mesh_area(pts, clustered(active, s)) == ring(
            pts,
            walk_outline(active, s, active.len() as int),
        ),
{
    let n = active.len() as int;
    let o = walk_outline(active, s, n);
    let j = joins(active, s, n);
    let e = last_lit(active, s, n);
    lemma_walk_area(active, s, n, pts);
    lemma_joins_are_clusters(active, s);
    lemma_clusters_half(active);
    lemma_mesh_area_concat(pts, strips(active, s, n) + closing(active, s), comb(j, 0));
    lemma_mesh_area_concat(pts, strips(active, s, n), closing(active, s));
    assert(e >= 0) by {
        lemma_wrap(n, s);
        lemma_lit_is_met(active, s, n, 0);
    }
    if j.len() == 1 {
        assert(mesh_area(pts, comb(j, 0)) == 0);
        assert(mesh_area(pts, closing(active, s)) == 0);
    } else {
        let last = after(n, vertex(n, s, e));
        lemma_comb_area(pts, j);
        lemma_small_mesh_area(pts, [j[0], j.last(), last], [j[0], j.last(), last]);
        lemma_wedge_turned(place(pts, j.last()), place(pts, last));
        lemma_wedge_turned(place(pts, j[0]), place(pts, j.last()));
        assert(closing(active, s) =~= seq![[j[0], j.last(), last]]);
    }
}

/// An active position below `p` leaves a last active position below `p`.
proof fn lemma_lit_is_met(active: Seq<bool>, s: int, p: int, q: int)
    requires
        0 <= q < p,
        lit(active, s, q),
    ensures
        last_lit(active, s, p) >= q,
    decreases p,
{
    if q < p - 1 && !lit(active, s, p - 1) {
        lemma_lit_is_met(active, s, p - 1, q);
    }
}

/// The outline of a range is the outline of its lower part, then that of its
/// upper part.
proof fn lemma_outline_split(active: Seq<bool>, lo: int, mid: int, hi: int)
    requires
        lo <= mid <= hi,
    ensures
        outline_range(active, lo, hi) == outline_range(active, lo, mid) + outline_range(
            active,
            mid,
            hi,
        ),
    decreases hi - mid,
{
    let n = active.len() as int;
    let low = outline_range(active, lo, mid);
    if mid < hi {
        lemma_outline_split(active, lo, mid, hi - 1);
        let high = outline_range(active, mid, hi - 1);
        if active[hi - 1] {
            assert((low + high) + corner(n, hi - 1) =~= low + (high + corner(n, hi - 1)));
        }
    } else {
        assert(low + Seq::<MarchPoint>::empty() =~= low);
    }
}

/// The outline along the walk is the outline from the start vertex up to the
/// last vertex, then that of the vertices below the start vertex.
proof fn lemma_walk_outline_ranges(active: Seq<bool>, s: int, p: int)
    requires
        0 <= s < active.len(),
        0 <= p <= active.len(),
    ensures
        walk_outline(active, s, p) == if p <= active.len() - s {
            outline_range(active, s, s + p)
        } else {
            outline_range(active, s, active.len() as int) + outline_range(
                active,
                0,
                p - (active.len() - s),
            )
        },
    decreases p,
{
    let n = active.len() as int;
    if p > 0 {
        lemma_walk_outline_ranges(active, s, p - 1);
        lemma_wrap(n, s + p - 1);
        let v = vertex(n, s, p - 1);
        if p > n - s {
            let high = outline_range(active, s, n);
            let low = outline_range(active, 0, p - 1 - (n - s));
            assert(high + Seq::<MarchPoint>::empty() =~= high);
            if active[v] {
                assert((high + low) + corner(n, v) =~= high + (low + corner(n, v)));
            }
        }
    }
}

/// A closed line goes around the same area wherever on it one begins.
proof fn lemma_ring_swapped(pts: Seq<(int, int)>, x: Seq<MarchPoint>, y: Seq<MarchPoint>)
    ensures
        ring(pts, x + y) == ring(pts, y + x),
{
    if x.len() == 0 {
        assert(x + y =~= y);
        assert(y + x =~= y);
    } else if y.len() == 0 {
        assert(x + y =~= x);
        assert(y + x =~= x);
    } else {
        lemma_path_concat(pts, x, y);
        lemma_path_concat(pts, y, x);
    }
}

/// The outline along the walk goes around the same area as the outline from vertex 0.
proof fn lemma_walk_ring(active: Seq<bool>, s: int, pts: Seq<(int, int)>)
    requires
        0 <= s < active.len(),
    ensures
        ring(pts, walk_outline(active, s, active.len() as int)) == ring(pts, outline(active)),
{
    let n = active.len() as int;
    lemma_walk_outline_ranges(active, s, n);
    lemma_outline_split(active, 0, s, n);
    lemma_ring_swapped(pts, outline_range(active, 0, s), outline_range(active, s, n));
    if s == 0 {
        assert(outline_range(active, s, n) + outline_range(active, 0, s) =~= outline_range(
            active,
            s,
            n,
        ));
    }
}

/// Without an active vertex there is no outline.
proof fn lemma_outline_of_nothing(active: Seq<bool>, hi: int)
    requires
        none_active(active),
        hi <= active.len(),
    ensures
        outline_range(active, 0, hi).len() == 0,
    decreases hi,
{
    if hi > 0 {
        lemma_outline_of_nothing(active, hi - 1);
    }
}

/// The vertices below `h`, in rising order.
spec fn verts(h: int) -> Seq<MarchPoint> {
    Seq::new(h as nat, |i: int| MarchPoint::At(i as u8))
}

/// The fan from vertex 0 covers what the closed line through the vertices
/// goes around.
proof fn lemma_fan_area(pts: Seq<(int, int)>, n: int)
    requires
        1 <= n <= 256,
    ensures
        mesh_area(pts, fan(n)) == ring(pts, verts(n)),
    decreases n,
{
    reveal_with_fuel(path, 3);
    lemma_wedge_turned(place(pts, verts(n)[0]), place(pts, verts(n)[0]));
    if n == 1 {
    } else if n == 2 {
        lemma_wedge_turned(place(pts, verts(n)[0]), place(pts, verts(n)[1]));
    } else {
        lemma_fan_area(pts, n - 1);
        assert(fan(n).drop_last() =~= fan(n - 1));
        assert(verts(n).drop_last() =~= verts(n - 1));
        lemma_wedge_turned(place(pts, verts(n)[0]), place(pts, verts(n)[n - 2]));
    }
}

/// Along the outline of the lowest `h` vertices of a whole polygon the wedges
/// add up to those along the line through these vertices, and those of the
/// outline's first and last step.
proof fn lemma_full_outline(active: Seq<bool>, pts: Seq<(int, int)>, h: int)
    requires
        all_active(active),
        1 <= h <= active.len() <= 256,
    ensures
        ({
            let n = active.len() as int;
            let o = outline_range(active, 0, h);
            &&& o.len() > 0
            &&& o[0] == before(n, 0)
            &&& o.last() == after(n, h - 1)
            &&& path(pts, o) == step(pts, before(n, 0), MarchPoint::At(0)) + path(pts, verts(h))
                + step(pts, MarchPoint::At((h - 1) as u8), after(n, h - 1))
        }),
    decreases h,
{
    let n = active.len() as int;
    lemma_corner_path(pts, n, h - 1);
    assert(active[h - 1]);
    if h == 1 {
        assert(outline_range(active, 0, h) =~= corner(n, 0));
    } else {
        lemma_full_outline(active, pts, h - 1);
        lemma_path_concat(pts, outline_range(active, 0, h - 1), corner(n, h - 1));
        lemma_wrap(n, h - 1);
        lemma_wrap(n, h - 2 + n);
        lemma_shared_midpoint(pts, n, h - 2, h - 1);
        lemma_wedge_turned(place(pts, before(n, h - 1)), place(pts, before(n, h - 1)));
        lemma_wedge_through_middle(pts[h - 2], pts[h - 1]);
        assert(verts(h).drop_last() =~= verts(h - 1));
    }
}

/// The mesh covers what its outline goes around: for every placement of the
/// vertices, the signed areas of the triangles add up to the signed area
/// inside the outline of the active part.
///
/// This holds of a polygon of up to nine vertices, which has no more than
/// four clusters. With five clusters or more, the triangles among the join
/// points leave a part of the middle open.
pub proof fn lemma_mesh_area(active: Seq<bool>, pts: Seq<(int, int)>)
    requires
        1 <= active.len() <= 9,
    ensures
        mesh_area(pts, mesh(active)) == ring(pts, outline(active)),
{
    let n = active.len() as int;
    if none_active(active) {
        lemma_outline_of_nothing(active, n);
    } else if all_active(active) {
        lemma_fan_area(pts, n);
        lemma_full_outline(active, pts, n);
        lemma_wrap(n, n);
        lemma_wrap(n, n - 1);
        lemma_wedge_turned(place(pts, before(n, 0)), place(pts, before(n, 0)));
        lemma_wedge_through_middle(pts[n - 1], pts[0]);
    } else {
        let s = start_index(active);
        lemma_start_exists(active);
        lemma_clustered_area(active, s, pts);
        lemma_walk_ring(active, s, pts);
    }
}

} // verus!
