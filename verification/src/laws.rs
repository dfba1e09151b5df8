//! What holds of the mesh of every mask.

use vstd::prelude::*;
use crate::count::{
    count, lemma_count_bound, lemma_count_every, lemma_count_implies, lemma_count_none,
    lemma_count_opposite, lemma_count_turned,
};
use crate::model::{
    after, all_active, before, begins, closing, clusters, comb, corners_active, fan,
    has_corner_at, is_start, joins, last_lit, leads, lit, mesh, none_active, on_polygon, ones,
    run_first, start_index, strips, triangle_count, vertex, visit,
};
use crate::point::{adjacent, MarchPoint};
use crate::wrap::{lemma_wrap, lemma_wrap_range, wrap};

verus! {

/// Between an inactive vertex and a later active one, some active vertex
/// follows an inactive one.
proof fn lemma_rise(active: Seq<bool>, lo: int, hi: int) -> (i: int)
    requires
        0 <= lo < hi < active.len(),
        !active[lo],
        active[hi],
    ensures
        lo < i <= hi,
        active[i],
        !active[i - 1],
    decreases hi - lo,
{
    if !active[hi - 1] {
        hi
    } else {
        lemma_rise(active, lo, hi - 1)
    }
}

/// Below a vertex that leads a cluster, or at it, lies the lowest such vertex.
proof fn lemma_lowest_lead(active: Seq<bool>, i: int) -> (s: int)
    requires
        0 <= i < active.len(),
        leads(active, i),
    ensures
        is_start(active, s),
    decreases i,
{
    if exists|j: int| 0 <= j < i && leads(active, j) {
        let j = choose|j: int| 0 <= j < i && leads(active, j);
        lemma_lowest_lead(active, j)
    } else {
        i
    }
}

/// A mask with an active and an inactive vertex has a start vertex, and only one.
pub proof fn lemma_start_exists(active: Seq<bool>)
    requires
        !none_active(active),
        !all_active(active),
    ensures
        is_start(active, start_index(active)),
        forall|s: int| is_start(active, s) ==> s == start_index(active),
{
    let n = active.len() as int;
    let a = choose|a: int| 0 <= a < n && active[a];
    let b = choose|b: int| 0 <= b < n && !active[b];
    let i = if b < a {
        lemma_rise(active, b, a)
    } else if !active[0] {
        lemma_rise(active, 0, a)
    } else if !active[n - 1] {
        0
    } else {
        lemma_rise(active, b, n - 1)
    };
    lemma_wrap(n, i + n - 1);
    let s = lemma_lowest_lead(active, i);
    assert forall|t: int| is_start(active, t) implies t == start_index(active) by {
        let c = start_index(active);
        if t < c {
            assert(!leads(active, t));
        }
        if c < t {
            assert(!leads(active, c));
        }
    }
}

/// A mask without an active vertex has the empty mesh.
pub proof fn lemma_mesh_of_nothing(active: Seq<bool>)
    requires
        none_active(active),
    ensures
        mesh(active) == Seq::<[MarchPoint; 3]>::empty(),
{
}

/// The mesh of a whole polygon of `n` vertices, with two vertices at least, is
/// the fan from vertex 0: `n - 2` triangles, the one at place `t` over the
/// vertices 0, `t + 1` and `t + 2`, and no edge midpoint in any of them.
pub proof fn lemma_mesh_of_everything(active: Seq<bool>)
    requires
        2 <= active.len() <= 256,
        all_active(active),
    ensures
        mesh(active) == fan(active.len() as int),
        mesh(active).len() == active.len() - 2,
        forall|t: int|
            0 <= t < active.len() - 2 ==> #[trigger] mesh(active)[t] == [
                MarchPoint::At(0),
                MarchPoint::At((t + 1) as u8),
                MarchPoint::At((t + 2) as u8),
            ],
        forall|t: int, c: int|
            0 <= t < active.len() - 2 && 0 <= c < 3 ==> #[trigger] mesh(active)[t][c] is At,
{
    assert(active[0]);
}

/// The mesh depends on nothing but which vertices are active: two masks with
/// the same active vertices have the same mesh, triangle for triangle.
pub proof fn lemma_mesh_determined(a: Seq<bool>, b: Seq<bool>)
    requires
        a.len() == b.len(),
        forall|i: int| 0 <= i < a.len() ==> a[i] == b[i],
    ensures
        mesh(a) == mesh(b),
{
    assert(a =~= b);
}

/// A vertex of the polygon and the midpoints of the two edges that meet at it
/// lie on the polygon.
pub proof fn lemma_vertex_points(n: int, v: int)
    requires
        1 <= n <= 256,
        0 <= v < n,
    ensures
        MarchPoint::At(v as u8).on_polygon(n),
        before(n, v).on_polygon(n),
        after(n, v).on_polygon(n),
{
    lemma_wrap(n, v + n - 1);
    lemma_wrap(n, v + 1);
    assert((1 - n) % n == 1int % n) by (nonlinear_arith)
        requires
            0 < n,
    ;
    let b = wrap(n, v + n - 1);
    let a = wrap(n, v + 1);
    assert(adjacent(n, v, b)) by {
        if v >= 1 {
            assert(v - b == 1);
        } else {
            assert(v - b == 1 - n);
        }
    }
    assert(adjacent(n, v, a)) by {
        if v + 1 < n {
            assert(a - v == 1);
        } else {
            assert(a - v == 1 - n);
        }
    }
}

/// Every position of the walk is a vertex of the polygon.
pub proof fn lemma_vertex_range(n: int, s: int, p: int)
    requires
        0 < n,
    ensures
        0 <= vertex(n, s, p) < n,
{
    lemma_wrap_range(n, s + p);
}

/// The triangles of the walk lie on the polygon.
proof fn lemma_strips_on_polygon(active: Seq<bool>, s: int, p: int)
    requires
        1 <= active.len() <= 256,
    ensures
        on_polygon(strips(active, s, p), active.len() as int),
    decreases p,
{
    let n = active.len() as int;
    if p > 0 {
        lemma_strips_on_polygon(active, s, p - 1);
        let q = p - 1;
        let e = last_lit(active, s, q);
        lemma_vertex_range(n, s, q);
        lemma_vertex_points(n, vertex(n, s, q));
        lemma_vertex_range(n, s, run_first(active, s, q));
        lemma_vertex_points(n, vertex(n, s, run_first(active, s, q)));
        lemma_vertex_range(n, s, e);
        lemma_vertex_points(n, vertex(n, s, e));
        lemma_vertex_range(n, s, run_first(active, s, e));
        lemma_vertex_points(n, vertex(n, s, run_first(active, s, e)));
        let prior = strips(active, s, q);
        let added = visit(active, s, q);
        let m = prior + added;
        assert forall|t: int, c: int| 0 <= t < m.len() && 0 <= c < 3 implies (#[trigger] m[t][c])
            .on_polygon(n) by {
            if t < prior.len() {
                assert(m[t] == prior[t]);
                assert(prior[t][c].on_polygon(n));
            } else {
                assert(m[t] == added[t - prior.len()]);
            }
        }
    }
}

/// The join points of the clusters lie on the polygon.
proof fn lemma_joins_on_polygon(active: Seq<bool>, s: int, p: int)
    requires
        1 <= active.len() <= 256,
    ensures
        forall|c: int|
            0 <= c < joins(active, s, p).len() ==> (#[trigger] joins(active, s, p)[c]).on_polygon(
                active.len() as int,
            ),
    decreases p,
{
    let n = active.len() as int;
    if p > 0 {
        lemma_joins_on_polygon(active, s, p - 1);
        lemma_vertex_range(n, s, run_first(active, s, p - 1));
        lemma_vertex_points(n, vertex(n, s, run_first(active, s, p - 1)));
        let prior = joins(active, s, p - 1);
        assert forall|c: int| 0 <= c < joins(active, s, p).len() implies (#[trigger] joins(
            active,
            s,
            p,
        )[c]).on_polygon(n) by {
            if c < prior.len() {
                assert(joins(active, s, p)[c] == prior[c]);
            }
        }
    }
}

/// Triangles over points of the polygon lie on the polygon.
proof fn lemma_comb_on_polygon(j: Seq<MarchPoint>, idx: int, n: int)
    requires
        forall|c: int| 0 <= c < j.len() ==> (#[trigger] j[c]).on_polygon(n),
    ensures
        on_polygon(comb(j, idx), n),
    decreases j.len() - idx,
{
    if !(idx < 0 || idx + 1 >= j.len()) {
        lemma_comb_on_polygon(j, idx + 2, n);
        let k = j.len() as int;
        lemma_wrap_range(k, idx + 2);
        let head = seq![[j[idx], j[idx + 1], j[wrap(k, idx + 2)]]];
        let tail = comb(j, idx + 2);
        let m = head + tail;
        assert forall|t: int, c: int| 0 <= t < m.len() && 0 <= c < 3 implies (#[trigger] m[t][c])
            .on_polygon(n) by {
            if t >= 1 {
                assert(m[t] == tail[t - 1]);
                assert(tail[t - 1][c].on_polygon(n));
            }
        }
    }
}

/// Every corner of the mesh lies on the polygon: a vertex index is below the
/// number of vertices, and a midpoint is that of two neighbouring vertices.
pub proof fn lemma_mesh_on_polygon(active: Seq<bool>)
    requires
        1 <= active.len() <= 256,
    ensures
        on_polygon(mesh(active), active.len() as int),
{
    let n = active.len() as int;
    if none_active(active) {
    } else if all_active(active) {
        let m = fan(n);
        assert forall|t: int, c: int| 0 <= t < m.len() && 0 <= c < 3 implies (#[trigger] m[t][c])
            .on_polygon(n) by {}
    } else {
        let s = start_index(active);
        let j = joins(active, s, n);
        let a = strips(active, s, n);
        let b = closing(active, s);
        let c = comb(j, 0);
        lemma_strips_on_polygon(active, s, n);
        lemma_joins_on_polygon(active, s, n);
        lemma_comb_on_polygon(j, 0, n);
        lemma_vertex_range(n, s, last_lit(active, s, n));
        lemma_vertex_points(n, vertex(n, s, last_lit(active, s, n)));
        let m = a + b + c;
        assert forall|t: int, k: int| 0 <= t < m.len() && 0 <= k < 3 implies (#[trigger] m[t][k])
            .on_polygon(n) by {
            if t < a.len() {
                assert(m[t] == a[t]);
                assert(a[t][k].on_polygon(n));
            } else if t < a.len() + b.len() {
                assert(m[t] == b[t - a.len()]);
            } else {
                assert(m[t] == c[t - a.len() - b.len()]);
                assert(c[t - a.len() - b.len()][k].on_polygon(n));
            }
        }
    }
}

/// The walk lays corners at active vertices only.
proof fn lemma_strips_corners(active: Seq<bool>, s: int, p: int)
    requires
        1 <= active.len() <= 256,
    ensures
        corners_active(strips(active, s, p), active),
    decreases p,
{
    let n = active.len() as int;
    if p > 0 {
        lemma_strips_corners(active, s, p - 1);
        lemma_vertex_range(n, s, p - 1);
        let prior = strips(active, s, p - 1);
        let added = visit(active, s, p - 1);
        let m = prior + added;
        assert forall|t: int, c: int| 0 <= t < m.len() && 0 <= c < 3 implies (#[trigger] m[t][c]
            matches MarchPoint::At(i) ==> active[i as int]) by {
            if t < prior.len() {
                assert(m[t] == prior[t]);
                assert(prior[t][c] matches MarchPoint::At(i) ==> active[i as int]);
            } else {
                assert(m[t] == added[t - prior.len()]);
            }
        }
    }
}

/// The join points are edge midpoints.
proof fn lemma_joins_between(active: Seq<bool>, s: int, p: int)
    ensures
        forall|c: int|
            0 <= c < joins(active, s, p).len() ==> #[trigger] joins(active, s, p)[c] is Between,
    decreases p,
{
    if p > 0 {
        lemma_joins_between(active, s, p - 1);
        let prior = joins(active, s, p - 1);
        assert forall|c: int| 0 <= c < joins(active, s, p).len() implies #[trigger] joins(
            active,
            s,
            p,
        )[c] is Between by {
            if c < prior.len() {
                assert(joins(active, s, p)[c] == prior[c]);
            }
        }
    }
}

/// Triangles over edge midpoints have no corner at a vertex.
proof fn lemma_comb_between(j: Seq<MarchPoint>, idx: int)
    requires
        forall|c: int| 0 <= c < j.len() ==> #[trigger] j[c] is Between,
    ensures
        forall|t: int, c: int|
            0 <= t < comb(j, idx).len() && 0 <= c < 3 ==> #[trigger] comb(j, idx)[t][c] is Between,
    decreases j.len() - idx,
{
    if !(idx < 0 || idx + 1 >= j.len()) {
        lemma_comb_between(j, idx + 2);
        let k = j.len() as int;
        lemma_wrap_range(k, idx + 2);
        let head = seq![[j[idx], j[idx + 1], j[wrap(k, idx + 2)]]];
        let tail = comb(j, idx + 2);
        let m = head + tail;
        assert forall|t: int, c: int| 0 <= t < m.len() && 0 <= c < 3 implies #[trigger] m[t][c]
            is Between by {
            if t >= 1 {
                assert(m[t] == tail[t - 1]);
                assert(tail[t - 1][c] is Between);
            }
        }
    }
}

/// The mesh has corners at active vertices only.
pub proof fn lemma_corners_are_active(active: Seq<bool>)
    requires
        1 <= active.len() <= 256,
    ensures
        corners_active(mesh(active), active),
{
    let n = active.len() as int;
    if !none_active(active) && !all_active(active) {
        let s = start_index(active);
        let j = joins(active, s, n);
        let a = strips(active, s, n);
        let b = closing(active, s);
        let c = comb(j, 0);
        lemma_strips_corners(active, s, n);
        lemma_joins_between(active, s, n);
        lemma_comb_between(j, 0);
        let m = a + b + c;
        assert forall|t: int, k: int| 0 <= t < m.len() && 0 <= k < 3 implies (#[trigger] m[t][k]
            matches MarchPoint::At(i) ==> active[i as int]) by {
            if t < a.len() {
                assert(m[t] == a[t]);
                assert(a[t][k] matches MarchPoint::At(i) ==> active[i as int]);
            } else if t < a.len() + b.len() {
                assert(m[t] == b[t - a.len()]);
            } else {
                assert(m[t] == c[t - a.len() - b.len()]);
                assert(c[t - a.len() - b.len()][k] is Between);
            }
        }
    }
}

/// What the walk has laid stays where it is as the walk goes on.
proof fn lemma_strips_grow(active: Seq<bool>, s: int, p: int, q: int)
    requires
        p <= q,
    ensures
        strips(active, s, p).len() <= strips(active, s, q).len(),
        forall|t: int|
            0 <= t < strips(active, s, p).len() ==> #[trigger] strips(active, s, q)[t] == strips(
                active,
                s,
                p,
            )[t],
    decreases q - p,
{
    if p < q {
        lemma_strips_grow(active, s, p, q - 1);
        if q <= 0 {
            assert(strips(active, s, p).len() == 0);
        }
    }
}

/// Every active vertex is a corner of the mesh, but in the whole polygon of
/// fewer than three vertices, which has no triangle.
pub proof fn lemma_active_are_corners(active: Seq<bool>, i: int)
    requires
        1 <= active.len() <= 256,
        0 <= i < active.len(),
        active[i],
        active.len() >= 3 || !all_active(active),
    ensures
        has_corner_at(mesh(active), i),
{
    let n = active.len() as int;
    let m = mesh(active);
    if all_active(active) {
        if i == 0 {
            assert(m[0][0] == MarchPoint::At(0));
        } else if i < n - 1 {
            assert(m[i - 1][1] == MarchPoint::At(i as u8));
        } else {
            assert(m[n - 3][2] == MarchPoint::At(i as u8));
        }
    } else {
        let s = start_index(active);
        lemma_start_exists(active);
        let p = if i >= s { i - s } else { i - s + n };
        lemma_wrap(n, s + p);
        let t = strips(active, s, p).len() as int;
        let c = if p > 0 && lit(active, s, p - 1) { 1int } else { 0int };
        let grown = strips(active, s, p) + visit(active, s, p);
        assert(grown[t] == visit(active, s, p)[0]);
        assert(strips(active, s, p + 1)[t][c] == MarchPoint::At(i as u8));
        lemma_strips_grow(active, s, p + 1, n);
        assert(m[t] == strips(active, s, n)[t]);
        assert(m[t][c] == MarchPoint::At(i as u8));
    }
}

/// The walk has laid two triangles for each active vertex it has met, but one
/// for the first.
proof fn lemma_strips_len(active: Seq<bool>, s: int, p: int)
    requires
        0 <= p,
    ensures
        ({
            let a = count(|q: int| lit(active, s, q), 0, p);
            &&& strips(active, s, p).len() == if a == 0 { 0 } else { 2 * a - 1 }
            &&& last_lit(active, s, p) >= 0 <==> a > 0
        }),
    decreases p,
{
    if p > 0 {
        lemma_strips_len(active, s, p - 1);
    }
}

/// The walk has noted one join point for each position at which a cluster begins.
proof fn lemma_joins_len(active: Seq<bool>, s: int, p: int)
    requires
        0 <= p,
    ensures
        joins(active, s, p).len() == count(|q: int| begins(active, s, q), 0, p),
    decreases p,
{
    if p > 0 {
        lemma_joins_len(active, s, p - 1);
    }
}

/// There is one triangle among the join points for every two of them that
/// are left from `idx` on.
proof fn lemma_comb_len(j: Seq<MarchPoint>, idx: int)
    requires
        0 <= idx <= j.len(),
    ensures
        comb(j, idx).len() == (j.len() - idx) / 2,
    decreases j.len() - idx,
{
    if idx + 1 < j.len() {
        lemma_comb_len(j, idx + 2);
    }
}

/// The walk from the start vertex meets each active vertex once, and finds a
/// cluster beginning at each vertex that leads one.
proof fn lemma_walk_counts(active: Seq<bool>, s: int)
    requires
        is_start(active, s),
    ensures
        count(|q: int| lit(active, s, q), 0, active.len() as int) == ones(active),
        count(|q: int| begins(active, s, q), 0, active.len() as int) == clusters(active),
{
    let n = active.len() as int;
    let on = |i: int| active[i];
    let met = |q: int| lit(active, s, q);
    assert forall|q: int| 0 <= q < n implies #[trigger] met(q) == on(
        if s + q < n { s + q } else { s + q - n },
    ) by {
        lemma_wrap(n, s + q);
    }
    lemma_count_turned(on, met, n, s);
    let f = |i: int| leads(active, i);
    let g = |q: int| begins(active, s, q);
    assert forall|q: int| 0 <= q < n implies #[trigger] g(q) == f(
        if s + q < n { s + q } else { s + q - n },
    ) by {
        lemma_wrap(n, s + q);
        let v = wrap(n, s + q);
        lemma_wrap(n, v + n - 1);
        if q > 0 {
            lemma_wrap(n, s + q - 1);
        }
    }
    lemma_count_turned(f, g, n, s);
}

/// No vertex is active exactly when the number of active vertices is zero,
/// and every vertex is active exactly when it is the number of vertices.
pub proof fn lemma_ones(active: Seq<bool>)
    ensures
        none_active(active) <==> ones(active) == 0,
        all_active(active) <==> ones(active) == active.len(),
        ones(active) <= active.len(),
{
    let n = active.len() as int;
    let f = |i: int| active[i];
    lemma_count_none(f, 0, n);
    lemma_count_every(f, 0, n);
    lemma_count_bound(f, 0, n);
    if none_active(active) {
        assert forall|i: int| 0 <= i < n implies !#[trigger] f(i) by {}
    }
    if ones(active) == 0 {
        assert forall|i: int| 0 <= i < n implies !active[i] by {
            assert(!f(i));
        }
    }
    if all_active(active) {
        assert forall|i: int| 0 <= i < n implies #[trigger] f(i) by {}
    }
    if ones(active) == n {
        assert forall|i: int| 0 <= i < n implies active[i] by {
            assert(f(i));
        }
    }
}

/// Each cluster is followed by an inactive vertex of its own: the clusters
/// and the active vertices together are no more than the vertices.
pub proof fn lemma_clusters_bound(active: Seq<bool>)
    requires
        active.len() >= 1,
    ensures
        ones(active) + clusters(active) <= active.len(),
{
    let n = active.len() as int;
    let lead = |i: int| leads(active, i);
    let on = |i: int| active[i];
    let off = |i: int| !active[i];
    let off_before = |i: int| !active[wrap(n, n - 1 + i)];
    lemma_count_implies(off_before, lead, 0, n);
    assert forall|i: int| 0 <= i < n implies #[trigger] off_before(i) == off(
        if n - 1 + i < n { n - 1 + i } else { n - 1 + i - n },
    ) by {
        lemma_wrap(n, n - 1 + i);
    }
    lemma_count_turned(off, off_before, n, n - 1);
    lemma_count_opposite(on, off, 0, n);
}

/// No more than half of the vertices lead a cluster.
pub proof fn lemma_clusters_half(active: Seq<bool>)
    requires
        active.len() >= 1,
    ensures
        2 * clusters(active) <= active.len(),
{
    let n = active.len() as int;
    lemma_clusters_bound(active);
    lemma_count_implies(|i: int| active[i], |i: int| leads(active, i), 0, n);
}

/// The walk from the start vertex finds as many clusters as there are
/// vertices that lead one.
pub proof fn lemma_joins_are_clusters(active: Seq<bool>, s: int)
    requires
        is_start(active, s),
    ensures
        joins(active, s, active.len() as int).len() == clusters(active),
{
    lemma_joins_len(active, s, active.len() as int);
    lemma_walk_counts(active, s);
}

/// The number of triangles in the mesh.
pub proof fn lemma_mesh_len(active: Seq<bool>)
    ensures
        mesh(active).len() == triangle_count(active),
{
    let n = active.len() as int;
    lemma_ones(active);
    if !none_active(active) && !all_active(active) {
        let s = start_index(active);
        lemma_start_exists(active);
        lemma_strips_len(active, s, n);
        lemma_joins_len(active, s, n);
        lemma_comb_len(joins(active, s, n), 0);
        lemma_walk_counts(active, s);
    }
}

/// The mesh of a polygon of `n` vertices, with two vertices at least, has no
/// more than `2 * n - 3` triangles.
pub proof fn lemma_mesh_len_bound(active: Seq<bool>)
    requires
        active.len() >= 2,
    ensures
        mesh(active).len() <= 2 * active.len() - 3,
{
    lemma_mesh_len(active);
    lemma_clusters_bound(active);
}

/// The mesh has no more triangles than the polygon has vertices, where the
/// numbers of active vertices and of clusters leave it so: where the count
/// that follows from them is no more than the number of vertices.
pub proof fn lemma_mesh_len_within(active: Seq<bool>)
    requires
        triangle_count(active) <= active.len(),
    ensures
        mesh(active).len() <= active.len(),
{
    lemma_mesh_len(active);
}

} // verus!
