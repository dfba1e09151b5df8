//! The mathematical model of the mesh.
//!
//! A mask is modelled as a `Seq<bool>`: entry `i` says whether vertex `i` of the
//! polygon is active. The vertices are walked once, in rising order and around
//! the end, from a start vertex `s`; position `p` of that walk is vertex
//! `(s + p) % n`. A cluster is a run of active positions.

use vstd::prelude::*;
use crate::count::count;
use crate::point::MarchPoint;
use crate::wrap::wrap;

verus! {

/// The midpoint of the edge that leads into vertex `i`, from the vertex before it.
pub open spec fn before(n: int, i: int) -> MarchPoint {
    MarchPoint::Between(i as u8, wrap(n, i + n - 1) as u8)
}

/// The midpoint of the edge that leaves vertex `i`, towards the vertex after it.
pub open spec fn after(n: int, i: int) -> MarchPoint {
    MarchPoint::Between(i as u8, wrap(n, i + 1) as u8)
}

/// The small triangle that cuts the corner at vertex `i`.
pub open spec fn cap(n: int, i: int) -> [MarchPoint; 3] {
    [MarchPoint::At(i as u8), after(n, i), before(n, i)]
}

/// The fan from vertex 0 over a whole polygon of `n` vertices.
pub open spec fn fan(n: int) -> Seq<[MarchPoint; 3]> {
    Seq::new(
        if n >= 2 { (n - 2) as nat } else { 0 },
        |i: int| [MarchPoint::At(0), MarchPoint::At((i + 1) as u8), MarchPoint::At((i + 2) as u8)],
    )
}

/// No vertex is active.
pub open spec fn none_active(active: Seq<bool>) -> bool {
    forall|i: int| 0 <= i < active.len() ==> !active[i]
}

/// Every vertex is active.
pub open spec fn all_active(active: Seq<bool>) -> bool {
    forall|i: int| 0 <= i < active.len() ==> active[i]
}

/// Vertex `i` is the first of a cluster: it is active and the vertex before it,
/// around the polygon, is not.
pub open spec fn leads(active: Seq<bool>, i: int) -> bool {
    active[i] && !active[wrap(active.len() as int, i + active.len() - 1)]
}

/// `s` is the lowest vertex that leads a cluster.
pub open spec fn is_start(active: Seq<bool>, s: int) -> bool {
    &&& 0 <= s < active.len()
    &&& leads(active, s)
    &&& forall|j: int| 0 <= j < s ==> !leads(active, j)
}

/// The vertex at which the walk begins.
pub open spec fn start_index(active: Seq<bool>) -> int {
    choose|s: int| is_start(active, s)
}

/// The vertex at position `p` of the walk that begins at vertex `s`.
pub open spec fn vertex(n: int, s: int, p: int) -> int {
    wrap(n, s + p)
}

/// Whether the vertex at position `p` is active.
pub open spec fn lit(active: Seq<bool>, s: int, p: int) -> bool {
    active[vertex(active.len() as int, s, p)]
}

/// The position at which the run that holds position `p` begins.
pub open spec fn run_first(active: Seq<bool>, s: int, p: int) -> int
    decreases p,
{
    if p <= 0 || !lit(active, s, p - 1) {
        p
    } else {
        run_first(active, s, p - 1)
    }
}

/// The last active position below `p`, or -1 where there is none.
pub open spec fn last_lit(active: Seq<bool>, s: int, p: int) -> int
    decreases p,
{
    if p <= 0 {
        -1
    } else if lit(active, s, p - 1) {
        p - 1
    } else {
        last_lit(active, s, p - 1)
    }
}

/// The join point of the cluster that holds position `p`: the midpoint before
/// the cluster's first vertex.
pub open spec fn join_of(active: Seq<bool>, s: int, p: int) -> MarchPoint {
    let n = active.len() as int;
    before(n, vertex(n, s, run_first(active, s, p)))
}

/// The triangles that position `p` adds to the mesh.
///
/// An inactive vertex adds none. An active vertex that follows an active one
/// widens its cluster by two triangles that meet at the cluster's join point.
/// An active vertex that begins a cluster adds its cap and, where a cluster
/// came before, one triangle that bridges the gap to it.
pub open spec fn visit(active: Seq<bool>, s: int, p: int) -> Seq<[MarchPoint; 3]> {
    let n = active.len() as int;
    let i = vertex(n, s, p);
    let e = last_lit(active, s, p);
    if !lit(active, s, p) {
        Seq::empty()
    } else if p > 0 && lit(active, s, p - 1) {
        seq![
            [before(n, i), MarchPoint::At(i as u8), join_of(active, s, p)],
            [MarchPoint::At(i as u8), after(n, i), join_of(active, s, p)],
        ]
    } else if e < 0 {
        seq![cap(n, i)]
    } else {
        seq![cap(n, i), [before(n, i), join_of(active, s, e), after(n, vertex(n, s, e))]]
    }
}

/// The triangles of the positions below `p`, in the order of the walk.
pub open spec fn strips(active: Seq<bool>, s: int, p: int) -> Seq<[MarchPoint; 3]>
    decreases p,
{
    if p <= 0 {
        Seq::empty()
    } else {
        strips(active, s, p - 1) + visit(active, s, p - 1)
    }
}

/// Whether a cluster begins at position `p`.
pub open spec fn begins(active: Seq<bool>, s: int, p: int) -> bool {
    lit(active, s, p) && (p <= 0 || !lit(active, s, p - 1))
}

/// The join points of the clusters that begin below position `p`, in the order of the walk.
pub open spec fn joins(active: Seq<bool>, s: int, p: int) -> Seq<MarchPoint>
    decreases p,
{
    if p <= 0 {
        Seq::empty()
    } else if begins(active, s, p - 1) {
        joins(active, s, p - 1).push(join_of(active, s, p - 1))
    } else {
        joins(active, s, p - 1)
    }
}

/// The triangle that bridges the gap between the last cluster and the first,
/// where there is more than one cluster.
pub open spec fn closing(active: Seq<bool>, s: int) -> Seq<[MarchPoint; 3]> {
    let n = active.len() as int;
    let j = joins(active, s, n);
    if j.len() > 1 {
        seq![[j[0], j.last(), after(n, vertex(n, s, last_lit(active, s, n)))]]
    } else {
        Seq::empty()
    }
}

/// The triangles over the join points `j[idx]`, `j[idx + 1]`, `j[idx + 2]`, for
/// every second `idx` from the given one while `idx + 1` is an index of `j`; the
/// third index wraps around to 0.
pub open spec fn comb(j: Seq<MarchPoint>, idx: int) -> Seq<[MarchPoint; 3]>
    decreases j.len() - idx,
{
    if idx < 0 || idx + 1 >= j.len() {
        Seq::empty()
    } else {
        seq![[j[idx], j[idx + 1], j[wrap(j.len() as int, idx + 2)]]] + comb(j, idx + 2)
    }
}

/// The mesh of a mask with an active and an inactive vertex, walked from vertex `s`.
pub open spec fn clustered(active: Seq<bool>, s: int) -> Seq<[MarchPoint; 3]> {
    let n = active.len() as int;
    strips(active, s, n) + closing(active, s) + comb(joins(active, s, n), 0)
}

/// The mesh of a mask.
pub open spec fn mesh(active: Seq<bool>) -> Seq<[MarchPoint; 3]> {
    if none_active(active) {
        Seq::empty()
    } else if all_active(active) {
        fan(active.len() as int)
    } else {
        clustered(active, start_index(active))
    }
}

/// A mask as text: `0b`, then one binary digit for each vertex, the one of the
/// last vertex first.
pub open spec fn binary(active: Seq<bool>) -> Seq<char> {
    seq!['0', 'b'] + Seq::new(
        active.len(),
        |k: int| if active[active.len() - 1 - k] { '1' } else { '0' },
    )
}

/// The number of active vertices.
pub open spec fn ones(active: Seq<bool>) -> nat {
    count(|i: int| active[i], 0, active.len() as int)
}

/// The number of clusters: of vertices that lead one.
pub open spec fn clusters(active: Seq<bool>) -> nat {
    count(|i: int| leads(active, i), 0, active.len() as int)
}

/// The number of triangles in the mesh of a mask: none without an active
/// vertex, `n - 2` for the whole polygon; else an active vertex has two, but
/// for the first, which has one, and the gaps between the clusters have one
/// more where there are two clusters or more, and one for every two clusters.
pub open spec fn triangle_count(active: Seq<bool>) -> int {
    let n = active.len() as int;
    let a = ones(active) as int;
    let k = clusters(active) as int;
    if a == 0 {
        0
    } else if a == n {
        if n >= 2 { n - 2 } else { 0 }
    } else {
        2 * a - 1 + (if k > 1 { 1int } else { 0int }) + k / 2
    }
}

/// Every corner of every triangle lies on a polygon of `n` vertices.
pub open spec fn on_polygon(m: Seq<[MarchPoint; 3]>, n: int) -> bool {
    forall|t: int, c: int| 0 <= t < m.len() && 0 <= c < 3 ==> (#[trigger] m[t][c]).on_polygon(n)
}

/// Every corner at a vertex is at an active vertex.
pub open spec fn corners_active(m: Seq<[MarchPoint; 3]>, active: Seq<bool>) -> bool {
    forall|t: int, c: int|
        0 <= t < m.len() && 0 <= c < 3 ==> (#[trigger] m[t][c] matches MarchPoint::At(i)
            ==> active[i as int])
}

/// Some triangle has a corner at vertex `i`.
pub open spec fn has_corner_at(m: Seq<[MarchPoint; 3]>, i: int) -> bool {
    exists|t: int, c: int|
        0 <= t < m.len() && 0 <= c < 3 && #[trigger] m[t][c] == MarchPoint::At(i as u8)
}

} // verus!
