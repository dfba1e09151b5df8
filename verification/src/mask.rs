//! The mask of a polygon, and the march that turns it into a mesh.

use vstd::prelude::*;
use vstd::string::*;
use crate::area::{lemma_mesh_area, mesh_area, outline, ring};
use crate::bits::{bit_at, lemma_low_ones_iff_low_set, lemma_zero_iff_low_clear, low_ones};
use crate::laws::{
    lemma_active_are_corners, lemma_corners_are_active, lemma_mesh_len, lemma_mesh_len_bound,
    lemma_mesh_on_polygon, lemma_start_exists,
};
use crate::model::{
    after, all_active, before, binary, comb, corners_active, fan, has_corner_at, is_start,
    join_of, joins, last_lit, lit, mesh, none_active, on_polygon, start_index, strips,
    triangle_count, vertex,
};
use crate::point::MarchPoint;
use crate::turn::{anticlockwise, convex, lemma_mesh_turns_one_way};
use crate::wrap::wrap;

verus! {

/// A run of active vertices that the walk has met.
struct OnesCluster {
    /// The midpoint before the first vertex of the run.
    join_point: MarchPoint,
    /// The midpoint after the last vertex of the run that the walk has reached.
    end_point: MarchPoint,
}

/// The index `i` taken around a polygon of `n` vertices.
fn around(n: u8, i: u8) -> (r: u8)
    requires
        0 < n,
    ensures
        r == wrap(n as int, i as int),
        r < n,
{
    proof {
        reveal(wrap);
    }
    i % n
}

/// Which of the `N` vertices of a regular polygon are active: bit `i` of the
/// mask stands for vertex `i`.
#[derive(Copy, Clone)]
pub struct Mask<const N: usize>(u8);

impl<const N: usize> View for Mask<N> {
    type V = Seq<bool>;

    /// One entry for each vertex, true where the vertex is active.
    open spec fn view(&self) -> Seq<bool> {
        Seq::new(N as nat, |i: int| bit_at(self.bits(), i))
    }
}

impl<const N: usize> Mask<N> {
    /// The byte that holds the mask.
    pub closed spec fn bits(self) -> u8 {
        self.0
    }

    /// The polygon has between one and eight vertices, and no bit beyond them is set.
    pub open spec fn wf(self) -> bool {
        1 <= N <= 8 && self.bits() <= low_ones(N as int)
    }

    /// The largest mask of a polygon of `N` vertices: all of them active.
    pub fn max() -> (r: u8)
        requires
            1 <= N <= 8,
        ensures
            r == low_ones(N as int),
    {
        let n: u8 = N as u8;
        0xffu8 >> (8 - n)
    }

    /// The mask with the given bits.
    pub fn new(mask: u8) -> (r: Self)
        requires
            1 <= N <= 8,
            mask <= low_ones(N as int),
        ensures
            r.bits() == mask,
            r.wf(),
    {
        Mask(mask)
    }

    /// The mask with the given bits, if a polygon of `N` vertices has such a mask.
    pub fn try_new(mask: u8) -> (r: Option<Self>)
        ensures
            r is Some <==> 1 <= N <= 8 && mask <= low_ones(N as int),
            r matches Some(m) ==> m.bits() == mask && m.wf(),
    {
        if 1 <= N && N <= 8 && mask <= Self::max() {
            Some(Mask(mask))
        } else {
            None
        }
    }

    /// The mask is 0 exactly when no vertex is active, and the largest mask
    /// exactly when every vertex is.
    pub proof fn lemma_extremes(self)
        requires
            self.wf(),
        ensures
            self.bits() == 0 <==> none_active(self@),
            self.bits() == low_ones(N as int) <==> all_active(self@),
    {
        lemma_zero_iff_low_clear(self.bits(), N as int);
        lemma_low_ones_iff_low_set(self.bits(), N as int);
        if none_active(self@) {
            assert forall|i: int| 0 <= i < N implies !bit_at(self.bits(), i) by {
                assert(!self@[i]);
            }
        }
        if all_active(self@) {
            assert forall|i: int| 0 <= i < N implies bit_at(self.bits(), i) by {
                assert(self@[i]);
            }
        }
    }

    /// Whether vertex `idx` is active.
    pub fn is_set(self, idx: u8) -> (r: bool)
        requires
            idx < 8,
        ensures
            r == bit_at(self.bits(), idx as int),
            idx < N ==> r == self@[idx as int],
    {
        ((self.0 >> idx) & 1) != 0
    }

    /// The lowest vertex that is active while the vertex before it, around the
    /// polygon, is not.
    fn start(self) -> (r: u8)
        requires
            self.wf(),
            !none_active(self@),
            !all_active(self@),
        ensures
            is_start(self@, r as int),
            r as int == start_index(self@),
    {
        let n: u8 = N as u8;
        let mut i: u8 = 0;
        let ghost s = start_index(self@);
        proof {
            lemma_start_exists(self@);
        }
        while !(self.is_set(i) && !self.is_set(around(n, i + n - 1)))
            invariant
                self.wf(),
                n == N,
                is_start(self@, s),
                0 <= i <= s,
            decreases s - i,
        {
            i += 1;
        }
        i
    }

    /// The triangles that cover the active part of the polygon.
    ///
    /// The result is the mesh of the mask, a function of its bits alone. It is
    /// empty for the mask 0 and the fan from vertex 0 for the full mask. Every
    /// corner lies on the polygon, the corners at vertices are the active
    /// vertices, and the number of triangles follows from the numbers of
    /// active vertices and of clusters. Wherever the vertices
    /// are placed, the signed areas of the triangles add up to the signed area
    /// inside the outline of the active part; and where they are placed at
    /// the corners of a convex polygon, in anticlockwise order, no triangle is
    /// clockwise, so that none of those areas is negative.
    pub fn march(self) -> (r: Vec<[MarchPoint; 3]>)
        requires
            self.wf(),
        ensures
            r@ == mesh(self@),
            self.bits() == 0 ==> r@.len() == 0,
            self.bits() == low_ones(N as int) ==> r@ == fan(N as int),
            self.bits() == low_ones(N as int) && N >= 2 ==> r@.len() == N - 2,
            on_polygon(r@, N as int),
            corners_active(r@, self@),
            forall|i: int|
                0 <= i < N && self@[i] && (N >= 3 || self.bits() != low_ones(N as int))
                    ==> #[trigger] has_corner_at(r@, i),
            r@.len() == triangle_count(self@),
            N >= 2 ==> r@.len() <= 2 * N - 3,
            forall|pts: Seq<(int, int)>| #[trigger] mesh_area(pts, r@) == ring(pts, outline(self@)),
            forall|pts: Seq<(int, int)>|
                pts.len() == N && convex(pts) ==> #[trigger] anticlockwise(pts, r@),
    {
        let n: u8 = N as u8;
        proof {
            self.lemma_extremes();
            lemma_mesh_on_polygon(self@);
            lemma_corners_are_active(self@);
            assert forall|i: int|
                0 <= i < N && self@[i] && (N >= 3 || self.bits() != low_ones(
                    N as int,
                )) implies #[trigger] has_corner_at(mesh(self@), i) by {
                lemma_active_are_corners(self@, i);
            }
            lemma_mesh_len(self@);
            if N >= 2 {
                lemma_mesh_len_bound(self@);
            }
            assert forall|pts: Seq<(int, int)>| #[trigger]
                mesh_area(pts, mesh(self@)) == ring(pts, outline(self@)) by {
                lemma_mesh_area(self@, pts);
            }
            assert forall|pts: Seq<(int, int)>| pts.len() == N && convex(pts) implies #[trigger]
                anticlockwise(pts, mesh(self@)) by {
                lemma_mesh_turns_one_way(self@, pts);
            }
        }
        if self.0 == 0 {
            return Vec::new();
        }
        if self.0 == Self::max() {
            return Self::fill();
        }
        let start = self.start();
        let ghost active = self@;
        let ghost s = start as int;
        let mut res: Vec<[MarchPoint; 3]> = Vec::new();
        let mut clusters: Vec<OnesCluster> = Vec::with_capacity(N / 2);
        let mut was_in_cluster = false;
        let mut step: u8 = 0;
        while step < n
            invariant
                self.wf(),
                n == N,
                active == self@,
                s == start,
                0 <= s < n,
                0 <= step <= n,
                res@ == strips(active, s, step as int),
                clusters@.len() == joins(active, s, step as int).len(),
                clusters@.len() <= step,
                forall|c: int|
                    0 <= c < clusters@.len() ==> clusters@[c].join_point == joins(
                        active,
                        s,
                        step as int,
                    )[c],
                clusters@.len() > 0 <==> last_lit(active, s, step as int) >= 0,
                last_lit(active, s, step as int) < step,
                last_lit(active, s, step as int) >= 0 ==> {
                    let e = last_lit(active, s, step as int);
                    &&& clusters@.last().end_point == after(N as int, vertex(N as int, s, e))
                    &&& clusters@.last().join_point == join_of(active, s, e)
                },
                was_in_cluster == (step > 0 && lit(active, s, step - 1)),
            decreases n - step,
        {
            let cur: u8 = around(n, start + step);
            let prev: u8 = around(n, cur + n - 1);
            let next: u8 = around(n, cur + 1);
            if self.is_set(cur) {
                if was_in_cluster {
                    let k = clusters.len() - 1;
                    let join_point = clusters[k].join_point;
                    res.push([MarchPoint::Between(cur, prev), MarchPoint::At(cur), join_point]);
                    res.push([MarchPoint::At(cur), MarchPoint::Between(cur, next), join_point]);
                    clusters[k].end_point = MarchPoint::Between(cur, next);
                } else {
                    let join_point = MarchPoint::Between(cur, prev);
                    let end_point = MarchPoint::Between(cur, next);
                    res.push([MarchPoint::At(cur), MarchPoint::Between(cur, next), join_point]);
                    if clusters.len() > 0 {
                        let k = clusters.len() - 1;
                        res.push([join_point, clusters[k].join_point, clusters[k].end_point]);
                    }
                    clusters.push(OnesCluster { join_point, end_point });
                }
                was_in_cluster = true;
            } else {
                was_in_cluster = false;
            }
            step += 1;
        }
        if clusters.len() > 1 {
            let k = clusters.len() - 1;
            res.push([clusters[0].join_point, clusters[k].join_point, clusters[k].end_point]);
        }
        let ghost j = joins(active, s, N as int);
        let ghost base = res@;
        let mut idx: usize = 0;
        while idx + 1 < clusters.len()
            invariant
                j.len() == clusters@.len(),
                clusters@.len() <= 8,
                forall|c: int| 0 <= c < clusters@.len() ==> clusters@[c].join_point == j[c],
                0 <= idx <= clusters@.len() + 1,
                res@ + comb(j, idx as int) == base + comb(j, 0),
            decreases clusters@.len() + 1 - idx,
        {
            let third = (idx + 2) % clusters.len();
            assert(third == wrap(j.len() as int, idx + 2)) by {
                reveal(wrap);
            }
            let c1 = clusters[idx].join_point;
            let c2 = clusters[idx + 1].join_point;
            let c3 = clusters[third].join_point;
            res.push([c1, c2, c3]);
            idx += 2;
        }
        res
    }

    /// The mask as text: `0b`, then one binary digit for each vertex, the one of
    /// the last vertex first.
    pub fn to_binary_string(self) -> (r: String)
        requires
            1 <= N <= 8,
        ensures
            r@ == binary(self@),
    {
        let mut text = String::from_str("0b");
        let mut i: u8 = N as u8;
        proof {
            reveal_strlit("0b");
            reveal_strlit("0");
            reveal_strlit("1");
        }
        while i > 0
            invariant
                0 <= i <= N <= 8,
                "0"@ == seq!['0'],
                "1"@ == seq!['1'],
                text@ == seq!['0', 'b'] + Seq::new(
                    (N - i) as nat,
                    |k: int| if self@[N - 1 - k] { '1' } else { '0' },
                ),
            decreases i,
        {
            i -= 1;
            if self.is_set(i) {
                text.append("1");
            } else {
                text.append("0");
            }
        }
        text
    }

    /// The mesh of the whole polygon: a fan of triangles from vertex 0.
    pub fn fill() -> (r: Vec<[MarchPoint; 3]>)
        requires
            1 <= N <= 8,
        ensures
            r@ == fan(N as int),
    {
        let n: u8 = N as u8;
        let mut res: Vec<[MarchPoint; 3]> = Vec::new();
        let mut i: u8 = 0;
        while i + 2 < n
            invariant
                n == N,
                1 <= N <= 8,
                i + 2 <= n || i == 0,
                res@.len() == i,
                forall|k: int| 0 <= k < i ==> res@[k] == fan(N as int)[k],
            decreases n - i,
        {
            res.push([MarchPoint::At(0), MarchPoint::At(i + 1), MarchPoint::At(i + 2)]);
            i += 1;
        }
        res
    }
}

impl<const N: usize> Default for Mask<N> {
    /// The mask without an active vertex.
    fn default() -> (r: Self)
        ensures
            r.bits() == 0,
    {
        Mask(0)
    }
}

} // verus!
