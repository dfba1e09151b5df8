//! Triangles, and meshes as lists of triangles.

use vstd::prelude::*;
use vstd::std_specs::iter::IteratorSpec;
use vstd::std_specs::slice::into_iter_elts;
use crate::model::fan;
use crate::point::MarchPoint;

verus! {

/// One face of a mesh: its three corners, in order.
#[derive(Copy, Clone, Debug, PartialEq, Eq)]
pub struct Triangle {
    pub indices: [MarchPoint; 3],
}

impl Triangle {
    /// The triangle with the corners `a`, `b` and `c`.
    pub fn new(a: MarchPoint, b: MarchPoint, c: MarchPoint) -> (r: Self)
        ensures
            r.indices == [a, b, c],
    {
        Self { indices: [a, b, c] }
    }

    /// The triangle whose corners are the polygon vertices `a`, `b` and `c`.
    pub fn at(a: u8, b: u8, c: u8) -> (r: Self)
        ensures
            r.indices == [MarchPoint::At(a), MarchPoint::At(b), MarchPoint::At(c)],
    {
        Self { indices: [MarchPoint::At(a), MarchPoint::At(b), MarchPoint::At(c)] }
    }
}

/// A mesh: a list of triangles.
#[derive(Debug)]
pub struct MarchIndices {
    indices: Vec<Triangle>,
}

impl View for MarchIndices {
    type V = Seq<[MarchPoint; 3]>;

    /// The corners of each triangle, in the order of the list.
    open spec fn view(&self) -> Seq<[MarchPoint; 3]> {
        self.triangles().map_values(|t: Triangle| t.indices)
    }
}

impl MarchIndices {
    /// The triangles of the list.
    pub closed spec fn triangles(&self) -> Seq<Triangle> {
        self.indices@
    }

    /// The mesh of a whole polygon of `n` vertices: a fan of triangles from vertex 0.
    pub fn filled(n: u8) -> (r: Self)
        requires
            n >= 2,
        ensures
            r@ == fan(n as int),
    {
        let mut indices: Vec<Triangle> = Vec::new();
        let mut i: u8 = 0;
        while i < n - 2
            invariant
                n >= 2,
                i <= n - 2,
                indices@.len() == i,
                forall|k: int| 0 <= k < i ==> indices@[k].indices == fan(n as int)[k],
            decreases n - i,
        {
            indices.push(Triangle::at(0, i + 1, i + 2));
            i += 1;
        }
        Self { indices }
    }

    /// Appends the triangle with the corners `a`, `b` and `c`.
    pub fn add_triangle(&mut self, a: MarchPoint, b: MarchPoint, c: MarchPoint)
        ensures
            final(self).triangles() == old(self).triangles().push(Triangle { indices: [a, b, c] }),
            final(self)@ == old(self)@.push([a, b, c]),
    {
        self.indices.push(Triangle::new(a, b, c));
    }

    /// An iterator over the triangles, in the order of the list.
    pub fn iter(&self) -> (it: std::slice::Iter<'_, Triangle>)
        ensures
            into_iter_elts(it) == self.triangles(),
            IteratorSpec::remaining(&it) == self.triangles().as_ref(),
            IteratorSpec::decrease(&it) is Some,
            IteratorSpec::initial_value_relation(&it, &it),
    {
        self.indices.iter()
    }
}

impl Default for MarchIndices {
    /// The mesh without a triangle.
    fn default() -> (r: Self)
        ensures
            r.triangles().len() == 0,
    {
        Self { indices: Vec::new() }
    }
}

} // verus!
