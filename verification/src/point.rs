//! The corners of mesh triangles.

use vstd::prelude::*;

verus! {

/// A corner of a mesh triangle, named by the polygon vertices it depends on.
#[derive(Copy, Clone, Debug, PartialEq, Eq, Structural)]
pub enum MarchPoint {
    /// The polygon vertex with this index.
    At(u8),
    /// The midpoint of the polygon edge that joins the vertices with these two indices.
    Between(u8, u8),
}

/// Whether `i` and `j` are neighbours on a polygon of `n` vertices: their
/// indices differ by one modulo `n`.
pub open spec fn adjacent(n: int, i: int, j: int) -> bool {
    (j - i) % n == 1int % n || (i - j) % n == 1int % n
}

impl MarchPoint {
    /// Every vertex index that the point names is below `n`.
    pub open spec fn within(self, n: int) -> bool {
        match self {
            MarchPoint::At(i) => i < n,
            MarchPoint::Between(i, j) => i < n && j < n,
        }
    }

    /// The point lies on a polygon of `n` vertices: its indices are below `n`,
    /// and a midpoint is that of an edge, so of two neighbouring vertices.
    pub open spec fn on_polygon(self, n: int) -> bool {
        match self {
            MarchPoint::At(i) => i < n,
            MarchPoint::Between(i, j) => i < n && j < n && adjacent(n, i as int, j as int),
        }
    }

    /// Whether the point can be looked up in a table of `len` vertex positions.
    pub fn fits(self, len: usize) -> (ok: bool)
        ensures
            ok == self.within(len as int),
    {
        match self {
            MarchPoint::At(i) => (i as usize) < len,
            MarchPoint::Between(i, j) => (i as usize) < len && (j as usize) < len,
        }
    }
}

} // verus!
