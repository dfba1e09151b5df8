//! Indices around a polygon: arithmetic modulo its number of vertices.

use vstd::prelude::*;

verus! {

/// The index `i` taken around a polygon of `n` vertices: `i` modulo `n`.
#[verifier::opaque]
pub open spec fn wrap(n: int, i: int) -> int {
    i % n
}

/// Taking an index below `2 * n` around a polygon of `n` vertices takes `n`
/// off it once, or not at all.
pub proof fn lemma_wrap(n: int, x: int)
    requires
        0 < n,
        0 <= x < 2 * n,
    ensures
        wrap(n, x) == if x < n { x } else { x - n },
{
    reveal(wrap);
    assert(x % n == if x < n { x } else { x - n }) by (nonlinear_arith)
        requires
            0 < n,
            0 <= x < 2 * n,
    ;
}

/// An index taken around a polygon is a vertex of it.
pub proof fn lemma_wrap_range(n: int, x: int)
    requires
        0 < n,
    ensures
        0 <= wrap(n, x) < n,
{
    reveal(wrap);
    assert(0 <= x % n < n) by (nonlinear_arith)
        requires
            0 < n,
    ;
}

/// Taking an index from `-n` up to `3 * n` around a polygon of `n` vertices
/// adds `n` to it once, leaves it, or takes `n` off it once or twice.
pub proof fn lemma_wrap_wide(n: int, x: int)
    requires
        0 < n,
        -n <= x < 3 * n,
    ensures
        wrap(n, x) == if x < 0 {
            x + n
        } else if x < n {
            x
        } else if x < 2 * n {
            x - n
        } else {
            x - 2 * n
        },
{
    reveal(wrap);
    let r = if x < 0 {
        x + n
    } else if x < n {
        x
    } else if x < 2 * n {
        x - n
    } else {
        x - 2 * n
    };
    assert(x % n == r) by (nonlinear_arith)
        requires
            0 < n,
            0 <= r < n,
            x == r - n || x == r || x == r + n || x == r + 2 * n,
    ;
}

} // verus!
