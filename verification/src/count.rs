//! Counting the integers of a range that have a property.

use vstd::prelude::*;

verus! {

/// The number of integers `i` with `lo <= i < hi` for which `f(i)` holds.
pub open spec fn count(f: spec_fn(int) -> bool, lo: int, hi: int) -> nat
    decreases hi - lo,
{
    if hi <= lo {
        0
    } else if f(hi - 1) {
        count(f, lo, hi - 1) + 1
    } else {
        count(f, lo, hi - 1)
    }
}

/// A range holds no more integers with a property than it holds integers.
pub proof fn lemma_count_bound(f: spec_fn(int) -> bool, lo: int, hi: int)
    requires
        lo <= hi,
    ensures
        count(f, lo, hi) <= hi - lo,
    decreases hi - lo,
{
    if lo < hi {
        lemma_count_bound(f, lo, hi - 1);
    }
}

/// The count is zero exactly when the property holds nowhere in the range.
pub proof fn lemma_count_none(f: spec_fn(int) -> bool, lo: int, hi: int)
    requires
        lo <= hi,
    ensures
        count(f, lo, hi) == 0 <==> (forall|i: int| lo <= i < hi ==> !#[trigger] f(i)),
    decreases hi - lo,
{
    if lo < hi {
        lemma_count_none(f, lo, hi - 1);
    }
}

/// The count is the length of the range exactly when the property holds
/// everywhere in it.
pub proof fn lemma_count_every(f: spec_fn(int) -> bool, lo: int, hi: int)
    requires
        lo <= hi,
    ensures
        count(f, lo, hi) == hi - lo <==> (forall|i: int| lo <= i < hi ==> #[trigger] f(i)),
    decreases hi - lo,
{
    if lo < hi {
        lemma_count_every(f, lo, hi - 1);
        lemma_count_bound(f, lo, hi - 1);
    }
}

/// Counting over a range is counting over its two parts.
pub proof fn lemma_count_split(f: spec_fn(int) -> bool, lo: int, mid: int, hi: int)
    requires
        lo <= mid <= hi,
    ensures
        count(f, lo, hi) == count(f, lo, mid) + count(f, mid, hi),
    decreases hi - mid,
{
    if mid < hi {
        lemma_count_split(f, lo, mid, hi - 1);
    }
}

/// Where `g` at `i` is `f` at `i + d`, counting `g` over a range is counting
/// `f` over the range moved by `d`.
pub proof fn lemma_count_shift(
    f: spec_fn(int) -> bool,
    g: spec_fn(int) -> bool,
    lo: int,
    hi: int,
    d: int,
)
    requires
        forall|i: int| lo <= i < hi ==> #[trigger] g(i) == f(i + d),
    ensures
        count(g, lo, hi) == count(f, lo + d, hi + d),
    decreases hi - lo,
{
    if lo < hi {
        lemma_count_shift(f, g, lo, hi - 1, d);
    }
}

/// Where `g` implies `f` on a range, the range holds no more integers with
/// `g` than with `f`.
pub proof fn lemma_count_implies(
    f: spec_fn(int) -> bool,
    g: spec_fn(int) -> bool,
    lo: int,
    hi: int,
)
    requires
        forall|i: int| lo <= i < hi ==> (#[trigger] g(i) ==> f(i)),
    ensures
        count(g, lo, hi) <= count(f, lo, hi),
    decreases hi - lo,
{
    if lo < hi {
        lemma_count_implies(f, g, lo, hi - 1);
    }
}

/// Where `g` is the opposite of `f` on a range, the two counts add up to the
/// length of the range.
pub proof fn lemma_count_opposite(
    f: spec_fn(int) -> bool,
    g: spec_fn(int) -> bool,
    lo: int,
    hi: int,
)
    requires
        lo <= hi,
        forall|i: int| lo <= i < hi ==> #[trigger] g(i) == !f(i),
    ensures
        count(g, lo, hi) + count(f, lo, hi) == hi - lo,
    decreases hi - lo,
{
    if lo < hi {
        lemma_count_opposite(f, g, lo, hi - 1);
    }
}

/// Where `g` at `p` is `f` at `s + p`, less `n` from `n` on, `g` and `f` hold
/// equally often below `n`: turning a ring does not change how many of its
/// places have a property.
pub proof fn lemma_count_turned(
    f: spec_fn(int) -> bool,
    g: spec_fn(int) -> bool,
    n: int,
    s: int,
)
    requires
        0 <= s < n,
        forall|p: int|
            0 <= p < n ==> #[trigger] g(p) == f(if s + p < n { s + p } else { s + p - n }),
    ensures
        count(g, 0, n) == count(f, 0, n),
{
    assert forall|p: int| 0 <= p < n - s implies #[trigger] g(p) == f(p + s) by {}
    assert forall|p: int| n - s <= p < n implies #[trigger] g(p) == f(p + (s - n)) by {}
    lemma_count_split(g, 0, n - s, n);
    lemma_count_shift(f, g, 0, n - s, s);
    lemma_count_shift(f, g, n - s, n, s - n);
    lemma_count_split(f, 0, s, n);
}

} // verus!
