//! Counting positions: how many cells a grid has and how many surround a cell.

use crate::index::{adjacent, in_box, FieldIndex};
use vstd::prelude::*;
use vstd::set_lib::*;

verus! {

/// The positions whose coordinates lie between `lo` (inclusive) and `hi`
/// (exclusive), axis by axis.
pub open spec fn range_box(lo: (int, int, int), hi: (int, int, int)) -> Set<FieldIndex> {
    Set::new(
        |q: FieldIndex|
            lo.0 <= q.x() < hi.0 && lo.1 <= q.y() < hi.1 && lo.2 <= q.z() < hi.2,
    )
}

/// Every position of a grid of the given axis lengths.
pub open spec fn box_set(shape: (nat, nat, nat)) -> Set<FieldIndex> {
    Set::new(|p: FieldIndex| in_box(shape, p))
}

/// The positions that surround `p`, on the grid or off it.
pub open spec fn surroundings(p: FieldIndex) -> Set<FieldIndex> {
    Set::new(|q: FieldIndex| adjacent(p, q))
}

proof fn lemma_row(x: int, y: int, lo: int, hi: int)
    requires
        0 <= x <= usize::MAX,
        0 <= y <= usize::MAX,
        0 <= lo <= hi <= usize::MAX + 1,
    ensures
        range_box((x, y, lo), (x + 1, y + 1, hi)).finite(),
        range_box((x, y, lo), (x + 1, y + 1, hi)).len() == hi - lo,
    decreases hi - lo,
{
    let s = range_box((x, y, lo), (x + 1, y + 1, hi));
    if hi == lo {
        assert(s =~= Set::empty());
    } else {
        lemma_row(x, y, lo, hi - 1);
        let t = range_box((x, y, lo), (x + 1, y + 1, hi - 1));
        let q = FieldIndex((x as usize, y as usize, (hi - 1) as usize));
        assert(s =~= t.insert(q));
        assert(!t.contains(q));
    }
}

proof fn lemma_slab(x: int, lo: (int, int), hi: (int, int))
    requires
        0 <= x <= usize::MAX,
        0 <= lo.0 <= hi.0 <= usize::MAX + 1,
        0 <= lo.1 <= hi.1 <= usize::MAX + 1,
    ensures
        range_box((x, lo.0, lo.1), (x + 1, hi.0, hi.1)).finite(),
        range_box((x, lo.0, lo.1), (x + 1, hi.0, hi.1)).len() == (hi.0 - lo.0) * (hi.1 - lo.1),
    decreases hi.0 - lo.0,
{
    let s = range_box((x, lo.0, lo.1), (x + 1, hi.0, hi.1));
    if hi.0 == lo.0 {
        assert(s =~= Set::empty());
        assert(0 * (hi.1 - lo.1) == 0);
    } else {
        lemma_slab(x, lo, (hi.0 - 1, hi.1));
        lemma_row(x, hi.0 - 1, lo.1, hi.1);
        let t = range_box((x, lo.0, lo.1), (x + 1, hi.0 - 1, hi.1));
        let r = range_box((x, hi.0 - 1, lo.1), (x + 1, hi.0, hi.1));
        assert(s =~= t + r);
        assert(t.disjoint(r));
        lemma_set_disjoint_lens(t, r);
        assert((hi.0 - 1 - lo.0) * (hi.1 - lo.1) + (hi.1 - lo.1) == (hi.0 - lo.0) * (hi.1 - lo.1))
            by (nonlinear_arith);
    }
}

/// A range of positions is finite and holds as many positions as the product
/// of its three extents.
pub proof fn lemma_range_box(lo: (int, int, int), hi: (int, int, int))
    requires
        0 <= lo.0 <= hi.0 <= usize::MAX + 1,
        0 <= lo.1 <= hi.1 <= usize::MAX + 1,
        0 <= lo.2 <= hi.2 <= usize::MAX + 1,
    ensures
        range_box(lo, hi).finite(),
        range_box(lo, hi).len() == (hi.0 - lo.0) * (hi.1 - lo.1) * (hi.2 - lo.2),
    decreases hi.0 - lo.0,
{
    let s = range_box(lo, hi);
    if hi.0 == lo.0 {
        assert(s =~= Set::empty());
        assert(0 * (hi.1 - lo.1) * (hi.2 - lo.2) == 0) by (nonlinear_arith);
    } else {
        lemma_range_box(lo, (hi.0 - 1, hi.1, hi.2));
        lemma_slab(hi.0 - 1, (lo.1, lo.2), (hi.1, hi.2));
        let t = range_box(lo, (hi.0 - 1, hi.1, hi.2));
        let r = range_box((hi.0 - 1, lo.1, lo.2), (hi.0, hi.1, hi.2));
        assert(s =~= t + r);
        assert(t.disjoint(r));
        lemma_set_disjoint_lens(t, r);
        assert((hi.0 - 1 - lo.0) * (hi.1 - lo.1) * (hi.2 - lo.2) + (hi.1 - lo.1) * (hi.2 - lo.2) == (
        hi.0 - lo.0) * (hi.1 - lo.1) * (hi.2 - lo.2)) by (nonlinear_arith);
    }
}

/// A grid holds as many positions as the product of its axis lengths.
pub proof fn lemma_box_size(shape: (nat, nat, nat))
    requires
        shape.0 <= usize::MAX,
        shape.1 <= usize::MAX,
        shape.2 <= usize::MAX,
    ensures
        box_set(shape).finite(),
        box_set(shape).len() == shape.0 * shape.1 * shape.2,
{
    lemma_range_box((0, 0, 0), (shape.0 as int, shape.1 as int, shape.2 as int));
    assert(box_set(shape) =~= range_box((0, 0, 0), (shape.0 as int, shape.1 as int, shape.2 as int)));
}

/// Positions of a grid, none listed twice, are no more than the grid has cells.
pub proof fn lemma_distinct_positions_bound(shape: (nat, nat, nat), listed: Seq<FieldIndex>)
    requires
        shape.0 <= usize::MAX,
        shape.1 <= usize::MAX,
        shape.2 <= usize::MAX,
        listed.no_duplicates(),
        forall|n: int| 0 <= n < listed.len() ==> in_box(shape, #[trigger] listed[n]),
    ensures
        listed.len() <= shape.0 * shape.1 * shape.2,
{
    lemma_box_size(shape);
    listed.unique_seq_to_set();
    assert(listed.to_set().subset_of(box_set(shape)));
    lemma_len_subset(listed.to_set(), box_set(shape));
}

spec fn clamp_low(c: int) -> int {
    if c <= 0 {
        0
    } else {
        c - 1
    }
}

spec fn clamp_high(c: int) -> int {
    if c >= usize::MAX {
        usize::MAX + 1
    } else {
        c + 2
    }
}

/// At most 26 positions surround a cell.
pub proof fn lemma_surroundings(p: FieldIndex)
    ensures
        surroundings(p).finite(),
        surroundings(p).len() <= 26,
{
    let lo = (clamp_low(p.x()), clamp_low(p.y()), clamp_low(p.z()));
    let hi = (clamp_high(p.x()), clamp_high(p.y()), clamp_high(p.z()));
    lemma_range_box(lo, hi);
    let cube = range_box(lo, hi);
    assert((hi.0 - lo.0) * (hi.1 - lo.1) * (hi.2 - lo.2) <= 27) by (nonlinear_arith)
        requires
            0 <= hi.0 - lo.0 <= 3,
            0 <= hi.1 - lo.1 <= 3,
            0 <= hi.2 - lo.2 <= 3,
    ;
    assert(cube.contains(p));
    assert(surroundings(p) =~= cube.remove(p));
}

/// Any set of cells that all surround `p` is finite and has at most 26 members.
pub proof fn lemma_surrounding_subset(p: FieldIndex, s: Set<FieldIndex>)
    requires
        forall|q: FieldIndex| s.contains(q) ==> adjacent(p, q),
    ensures
        s.finite(),
        s.len() <= 26,
{
    lemma_surroundings(p);
    assert(s.subset_of(surroundings(p)));
    lemma_len_subset(s, surroundings(p));
    lemma_set_subset_finite(surroundings(p), s);
}

} // verus!
