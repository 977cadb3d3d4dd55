use vstd::prelude::*;
use vstd::std_specs::cmp::PartialEqSpecImpl;
use vstd::std_specs::convert::FromSpecImpl;

verus! {

/// The position of a cell: its three coordinates, one per axis.
#[derive(Debug, Clone, Copy)]
pub struct FieldIndex(pub (usize, usize, usize));

impl PartialEq for FieldIndex {
    fn eq(&self, other: &FieldIndex) -> (same: bool) {
        self.0.0 == other.0.0 && self.0.1 == other.0.1 && self.0.2 == other.0.2
    }
}

impl Eq for FieldIndex {

}

impl PartialEqSpecImpl for FieldIndex {
    open spec fn obeys_eq_spec() -> bool {
        true
    }

    open spec fn eq_spec(&self, other: &FieldIndex) -> bool {
        self.0.0 == other.0.0 && self.0.1 == other.0.1 && self.0.2 == other.0.2
    }
}

impl From<(usize, usize, usize)> for FieldIndex {
    fn from(value: (usize, usize, usize)) -> (index: FieldIndex) {
        FieldIndex(value)
    }
}

impl FromSpecImpl<(usize, usize, usize)> for FieldIndex {
    open spec fn obeys_from_spec() -> bool {
        true
    }

    open spec fn from_spec(value: (usize, usize, usize)) -> FieldIndex {
        FieldIndex(value)
    }
}

impl From<&(usize, usize, usize)> for FieldIndex {
    fn from(value: &(usize, usize, usize)) -> (index: FieldIndex) {
        FieldIndex(*value)
    }
}

impl FromSpecImpl<&(usize, usize, usize)> for FieldIndex {
    open spec fn obeys_from_spec() -> bool {
        true
    }

    open spec fn from_spec(value: &(usize, usize, usize)) -> FieldIndex {
        FieldIndex(*value)
    }
}

impl From<[usize; 3]> for FieldIndex {
    fn from(value: [usize; 3]) -> (index: FieldIndex) {
        FieldIndex((value[0], value[1], value[2]))
    }
}

impl FromSpecImpl<[usize; 3]> for FieldIndex {
    open spec fn obeys_from_spec() -> bool {
        true
    }

    open spec fn from_spec(value: [usize; 3]) -> FieldIndex {
        FieldIndex((value[0], value[1], value[2]))
    }
}

impl From<&[usize; 3]> for FieldIndex {
    fn from(value: &[usize; 3]) -> (index: FieldIndex) {
        FieldIndex((value[0], value[1], value[2]))
    }
}

impl FromSpecImpl<&[usize; 3]> for FieldIndex {
    open spec fn obeys_from_spec() -> bool {
        true
    }

    open spec fn from_spec(value: &[usize; 3]) -> FieldIndex {
        FieldIndex((value[0], value[1], value[2]))
    }
}

impl FieldIndex {
    /// Coordinate along the first axis.
    pub open spec fn x(self) -> int {
        self.0.0 as int
    }

    /// Coordinate along the second axis.
    pub open spec fn y(self) -> int {
        self.0.1 as int
    }

    /// Coordinate along the third axis.
    pub open spec fn z(self) -> int {
        self.0.2 as int
    }
}

/// `p` lies on a grid of the given axis lengths.
pub open spec fn in_box(shape: (nat, nat, nat), p: FieldIndex) -> bool {
    p.x() < shape.0 && p.y() < shape.1 && p.z() < shape.2
}

/// `q` is one of the 26 positions that surround `p`: every coordinate differs
/// by at most one, and the two positions differ.
pub open spec fn adjacent(p: FieldIndex, q: FieldIndex) -> bool {
    &&& p != q
    &&& -1 <= q.x() - p.x() <= 1
    &&& -1 <= q.y() - p.y() <= 1
    &&& -1 <= q.z() - p.z() <= 1
}

/// Every coordinate of `q` is within one of that of `p`: `q` surrounds `p` or
/// is `p` itself.
pub open spec fn near(p: FieldIndex, q: FieldIndex) -> bool {
    &&& -1 <= q.x() - p.x() <= 1
    &&& -1 <= q.y() - p.y() <= 1
    &&& -1 <= q.z() - p.z() <= 1
}

/// The number, from 0 to 26, of the place that `q` takes in the 3 x 3 x 3
/// block around `p`; the last axis varies fastest and `p` itself has number 13.
pub open spec fn slot_of(p: FieldIndex, q: FieldIndex) -> int {
    (q.x() - p.x() + 1) * 9 + (q.y() - p.y() + 1) * 3 + (q.z() - p.z() + 1)
}

/// The coordinate `c + step - 1`, where it is a coordinate at all.
fn shifted(c: usize, step: u8) -> (r: Option<usize>)
    requires
        step <= 2,
    ensures
        0 <= c + step - 1 <= usize::MAX ==> r == Some((c + step - 1) as usize),
        !(0 <= c + step - 1 <= usize::MAX) ==> r is None,
{
    if step == 0 {
        if c == 0 {
            None
        } else {
            Some(c - 1)
        }
    } else if step == 1 {
        Some(c)
    } else {
        if c == usize::MAX {
            None
        } else {
            Some(c + 1)
        }
    }
}

/// The position that takes place number `slot` in the block around `p`, or
/// `None` where no position does, which happens at the ends of the
/// coordinate range and for numbers above 26.
pub fn neighbor(p: FieldIndex, slot: u8) -> (q: Option<FieldIndex>)
    ensures
        q matches Some(r) ==> near(p, r) && slot_of(p, r) == slot,
        q is None ==> forall|r: FieldIndex| !(near(p, r) && slot_of(p, r) == slot),
{
    if slot >= 27 {
        return None;
    }
    let x = shifted(p.0.0, slot / 9);
    let y = shifted(p.0.1, (slot / 3) % 3);
    let z = shifted(p.0.2, slot % 3);
    match (x, y, z) {
        (Some(x), Some(y), Some(z)) => Some(FieldIndex((x, y, z))),
        _ => None,
    }
}

/// Positions that are near `p` and take the same place around it are one
/// position.
pub proof fn lemma_slot_determines(p: FieldIndex, q: FieldIndex, r: FieldIndex)
    requires
        near(p, q),
        near(p, r),
        slot_of(p, q) == slot_of(p, r),
    ensures
        q == r,
{
}

/// Whether `q` is one of the positions that surround `p`.
pub fn is_adjacent(p: FieldIndex, q: FieldIndex) -> (b: bool)
    ensures
        b == adjacent(p, q),
{
    p != q && within_one(p.0.0, q.0.0) && within_one(p.0.1, q.0.1) && within_one(p.0.2, q.0.2)
}

fn within_one(a: usize, b: usize) -> (r: bool)
    ensures
        r == (-1 <= b - a <= 1),
{
    if a <= b {
        b - a <= 1
    } else {
        a - b <= 1
    }
}

} // verus!
