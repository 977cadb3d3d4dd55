//! The dense three-dimensional array that stores the cells, and what the
//! rest of the crate takes for granted about it.

use crate::cell::Cell;
use crate::index::{in_box, FieldIndex};
use vstd::prelude::*;

verus! {

/// The largest number of cells a field may have.
pub const MAX_CELLS: usize = 0x100_0000;

/// A three-dimensional `ndarray` array of cells. Nothing inside it is visible
/// to the verifier: all that is known of a grid is what `grid_shape` and
/// `grid_cells` say, and those are tied to the array only by the contracts of
/// the methods below, which are taken on trust.
#[verifier::external_body]
pub struct Grid {
    cells: ndarray::Array3<Cell>,
}

/// The length of each axis of the array.
pub uninterp spec fn grid_shape(grid: Grid) -> (nat, nat, nat);

/// The cell stored at each position of the array.
pub uninterp spec fn grid_cells(grid: Grid) -> Map<FieldIndex, Cell>;

impl Grid {
    /// `ndarray::ArrayBase::default` with a three-axis shape: an array of the
    /// given axis lengths whose every element is `Cell::default()`. The call
    /// panics where the product of the non-zero axis lengths exceeds
    /// `isize::MAX`, and so does the allocation where the cells take more
    /// bytes than that; the bounds on the axes and on their product rule both
    /// out.
    #[verifier::external_body]
    pub(crate) fn with_shape(d0: usize, d1: usize, d2: usize) -> (grid: Grid)
        requires
            0 < d0,
            0 < d1,
            0 < d2,
            d0 * d1 * d2 <= MAX_CELLS,
        ensures
            grid_shape(grid) == (d0 as nat, d1 as nat, d2 as nat),
            grid_cells(grid) == Map::new(
                |p: FieldIndex| in_box(grid_shape(grid), p),
                |p: FieldIndex| Cell::fresh(),
            ),
    {
        Grid { cells: ndarray::Array3::default((d0, d1, d2)) }
    }

    /// `ndarray::ArrayBase::dim`: the axis lengths.
    #[verifier::external_body]
    pub(crate) fn dim(&self) -> (d: (usize, usize, usize))
        ensures
            grid_shape(*self) == (d.0 as nat, d.1 as nat, d.2 as nat),
    {
        self.cells.dim()
    }

    /// `ndarray::ArrayBase::len`: the number of elements, which is the product
    /// of the axis lengths.
    #[verifier::external_body]
    pub(crate) fn len(&self) -> (n: usize)
        ensures
            n == grid_shape(*self).0 * grid_shape(*self).1 * grid_shape(*self).2,
    {
        self.cells.len()
    }

    /// `ndarray::ArrayBase::get` with a three-coordinate index: the element at
    /// `p`, or `None` where a coordinate of `p` is not below its axis length.
    #[verifier::external_body]
    pub(crate) fn get(&self, p: FieldIndex) -> (cell: Option<Cell>)
        ensures
            in_box(grid_shape(*self), p) ==> cell == Some(grid_cells(*self)[p]),
            !in_box(grid_shape(*self), p) ==> cell is None,
    {
        self.cells.get(p.0).copied()
    }

    /// Assignment through `ndarray`'s index operator: the element at `p`
    /// becomes `cell`, every other element and the shape stay. The operator
    /// panics on an index outside the array.
    #[verifier::external_body]
    pub(crate) fn set(&mut self, p: FieldIndex, cell: Cell)
        requires
            in_box(grid_shape(*old(self)), p),
        ensures
            grid_shape(*final(self)) == grid_shape(*old(self)),
            grid_cells(*final(self)) == grid_cells(*old(self)).insert(p, cell),
    {
        self.cells[p.0] = cell;
    }

    /// `ndarray::ArrayBase::indexed_iter`, keeping the indices: every position
    /// of the array, each once.
    #[verifier::external_body]
    pub(crate) fn indices(&self) -> (all: Vec<FieldIndex>)
        ensures
            all@.no_duplicates(),
            forall|n: int| 0 <= n < all@.len() ==> in_box(grid_shape(*self), #[trigger] all@[n]),
            forall|p: FieldIndex| in_box(grid_shape(*self), p) ==> #[trigger] all@.contains(p),
    {
        self.cells.indexed_iter().map(|(p, _)| FieldIndex::from(p)).collect()
    }
}

} // verus!
