//! The field: the grid of cells, where its mines lie, what each cell counts
//! around it, and what opening a cell uncovers.

use crate::cell::{Cell, Contains};
use crate::index::{adjacent, in_box, lemma_slot_determines, near, neighbor, slot_of, FieldIndex};
use crate::settings::{is_fraction, Density, Safety};
use crate::storage::{grid_cells, grid_shape, Grid, MAX_CELLS};
use vstd::prelude::*;

verus! {

/// A three-dimensional grid of cells with the density and the safety policy
/// that govern where its mines go.
pub struct Minefield {
    cells: Grid,
    density: Density,
    safety: Safety,
    populated: bool,
}

impl Minefield {
    /// The length of each axis.
    pub closed spec fn shape(&self) -> (nat, nat, nat) {
        grid_shape(self.cells)
    }

    /// The cell at `p`; meaningful for positions on the grid.
    pub closed spec fn cell(&self, p: FieldIndex) -> Cell {
        grid_cells(self.cells)[p]
    }

    /// The mine density as a ratio.
    pub closed spec fn density(&self) -> (nat, nat) {
        self.density@
    }

    /// The first-move safety policy.
    pub closed spec fn safety(&self) -> Safety {
        self.safety
    }

    /// Whether the mines of this session have been placed.
    pub closed spec fn populated(&self) -> bool {
        self.populated
    }

    /// `p` is a position of this grid.
    pub open spec fn in_bounds(&self, p: FieldIndex) -> bool {
        in_box(self.shape(), p)
    }

    /// The number of cells.
    pub open spec fn total(&self) -> nat {
        self.shape().0 * self.shape().1 * self.shape().2
    }

    /// `p` is on the grid and holds a mine.
    pub open spec fn is_mine(&self, p: FieldIndex) -> bool {
        self.in_bounds(p) && self.cell(p).contains is Mine
    }

    /// `p` is on the grid and holds no mine.
    pub open spec fn is_safe(&self, p: FieldIndex) -> bool {
        self.in_bounds(p) && self.cell(p).contains is Empty
    }

    /// `p` is on the grid, holds no mine and has no mine around it.
    pub open spec fn is_blank(&self, p: FieldIndex) -> bool {
        self.in_bounds(p) && self.cell(p).contains == (Contains::Empty { adjacent_mines: 0 })
    }

    /// `p` is on the grid and still covered.
    pub open spec fn is_hidden(&self, p: FieldIndex) -> bool {
        self.in_bounds(p) && !self.cell(p).revealed
    }

    /// The positions that hold a mine.
    pub open spec fn mine_set(&self) -> Set<FieldIndex> {
        Set::new(|p: FieldIndex| self.is_mine(p))
    }

    /// The number of mines on the grid.
    pub open spec fn mine_count(&self) -> nat {
        self.mine_set().len()
    }

    /// The mined positions among the cells that surround `p`.
    pub open spec fn neighbor_mines(&self, p: FieldIndex) -> Set<FieldIndex> {
        Set::new(|q: FieldIndex| adjacent(p, q) && self.is_mine(q))
    }

    /// Every cell without a mine counts exactly the mines around it.
    pub open spec fn counts_correct(&self) -> bool {
        forall|p: FieldIndex|
            self.in_bounds(p) ==> ((#[trigger] self.cell(p)).contains matches Contains::Empty {
                adjacent_mines,
            } ==> adjacent_mines == self.neighbor_mines(p).len())
    }

    /// What holds of every field: each axis has at least one cell and the grid
    /// no more than `MAX_CELLS`; the density is a fraction; every count is
    /// right; and before the mines are placed every cell is empty.
    pub open spec fn wf(&self) -> bool {
        &&& 0 < self.shape().0
        &&& 0 < self.shape().1
        &&& 0 < self.shape().2
        &&& self.total() <= MAX_CELLS
        &&& is_fraction(self.density())
        &&& self.counts_correct()
        &&& !self.populated() ==> forall|p: FieldIndex|
            self.in_bounds(p) ==> (#[trigger] self.cell(p)).contains == (Contains::Empty {
                adjacent_mines: 0,
            })
    }

    /// Size, density and policy agree with those of `other`.
    pub open spec fn same_frame(&self, other: &Minefield) -> bool {
        &&& self.shape() == other.shape()
        &&& self.density() == other.density()
        &&& self.safety() == other.safety()
    }

    /// Every non-mine cell is uncovered: the game is won.
    pub open spec fn cleared(&self) -> bool {
        forall|p: FieldIndex| self.is_safe(p) ==> (#[trigger] self.cell(p)).revealed
    }

    /// Counts stay right when no cell changes what it contains.
    pub proof fn lemma_counts_carry_over(&self, other: &Minefield)
        requires
            self.counts_correct(),
            other.shape() == self.shape(),
            forall|p: FieldIndex|
                self.in_bounds(p) ==> (#[trigger] other.cell(p)).contains == self.cell(p).contains,
        ensures
            other.counts_correct(),
            other.mine_set() == self.mine_set(),
    {
        assert forall|p: FieldIndex| other.in_bounds(p) implies ((#[trigger] other.cell(
            p,
        )).contains matches Contains::Empty { adjacent_mines } ==> adjacent_mines
            == other.neighbor_mines(p).len()) by {
            assert(other.cell(p).contains == self.cell(p).contains);
            assert forall|q: FieldIndex| other.is_mine(q) == self.is_mine(q) by {
                if self.in_bounds(q) {
                    assert(other.cell(q).contains == self.cell(q).contains);
                }
            }
            assert(other.neighbor_mines(p) =~= self.neighbor_mines(p));
        }
        assert forall|q: FieldIndex| other.is_mine(q) == self.is_mine(q) by {
            if self.in_bounds(q) {
                assert(other.cell(q).contains == self.cell(q).contains);
            }
        }
        assert(other.mine_set() =~= self.mine_set());
    }

    /// A well-formed field has a cell, and no axis longer than `MAX_CELLS`.
    pub proof fn lemma_axes_bounded(&self)
        requires
            self.wf(),
        ensures
            self.shape().0 <= MAX_CELLS,
            self.shape().1 <= MAX_CELLS,
            self.shape().2 <= MAX_CELLS,
            1 <= self.total(),
    {
        let (a, b, c) = self.shape();
        assert(a <= a * b * c && b <= a * b * c && c <= a * b * c && 1 <= a * b * c) by (nonlinear_arith)
            requires
                1 <= a,
                1 <= b,
                1 <= c,
        ;
    }

    /// A field of the given axis lengths on which no mine is placed yet, or
    /// `None` where an axis has no cell or the grid would have more than
    /// `MAX_CELLS` cells.
    pub fn new(size: [usize; 3], density: Density, safety: Safety) -> (field: Option<Minefield>)
        ensures
            field is Some <==> 0 < size[0] && 0 < size[1] && 0 < size[2] && size[0] * size[1]
                * size[2] <= MAX_CELLS,
            field matches Some(f) ==> {
                &&& f.wf()
                &&& f.shape() == (size[0] as nat, size[1] as nat, size[2] as nat)
                &&& f.density() == density@
                &&& f.safety() == safety
                &&& !f.populated()
                &&& forall|p: FieldIndex| f.in_bounds(p) ==> #[trigger] f.cell(p) == Cell::fresh()
            },
    {
        let d0 = size[0];
        let d1 = size[1];
        let d2 = size[2];
        if d0 == 0 || d1 == 0 || d2 == 0 {
            return None;
        }
        if d0 > MAX_CELLS || d1 > MAX_CELLS || d2 > MAX_CELLS {
            proof {
                lemma_product_exceeds(d0 as int, d1 as int, d2 as int);
            }
            return None;
        }
        assert(d0 * d1 <= MAX_CELLS * MAX_CELLS) by (nonlinear_arith)
            requires
                0 <= d0 <= MAX_CELLS,
                0 <= d1 <= MAX_CELLS,
        ;
        let plane: u64 = (d0 as u64) * (d1 as u64);
        if plane > MAX_CELLS as u64 {
            proof {
                lemma_product_grows(plane as int, d2 as int);
            }
            return None;
        }
        assert(plane * d2 <= MAX_CELLS * MAX_CELLS) by (nonlinear_arith)
            requires
                0 <= plane <= MAX_CELLS,
                0 <= d2 <= MAX_CELLS,
        ;
        let volume: u64 = plane * (d2 as u64);
        if volume > MAX_CELLS as u64 {
            return None;
        }
        // Reading the ratio brings along that it is a fraction.
        let _ = density.denominator();
        let cells = Grid::with_shape(d0, d1, d2);
        let field = Minefield { cells, density, safety, populated: false };
        proof {
            assert forall|p: FieldIndex| field.in_bounds(p) implies #[trigger] field.cell(p)
                == Cell::fresh() by {}
            assert forall|p: FieldIndex| field.in_bounds(p) implies ((#[trigger] field.cell(
                p,
            )).contains matches Contains::Empty { adjacent_mines } ==> adjacent_mines
                == field.neighbor_mines(p).len()) by {
                assert(field.cell(p) == Cell::fresh());
                assert forall|q: FieldIndex| !field.is_mine(q) by {
                    if field.in_bounds(q) {
                        assert(field.cell(q) == Cell::fresh());
                    }
                }
                assert(field.neighbor_mines(p) =~= Set::empty());
            }
        }
        Some(field)
    }

    /// The length of each axis.
    pub fn dimensions(&self) -> (d: (usize, usize, usize))
        ensures
            self.shape() == (d.0 as nat, d.1 as nat, d.2 as nat),
    {
        self.cells.dim()
    }

    /// The number of cells.
    pub fn len(&self) -> (n: usize)
        ensures
            n == self.total(),
    {
        self.cells.len()
    }

    /// Whether the mines have been placed.
    pub fn is_populated(&self) -> (b: bool)
        ensures
            b == self.populated(),
    {
        self.populated
    }

    /// The first-move safety policy of this field.
    pub fn safety_policy(&self) -> (s: Safety)
        ensures
            s == self.safety(),
    {
        self.safety
    }

    /// The mine density of this field.
    pub fn mine_density(&self) -> (d: Density)
        ensures
            d@ == self.density(),
    {
        self.density
    }

    /// The cell at `index`, or `None` where `index` is off the grid.
    pub fn get(&self, index: FieldIndex) -> (cell: Option<Cell>)
        ensures
            self.in_bounds(index) ==> cell == Some(self.cell(index)),
            !self.in_bounds(index) ==> cell is None,
    {
        self.cells.get(index)
    }

    /// Every position of the grid, each once.
    pub fn positions(&self) -> (all: Vec<FieldIndex>)
        ensures
            all@.no_duplicates(),
            forall|n: int| 0 <= n < all@.len() ==> self.in_bounds(#[trigger] all@[n]),
            forall|p: FieldIndex| self.in_bounds(p) ==> #[trigger] all@.contains(p),
    {
        self.cells.indices()
    }

    /// The cells of the grid that surround `index`, each once, in the order
    /// of their places around `index`.
    pub fn adjacent_cells(&self, index: FieldIndex) -> (around: Vec<FieldIndex>)
        ensures
            around@.no_duplicates(),
            forall|q: FieldIndex|
                #![trigger around@.contains(q)]
                around@.contains(q) <==> self.in_bounds(q) && adjacent(index, q),
            forall|i: int, j: int|
                0 <= i < j < around@.len() ==> slot_of(index, #[trigger] around@[i]) < slot_of(
                    index,
                    #[trigger] around@[j],
                ),
    {
        let mut around: Vec<FieldIndex> = Vec::new();
        let mut slot: u8 = 0;
        while slot < 27
            invariant
                slot <= 27,
                around@.no_duplicates(),
                forall|q: FieldIndex|
                    around@.contains(q) <==> self.in_bounds(q) && adjacent(index, q) && slot_of(
                        index,
                        q,
                    ) < slot,
                forall|i: int| 0 <= i < around@.len() ==> slot_of(index, #[trigger] around@[i]) < slot,
                forall|i: int, j: int|
                    0 <= i < j < around@.len() ==> slot_of(index, #[trigger] around@[i]) < slot_of(
                        index,
                        #[trigger] around@[j],
                    ),
            decreases 27 - slot,
        {
            let ghost before = around@;
            let mut found: Option<FieldIndex> = None;
            if slot != 13 {
                if let Some(q) = neighbor(index, slot) {
                    if self.get(q).is_some() {
                        found = Some(q);
                    }
                }
            }
            if let Some(q) = found {
                around.push(q);
                proof {
                    assert(!before.contains(q));
                    assert forall|r: FieldIndex| around@.contains(r) <==> before.contains(r) || r
                        == q by {
                        if before.contains(r) {
                            let i = choose|i: int| 0 <= i < before.len() && before[i] == r;
                            assert(around@[i] == r);
                        }
                        if r == q {
                            assert(around@[before.len() as int] == q);
                        }
                    }
                }
            }
            proof {
                assert forall|r: FieldIndex|
                    around@.contains(r) <==> self.in_bounds(r) && adjacent(index, r) && slot_of(
                        index,
                        r,
                    ) < slot + 1 by {
                    if self.in_bounds(r) && adjacent(index, r) && slot_of(index, r) == slot {
                        assert(near(index, r) && slot_of(index, r) == slot);
                        if slot == 13 {
                            lemma_slot_determines(index, index, r);
                        }
                        if let Some(q) = found {
                            lemma_slot_determines(index, q, r);
                        }
                    }
                    if around@.contains(r) && !before.contains(r) {
                        assert(found == Some(r));
                        lemma_slot_determines(index, index, index);
                    }
                }
            }
            slot += 1;
        }
        around
    }

    /// Replaces the cell at `index`; nothing else changes.
    pub(crate) fn put(&mut self, index: FieldIndex, cell: Cell)
        requires
            old(self).in_bounds(index),
        ensures
            final(self).same_frame(old(self)),
            final(self).populated() == old(self).populated(),
            final(self).cell(index) == cell,
            forall|p: FieldIndex| p != index ==> #[trigger] final(self).cell(p) == old(self).cell(p),
    {
        self.cells.set(index, cell);
    }

    /// Records that the mines are placed.
    pub(crate) fn seal(&mut self)
        ensures
            final(self).same_frame(old(self)),
            final(self).populated(),
            forall|p: FieldIndex| #[trigger] final(self).cell(p) == old(self).cell(p),
    {
        self.populated = true;
    }

    /// Binds the visual object `block` to the cell at `index`. Returns whether
    /// `index` is on the grid; off the grid nothing changes.
    pub fn bind_block(&mut self, index: FieldIndex, block: u64) -> (bound: bool)
        requires
            old(self).wf(),
        ensures
            final(self).wf(),
            final(self).same_frame(old(self)),
            final(self).populated() == old(self).populated(),
            bound == old(self).in_bounds(index),
            forall|p: FieldIndex|
                final(self).in_bounds(p) ==> #[trigger] final(self).cell(p) == (if p == index {
                    Cell { block: Some(block), ..old(self).cell(p) }
                } else {
                    old(self).cell(p)
                }),
    {
        match self.get(index) {
            Some(cell) => {
                self.put(index, Cell { block: Some(block), ..cell });
                proof {
                    old(self).lemma_counts_carry_over(self);
                }
                true
            },
            None => false,
        }
    }

    /// Flips the mark on the covered cell at `index` and returns the new mark.
    /// On an uncovered cell nothing changes.
    pub fn mark(&mut self, index: FieldIndex) -> (marked: bool)
        requires
            old(self).wf(),
            old(self).in_bounds(index),
        ensures
            final(self).wf(),
            final(self).same_frame(old(self)),
            final(self).populated() == old(self).populated(),
            marked == final(self).cell(index).marked,
            forall|p: FieldIndex|
                final(self).in_bounds(p) ==> #[trigger] final(self).cell(p) == (if p == index
                    && !old(self).cell(p).revealed {
                    Cell { marked: !old(self).cell(p).marked, ..old(self).cell(p) }
                } else {
                    old(self).cell(p)
                }),
    {
        match self.get(index) {
            Some(cell) => {
                if cell.revealed {
                    cell.marked
                } else {
                    self.put(index, Cell { marked: !cell.marked, ..cell });
                    proof {
                        old(self).lemma_counts_carry_over(self);
                    }
                    !cell.marked
                }
            },
            None => false,
        }
    }

    /// Whether every cell without a mine is uncovered.
    pub fn fully_revealed(&self) -> (won: bool)
        ensures
            won == self.cleared(),
    {
        let all = self.positions();
        let mut n: usize = 0;
        while n < all.len()
            invariant
                n <= all.len(),
                forall|m: int| 0 <= m < all@.len() ==> self.in_bounds(#[trigger] all@[m]),
                forall|m: int|
                    0 <= m < n ==> (self.is_safe(all@[m]) ==> (#[trigger] self.cell(all@[m])).revealed),
            decreases all.len() - n,
        {
            match self.get(all[n]) {
                Some(cell) => {
                    if !cell.revealed && !matches!(cell.contains, Contains::Mine) {
                        return false;
                    }
                },
                None => {},
            }
            n += 1;
        }
        proof {
            assert forall|p: FieldIndex| self.is_safe(p) implies (#[trigger] self.cell(p)).revealed by {
                assert(all@.contains(p));
                let m = choose|m: int| 0 <= m < all@.len() && all@[m] == p;
                assert(self.is_safe(all@[m]) ==> self.cell(all@[m]).revealed);
            }
        }
        true
    }
}

proof fn lemma_product_exceeds(a: int, b: int, c: int)
    by (nonlinear_arith)
    requires
        1 <= a,
        1 <= b,
        1 <= c,
        a > MAX_CELLS || b > MAX_CELLS || c > MAX_CELLS,
    ensures
        a * b * c > MAX_CELLS,
{
}

proof fn lemma_product_grows(a: int, b: int)
    by (nonlinear_arith)
    requires
        a > MAX_CELLS,
        1 <= b,
    ensures
        a * b > MAX_CELLS,
{
}

} // verus!
