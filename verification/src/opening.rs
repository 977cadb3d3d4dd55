//! Opening a cell: what it uncovers, how a reveal spreads through cells that
//! have no mine around them, and whether the field is cleared afterwards.

use crate::cell::{Cell, Contains};
use crate::geometry::lemma_distinct_positions_bound;
use crate::index::{adjacent, in_box, FieldIndex};
use crate::minefield::Minefield;
use crate::sequences::{lemma_push_contains, lemma_push_distinct, lemma_take_contains};
use crate::storage::MAX_CELLS;
use vstd::prelude::*;

verus! {

/// A cell that a reveal uncovered, with what it holds.
#[derive(Debug, Clone, Copy, PartialEq, Eq)]
pub struct Revealed {
    pub index: FieldIndex,
    pub contents: Contains,
}

/// What opening a cell brought about.
#[derive(Debug, PartialEq, Eq)]
pub struct OpenOutcome {
    /// What the opened cell holds. A mine means the game is lost.
    pub contents: Contains,
    /// The further cells that the reveal spread to; empty unless the opened
    /// cell has no mine around it.
    pub region: Vec<Revealed>,
    /// Whether the move cleared the field: the opened cell holds no mine and
    /// no cell without a mine is left covered.
    pub victory: bool,
}

/// A cell that was still covered when the round ended, shown for the
/// end-of-round display.
#[derive(Debug, Clone, Copy, PartialEq, Eq)]
pub struct EndReveal {
    pub index: FieldIndex,
    pub contents: Contains,
    /// Whether the player had marked the cell.
    pub was_marked: bool,
}

/// The positions of a list of cells shown at the end of the round.
pub open spec fn end_indices_of(shown: Seq<EndReveal>) -> Seq<FieldIndex> {
    shown.map_values(|r: EndReveal| r.index)
}

/// The positions of a list of revealed cells.
pub open spec fn indices_of(shown: Seq<Revealed>) -> Seq<FieldIndex> {
    shown.map_values(|r: Revealed| r.index)
}

impl Minefield {
    /// A reveal that starts at `seed` spreads along `path`: the path starts at
    /// `seed`, each cell on it surrounds the one before, every cell but the
    /// last has no mine around it, and every cell after `seed` is a covered
    /// cell without a mine, other than `seed`.
    pub open spec fn spreads_along(&self, seed: FieldIndex, path: Seq<FieldIndex>) -> bool {
        &&& path.len() >= 2
        &&& path[0] == seed
        &&& forall|i: int|
            0 <= i < path.len() - 1 ==> self.is_blank(#[trigger] path[i]) && adjacent(
                path[i],
                path[i + 1],
            )
        &&& forall|i: int|
            1 <= i < path.len() ==> self.is_hidden(#[trigger] path[i]) && self.is_safe(path[i])
                && path[i] != seed
    }

    /// A reveal that starts at `seed` uncovers `p`.
    pub open spec fn reaches(&self, seed: FieldIndex, p: FieldIndex) -> bool {
        exists|path: Seq<FieldIndex>| #[trigger] self.spreads_along(seed, path) && path.last() == p
    }

    /// Opening `index` uncovers `p` besides `index` itself: `index` has no
    /// mine around it and the reveal spreads from there to `p`.
    pub open spec fn spreads_to(&self, index: FieldIndex, p: FieldIndex) -> bool {
        self.is_blank(index) && self.reaches(index, p)
    }

    /// Every covered mine-free cell around `p`, save `seed`, is among `spots`.
    pub open spec fn spread_done(&self, seed: FieldIndex, spots: Seq<FieldIndex>, p: FieldIndex) -> bool {
        forall|q: FieldIndex|
            #![trigger adjacent(p, q)]
            adjacent(p, q) && self.is_hidden(q) && self.is_safe(q) && q != seed ==> spots.contains(q)
    }

    /// `after` and `outcome` are what opening `index` on this field gives:
    /// the opened cell and the cells that the reveal spreads to are uncovered,
    /// nothing else changes, and the outcome lists exactly those further
    /// cells, each once, and says whether the field is cleared.
    pub open spec fn opens_to(&self, index: FieldIndex, after: &Minefield, outcome: OpenOutcome) -> bool {
        &&& after.wf()
        &&& after.same_frame(self)
        &&& after.populated() == self.populated()
        &&& outcome.contents == self.cell(index).contains
        &&& forall|p: FieldIndex|
            self.in_bounds(p) ==> #[trigger] after.cell(p) == (if p == index || self.spreads_to(
                index,
                p,
            ) {
                self.cell(p).uncovered()
            } else {
                self.cell(p)
            })
        &&& indices_of(outcome.region@).no_duplicates()
        &&& forall|p: FieldIndex|
            #![trigger indices_of(outcome.region@).contains(p)]
            indices_of(outcome.region@).contains(p) <==> self.spreads_to(index, p)
        &&& forall|i: int|
            0 <= i < outcome.region@.len() ==> (#[trigger] outcome.region@[i]).contents
                == self.cell(outcome.region@[i].index).contains
        &&& outcome.region@.len() < self.total()
        &&& outcome.victory == (outcome.contents is Empty && after.cleared())
    }

    /// `after` and `outcome` are what an open command at `index` gives. On a
    /// field whose mines are placed that is `opens_to`. Otherwise the mines
    /// are placed first, by chance: some placement for a first move at
    /// `index` lies between this field and `after`.
    pub open spec fn open_gives(&self, index: FieldIndex, after: &Minefield, outcome: OpenOutcome) -> bool {
        if self.populated() {
            self.opens_to(index, after, outcome)
        } else {
            exists|placed: Minefield|
                #[trigger] self.placement_of(index, &placed) && placed.opens_to(index, after, outcome)
        }
    }

    /// `after` and `shown` are what the end-of-round reveal gives: every cell
    /// is uncovered and nothing else changes, and `shown` lists the cells that
    /// were covered, each once, with what they hold and whether they were
    /// marked.
    pub open spec fn reveal_all_gives(&self, after: &Minefield, shown: Seq<EndReveal>) -> bool {
        &&& after.wf()
        &&& after.same_frame(self)
        &&& after.populated() == self.populated()
        &&& forall|p: FieldIndex|
            self.in_bounds(p) ==> #[trigger] after.cell(p) == self.cell(p).uncovered()
        &&& end_indices_of(shown).no_duplicates()
        &&& forall|p: FieldIndex|
            #![trigger end_indices_of(shown).contains(p)]
            end_indices_of(shown).contains(p) <==> self.is_hidden(p)
        &&& forall|i: int|
            0 <= i < shown.len() ==> (#[trigger] shown[i]).contents == self.cell(
                shown[i].index,
            ).contains && shown[i].was_marked == self.cell(shown[i].index).marked
    }

    /// A spreading reveal goes one cell further: where it uncovers `p`, or
    /// starts there, and `p` has no mine around it, it also uncovers every
    /// covered cell without a mine around `p`.
    pub proof fn lemma_reach_extend(&self, seed: FieldIndex, p: FieldIndex, q: FieldIndex)
        requires
            p == seed || self.reaches(seed, p),
            self.is_blank(p),
            adjacent(p, q),
            self.is_hidden(q),
            self.is_safe(q),
            q != seed,
        ensures
            self.reaches(seed, q),
    {
        if p == seed {
            let path = seq![seed, q];
            assert(self.spreads_along(seed, path));
            assert(path.last() == q);
        } else {
            let to_p = choose|path: Seq<FieldIndex>|
                #[trigger] self.spreads_along(seed, path) && path.last() == p;
            let path = to_p.push(q);
            assert forall|i: int| 0 <= i < path.len() - 1 implies self.is_blank(#[trigger] path[i])
                && adjacent(path[i], path[i + 1]) by {
                if i < to_p.len() - 1 {
                    assert(path[i] == to_p[i]);
                    assert(path[i + 1] == to_p[i + 1]);
                }
            }
            assert forall|i: int| 1 <= i < path.len() implies self.is_hidden(#[trigger] path[i])
                && self.is_safe(path[i]) && path[i] != seed by {
                if i < to_p.len() {
                    assert(path[i] == to_p[i]);
                }
            }
            assert(self.spreads_along(seed, path));
            assert(path.last() == q);
        }
    }

    /// Where the spread is done around `seed` and around every listed cell
    /// that has no mine around it, every cell at the end of a path is listed.
    proof fn lemma_spread_complete(&self, seed: FieldIndex, spots: Seq<FieldIndex>, path: Seq<FieldIndex>)
        requires
            self.spreads_along(seed, path),
            forall|r: FieldIndex|
                (r == seed || spots.contains(r)) && self.is_blank(r) ==> #[trigger] self.spread_done(
                    seed,
                    spots,
                    r,
                ),
        ensures
            spots.contains(path.last()),
        decreases path.len(),
    {
        let n = path.len() as int;
        let from = path[n - 2];
        let to = path[n - 1];
        assert(self.is_blank(from) && adjacent(from, to));
        assert(self.is_hidden(to) && self.is_safe(to) && to != seed);
        if n == 2 {
            assert(self.spread_done(seed, spots, from));
        } else {
            let shorter = path.drop_last();
            assert forall|i: int| 0 <= i < shorter.len() - 1 implies self.is_blank(
                #[trigger] shorter[i],
            ) && adjacent(shorter[i], shorter[i + 1]) by {
                assert(shorter[i] == path[i]);
                assert(shorter[i + 1] == path[i + 1]);
            }
            assert forall|i: int| 1 <= i < shorter.len() implies self.is_hidden(
                #[trigger] shorter[i],
            ) && self.is_safe(shorter[i]) && shorter[i] != seed by {
                assert(shorter[i] == path[i]);
            }
            self.lemma_spread_complete(seed, spots, shorter);
            assert(shorter.last() == from);
            assert(self.spread_done(seed, spots, from));
        }
    }

    /// Spreads a reveal from the uncovered cell `seed`, which has no mine
    /// around it: every covered cell without a mine around an uncovered cell
    /// of that kind is uncovered in turn. Marked cells are uncovered like any
    /// other. Returns the cells that were uncovered, each once.
    pub fn flood_fill(&mut self, seed: FieldIndex) -> (shown: Vec<Revealed>)
        requires
            old(self).wf(),
            old(self).is_blank(seed),
            old(self).cell(seed).revealed,
        ensures
            final(self).wf(),
            final(self).same_frame(old(self)),
            final(self).populated() == old(self).populated(),
            forall|p: FieldIndex|
                final(self).in_bounds(p) ==> #[trigger] final(self).cell(p) == (if old(self).reaches(
                    seed,
                    p,
                ) {
                    old(self).cell(p).uncovered()
                } else {
                    old(self).cell(p)
                }),
            indices_of(shown@).no_duplicates(),
            forall|p: FieldIndex|
                #![trigger indices_of(shown@).contains(p)]
                indices_of(shown@).contains(p) <==> old(self).reaches(seed, p),
            forall|i: int|
                0 <= i < shown@.len() ==> (#[trigger] shown@[i]).contents == old(self).cell(
                    shown@[i].index,
                ).contains,
            shown@.len() < old(self).total(),
    {
        let ghost shape = self.shape();
        let ghost total = self.total();
        let mut shown: Vec<Revealed> = Vec::new();
        let ghost mut spots: Seq<FieldIndex> = Seq::empty();
        let mut stack: Vec<FieldIndex> = Vec::new();
        stack.push(seed);
        proof {
            old(self).lemma_axes_bounded();
            assert(stack@[0] == seed);
        }
        while stack.len() > 0
            invariant
                old(self).wf(),
                old(self).is_blank(seed),
                old(self).cell(seed).revealed,
                old(self).shape() == shape,
                old(self).total() == total,
                shape.0 <= MAX_CELLS && shape.1 <= MAX_CELLS && shape.2 <= MAX_CELLS,
                self.same_frame(old(self)),
                self.populated() == old(self).populated(),
                forall|p: FieldIndex|
                    in_box(shape, p) ==> #[trigger] self.cell(p) == (if spots.contains(p) {
                        old(self).cell(p).uncovered()
                    } else {
                        old(self).cell(p)
                    }),
                spots.no_duplicates(),
                forall|i: int| 0 <= i < spots.len() ==> old(self).reaches(seed, #[trigger] spots[i]),
                forall|i: int| 0 <= i < spots.len() ==> in_box(shape, #[trigger] spots[i]),
                !spots.contains(seed),
                spots.len() + 1 <= total,
                shown@.len() == spots.len(),
                forall|i: int|
                    0 <= i < shown@.len() ==> (#[trigger] shown@[i]).index == spots[i] && shown@[i].contents
                        == old(self).cell(spots[i]).contains,
                forall|j: int|
                    0 <= j < stack@.len() ==> old(self).is_blank(#[trigger] stack@[j]) && (stack@[j]
                        == seed || spots.contains(stack@[j])),
                forall|r: FieldIndex|
                    (r == seed || spots.contains(r)) && old(self).is_blank(r) ==> stack@.contains(r)
                        || #[trigger] old(self).spread_done(seed, spots, r),
            decreases total - spots.len() + stack@.len(),
        {
            let ghost stack_before = stack@;
            let ghost spots_before = spots;
            let from = stack.pop().unwrap();
            let around = self.adjacent_cells(from);
            proof {
                assert(stack_before[stack_before.len() - 1] == from);
                assert(around@.take(0).len() == 0);
                assert forall|r: FieldIndex|
                    (r == seed || spots.contains(r)) && old(self).is_blank(r) && r
                        != from implies stack@.contains(r) || #[trigger] old(self).spread_done(
                    seed,
                    spots,
                    r,
                ) by {
                    if stack_before.contains(r) {
                        let j = choose|j: int| 0 <= j < stack_before.len() && stack_before[j] == r;
                        assert(stack@[j] == r);
                    }
                }
            }
            let mut k: usize = 0;
            while k < around.len()
                invariant
                    k <= around.len(),
                    old(self).wf(),
                    old(self).is_blank(seed),
                    old(self).cell(seed).revealed,
                    old(self).shape() == shape,
                    old(self).total() == total,
                    shape.0 <= MAX_CELLS && shape.1 <= MAX_CELLS && shape.2 <= MAX_CELLS,
                    self.same_frame(old(self)),
                    self.populated() == old(self).populated(),
                    around@.no_duplicates(),
                    forall|q: FieldIndex|
                        #![trigger around@.contains(q)]
                        around@.contains(q) <==> in_box(shape, q) && adjacent(from, q),
                    old(self).is_blank(from),
                    from == seed || spots.contains(from),
                    forall|p: FieldIndex|
                        in_box(shape, p) ==> #[trigger] self.cell(p) == (if spots.contains(p) {
                            old(self).cell(p).uncovered()
                        } else {
                            old(self).cell(p)
                        }),
                    spots.no_duplicates(),
                    forall|i: int|
                        0 <= i < spots.len() ==> old(self).reaches(seed, #[trigger] spots[i]),
                    forall|i: int| 0 <= i < spots.len() ==> in_box(shape, #[trigger] spots[i]),
                    !spots.contains(seed),
                    spots.len() + 1 <= total,
                    shown@.len() == spots.len(),
                    forall|i: int|
                        0 <= i < shown@.len() ==> (#[trigger] shown@[i]).index == spots[i]
                            && shown@[i].contents == old(self).cell(spots[i]).contains,
                    forall|j: int|
                        0 <= j < stack@.len() ==> old(self).is_blank(#[trigger] stack@[j]) && (
                        stack@[j] == seed || spots.contains(stack@[j])),
                    forall|r: FieldIndex|
                        (r == seed || spots.contains(r)) && old(self).is_blank(r) && r
                            != from ==> stack@.contains(r) || #[trigger] old(self).spread_done(
                            seed,
                            spots,
                            r,
                        ),
                    forall|q: FieldIndex|
                        #![trigger around@.take(k as int).contains(q)]
                        around@.take(k as int).contains(q) && old(self).is_hidden(q) && old(
                            self,
                        ).is_safe(q) && q != seed ==> spots.contains(q),
                    stack@.len() + spots_before.len() + 1 <= stack_before.len() + spots.len(),
                    spots_before.len() <= spots.len(),
                decreases around.len() - k,
            {
                let q = around[k];
                proof {
                    lemma_take_contains(around@, k as int);
                    assert(around@.contains(q));
                }
                let ghost spots_then = spots;
                let ghost stack_then = stack@;
                match self.get(q) {
                    Some(cell) => {
                        match cell.contains {
                            Contains::Empty { adjacent_mines } => {
                                if !cell.revealed {
                                    self.put(q, Cell { revealed: true, ..cell });
                                    shown.push(Revealed { index: q, contents: cell.contains });
                                    proof {
                                        assert(!spots_then.contains(q));
                                        assert(old(self).cell(q) == cell);
                                        assert(q != seed);
                                        if from != seed {
                                            let i = choose|i: int|
                                                0 <= i < spots_then.len() && spots_then[i] == from;
                                            assert(old(self).reaches(seed, spots_then[i]));
                                        }
                                        old(self).lemma_reach_extend(seed, from, q);
                                        spots = spots_then.push(q);
                                        lemma_push_contains(spots_then, q);
                                        lemma_push_distinct(spots_then, q);
                                        lemma_distinct_positions_bound(shape, spots_then.push(seed).push(q));
                                    }
                                    if adjacent_mines == 0 {
                                        stack.push(q);
                                        proof {
                                            lemma_push_contains(stack_then, q);
                                        }
                                    }
                                }
                            },
                            Contains::Mine => {},
                        }
                    },
                    None => {},
                }
                proof {
                    assert forall|r: FieldIndex|
                        (r == seed || spots.contains(r)) && old(self).is_blank(r) && r
                            != from implies stack@.contains(r) || #[trigger] old(self).spread_done(
                        seed,
                        spots,
                        r,
                    ) by {
                        if r == seed || spots_then.contains(r) {
                            if stack_then.contains(r) {
                                let j = choose|j: int| 0 <= j < stack_then.len() && stack_then[j] == r;
                                assert(stack@[j] == r);
                            } else {
                                assert(old(self).spread_done(seed, spots_then, r));
                                assert forall|t: FieldIndex|
                                    #![trigger adjacent(r, t)]
                                    adjacent(r, t) && old(self).is_hidden(t) && old(self).is_safe(t)
                                        && t != seed implies spots.contains(t) by {
                                    assert(spots_then.contains(t));
                                }
                            }
                        } else {
                            assert(r == q);
                            assert(stack@[stack_then.len() as int] == q);
                        }
                    }
                }
                k += 1;
            }
            proof {
                assert(around@.take(around.len() as int) =~= around@);
                assert forall|t: FieldIndex|
                    #![trigger adjacent(from, t)]
                    adjacent(from, t) && old(self).is_hidden(t) && old(self).is_safe(t) && t
                        != seed implies spots.contains(t) by {
                    assert(around@.contains(t));
                }
                assert(old(self).spread_done(seed, spots, from));
            }
        }
        proof {
            assert forall|r: FieldIndex|
                (r == seed || spots.contains(r)) && old(self).is_blank(r) implies #[trigger] old(
                self,
            ).spread_done(seed, spots, r) by {
                if stack@.contains(r) {
                    let j = choose|j: int| 0 <= j < stack@.len() && stack@[j] == r;
                }
            }
            assert forall|p: FieldIndex| spots.contains(p) <==> old(self).reaches(seed, p) by {
                if spots.contains(p) {
                    let i = choose|i: int| 0 <= i < spots.len() && spots[i] == p;
                    assert(old(self).reaches(seed, spots[i]));
                }
                if old(self).reaches(seed, p) {
                    let path = choose|path: Seq<FieldIndex>|
                        #[trigger] old(self).spreads_along(seed, path) && path.last() == p;
                    old(self).lemma_spread_complete(seed, spots, path);
                }
            }
            assert(indices_of(shown@) =~= spots);
            old(self).lemma_counts_carry_over(self);
        }
        shown
    }

    /// A reveal spreads the same way whether or not its seed is uncovered.
    proof fn lemma_reach_ignores_seed(&self, other: &Minefield, seed: FieldIndex)
        requires
            other.shape() == self.shape(),
            other.cell(seed).contains == self.cell(seed).contains,
            forall|p: FieldIndex| p != seed ==> #[trigger] other.cell(p) == self.cell(p),
        ensures
            forall|p: FieldIndex| self.reaches(seed, p) <==> other.reaches(seed, p),
    {
        assert forall|path: Seq<FieldIndex>|
            #[trigger] self.spreads_along(seed, path) == other.spreads_along(seed, path) by {
            if self.spreads_along(seed, path) {
                assert forall|i: int| 0 <= i < path.len() - 1 implies other.is_blank(
                    #[trigger] path[i],
                ) && adjacent(path[i], path[i + 1]) by {
                    assert(self.is_blank(path[i]));
                    if path[i] != seed {
                        assert(other.cell(path[i]) == self.cell(path[i]));
                    }
                }
                assert forall|i: int| 1 <= i < path.len() implies other.is_hidden(
                    #[trigger] path[i],
                ) && other.is_safe(path[i]) && path[i] != seed by {
                    assert(self.is_hidden(path[i]) && path[i] != seed);
                    assert(other.cell(path[i]) == self.cell(path[i]));
                }
            }
            if other.spreads_along(seed, path) {
                assert forall|i: int| 0 <= i < path.len() - 1 implies self.is_blank(
                    #[trigger] path[i],
                ) && adjacent(path[i], path[i + 1]) by {
                    assert(other.is_blank(path[i]));
                    if path[i] != seed {
                        assert(other.cell(path[i]) == self.cell(path[i]));
                    }
                }
                assert forall|i: int| 1 <= i < path.len() implies self.is_hidden(
                    #[trigger] path[i],
                ) && self.is_safe(path[i]) && path[i] != seed by {
                    assert(other.is_hidden(path[i]) && path[i] != seed);
                    assert(other.cell(path[i]) == self.cell(path[i]));
                }
            }
        }
        assert forall|p: FieldIndex| self.reaches(seed, p) <==> other.reaches(seed, p) by {
            if self.reaches(seed, p) {
                let path = choose|path: Seq<FieldIndex>|
                    #[trigger] self.spreads_along(seed, path) && path.last() == p;
                assert(other.spreads_along(seed, path));
            }
            if other.reaches(seed, p) {
                let path = choose|path: Seq<FieldIndex>|
                    #[trigger] other.spreads_along(seed, path) && path.last() == p;
                assert(self.spreads_along(seed, path));
            }
        }
    }

    /// Opens the covered, unmarked cell at `index` on the mines as they lie:
    /// uncovers it and, where it has no mine around it, spreads the reveal.
    pub fn uncover(&mut self, index: FieldIndex) -> (outcome: OpenOutcome)
        requires
            old(self).wf(),
            old(self).in_bounds(index),
            !old(self).cell(index).revealed,
            !old(self).cell(index).marked,
        ensures
            old(self).opens_to(index, final(self), outcome),
    {
        let cell = match self.get(index) {
            Some(cell) => cell,
            None => Cell::default(),
        };
        self.put(index, Cell { revealed: true, ..cell });
        let ghost shown_seed = *self;
        proof {
            old(self).lemma_counts_carry_over(self);
            old(self).lemma_reach_ignores_seed(&shown_seed, index);
            old(self).lemma_axes_bounded();
        }
        let blank = match cell.contains {
            Contains::Empty { adjacent_mines } => adjacent_mines == 0,
            Contains::Mine => false,
        };
        let region = if blank {
            self.flood_fill(index)
        } else {
            Vec::new()
        };
        let safe = match cell.contains {
            Contains::Empty { .. } => true,
            Contains::Mine => false,
        };
        let victory = safe && self.fully_revealed();
        proof {
            if !blank {
                assert(indices_of(region@) =~= Seq::<FieldIndex>::empty());
            }
            if blank {
                assert forall|i: int| 0 <= i < region@.len() implies (#[trigger] region@[i]).contents
                    == old(self).cell(region@[i].index).contains by {
                    let p = region@[i].index;
                    assert(indices_of(region@)[i] == p);
                    assert(indices_of(region@).contains(p));
                    assert(shown_seed.reaches(index, p));
                    let path = choose|path: Seq<FieldIndex>|
                        #[trigger] shown_seed.spreads_along(index, path) && path.last() == p;
                    assert(path[path.len() - 1] != index);
                }
                assert forall|p: FieldIndex| self.in_bounds(p) implies #[trigger] self.cell(p) == (
                if p == index || old(self).spreads_to(index, p) {
                    old(self).cell(p).uncovered()
                } else {
                    old(self).cell(p)
                }) by {
                    if shown_seed.reaches(index, p) {
                        let path = choose|path: Seq<FieldIndex>|
                            #[trigger] shown_seed.spreads_along(index, path) && path.last() == p;
                        assert(path[path.len() - 1] != index);
                    }
                }
            }
        }
        OpenOutcome { contents: cell.contains, region, victory }
    }

    /// Opens the covered, unmarked cell at `index`. Where the mines of the
    /// session are not placed yet, they are placed first, at random, for a
    /// first move at `index`.
    pub fn open(&mut self, index: FieldIndex) -> (outcome: OpenOutcome)
        requires
            old(self).wf(),
            old(self).in_bounds(index),
            !old(self).cell(index).revealed,
            !old(self).cell(index).marked,
        ensures
            old(self).open_gives(index, final(self), outcome),
    {
        if !self.is_populated() {
            self.initialize(index);
        }
        let ghost placed = *self;
        let outcome = self.uncover(index);
        proof {
            if !old(self).populated() {
                assert(old(self).placement_of(index, &placed));
            }
        }
        outcome
    }

    /// Uncovers every cell that is still covered, for the display at the end
    /// of the round, and returns those cells, each once.
    pub fn reveal_all(&mut self) -> (shown: Vec<EndReveal>)
        requires
            old(self).wf(),
        ensures
            old(self).reveal_all_gives(final(self), shown@),
    {
        let ghost shape = self.shape();
        let all = self.positions();
        let mut shown: Vec<EndReveal> = Vec::new();
        let ghost mut spots: Seq<FieldIndex> = Seq::empty();
        let mut k: usize = 0;
        while k < all.len()
            invariant
                k <= all.len(),
                old(self).shape() == shape,
                self.same_frame(old(self)),
                self.populated() == old(self).populated(),
                all@.no_duplicates(),
                forall|m: int| 0 <= m < all@.len() ==> in_box(shape, #[trigger] all@[m]),
                forall|p: FieldIndex| in_box(shape, p) ==> #[trigger] all@.contains(p),
                forall|p: FieldIndex|
                    in_box(shape, p) ==> #[trigger] self.cell(p) == (if all@.take(k as int).contains(
                        p,
                    ) {
                        old(self).cell(p).uncovered()
                    } else {
                        old(self).cell(p)
                    }),
                spots.no_duplicates(),
                forall|p: FieldIndex|
                    #![trigger spots.contains(p)]
                    spots.contains(p) <==> all@.take(k as int).contains(p) && old(self).is_hidden(p),
                shown@.len() == spots.len(),
                forall|i: int|
                    0 <= i < shown@.len() ==> (#[trigger] shown@[i]).index == spots[i] && shown@[i].contents
                        == old(self).cell(spots[i]).contains && shown@[i].was_marked == old(
                        self,
                    ).cell(spots[i]).marked,
            decreases all.len() - k,
        {
            let p = all[k];
            proof {
                lemma_take_contains(all@, k as int);
                assert(all@.contains(p));
                if all@.take(k as int).contains(p) {
                    let i = choose|i: int|
                        0 <= i < all@.take(k as int).len() && all@.take(k as int)[i] == p;
                    assert(all@[i] == all@[k as int]);
                }
            }
            match self.get(p) {
                Some(cell) => {
                    if !cell.revealed {
                        self.put(p, Cell { revealed: true, ..cell });
                        shown.push(
                            EndReveal { index: p, contents: cell.contains, was_marked: cell.marked },
                        );
                        proof {
                            lemma_push_contains(spots, p);
                            lemma_push_distinct(spots, p);
                            spots = spots.push(p);
                        }
                    }
                },
                None => {},
            }
            k += 1;
        }
        proof {
            assert(all@.take(all.len() as int) =~= all@);
            assert(end_indices_of(shown@) =~= spots);
            assert forall|p: FieldIndex|
                #![trigger end_indices_of(shown@).contains(p)]
                end_indices_of(shown@).contains(p) <==> old(self).is_hidden(p) by {
                if old(self).is_hidden(p) {
                    assert(all@.contains(p));
                }
            }
            assert forall|p: FieldIndex| self.in_bounds(p) implies #[trigger] self.cell(p) == old(
                self,
            ).cell(p).uncovered() by {
                assert(all@.contains(p));
            }
            old(self).lemma_counts_carry_over(self);
        }
        shown
    }
}

} // verus!
