//! Where the mines go: the cells that a first move protects, the random choice
//! among the others, and the counts that follow from the choice.

use crate::cell::{Cell, Contains};
use crate::geometry::lemma_surrounding_subset;
use crate::index::{adjacent, in_box, FieldIndex};
use crate::minefield::Minefield;
use crate::random::{gen_ratio, shuffle, thread_rng};
use crate::sequences::{
    lemma_push_contains, lemma_push_distinct, lemma_take_contains, lemma_take_fresh,
};
use crate::settings::{mine_target, Safety};
use vstd::prelude::*;
use vstd::seq_lib::*;

verus! {

/// Whether the policy keeps `p` free of mines when `first` is the first cell
/// to be opened.
pub open spec fn protected(safety: Safety, first: FieldIndex, p: FieldIndex) -> bool {
    match safety {
        Safety::Random => false,
        Safety::Safe => p == first,
        Safety::Clear => p == first || adjacent(first, p),
    }
}

/// The listed positions that surround `p`.
pub open spec fn listed_around(listed: Seq<FieldIndex>, p: FieldIndex) -> Set<FieldIndex> {
    Set::new(|q: FieldIndex| listed.contains(q) && adjacent(p, q))
}

/// The cell `before` once the mines are placed: a mine where `mined`, else
/// empty with `count` mines around it.
pub open spec fn settled(before: Cell, mined: bool, count: nat) -> Cell {
    if mined {
        before.holding(Contains::Mine)
    } else {
        before.holding(Contains::Empty { adjacent_mines: count as u8 })
    }
}

/// The smaller of two numbers.
pub open spec fn smaller(a: nat, b: nat) -> nat {
    if a <= b {
        a
    } else {
        b
    }
}

/// Listing one more mine adds one to the count of each cell that it
/// surrounds, and no count exceeds 26.
proof fn lemma_listed_around_step(listed: Seq<FieldIndex>, n: int, p: FieldIndex)
    requires
        0 <= n < listed.len(),
        listed.no_duplicates(),
    ensures
        listed_around(listed.take(n), p).len() <= 26,
        listed_around(listed.take(n + 1), p).len() <= 26,
        listed_around(listed.take(n + 1), p).len() == listed_around(listed.take(n), p).len() + (
        if adjacent(p, listed[n]) {
            1nat
        } else {
            0nat
        }),
{
    let a = listed_around(listed.take(n), p);
    let b = listed_around(listed.take(n + 1), p);
    lemma_surrounding_subset(p, a);
    lemma_surrounding_subset(p, b);
    lemma_take_contains(listed, n);
    lemma_take_fresh(listed, n);
    let m = listed[n];
    if adjacent(p, m) {
        assert(b =~= a.insert(m));
        assert(!a.contains(m));
    } else {
        assert(b =~= a);
    }
}

/// Whether `p` occurs in `list`.
pub fn is_listed(list: &Vec<FieldIndex>, p: FieldIndex) -> (found: bool)
    ensures
        found == list@.contains(p),
{
    let mut n: usize = 0;
    while n < list.len()
        invariant
            n <= list.len(),
            forall|m: int| 0 <= m < n ==> list@[m] != p,
        decreases list.len() - n,
    {
        if list[n] == p {
            return true;
        }
        n += 1;
    }
    false
}

impl Minefield {
    /// The cells on which a mine may be placed when `first` is opened first:
    /// those of the grid that the policy does not protect.
    pub open spec fn candidates(&self, first: FieldIndex) -> Set<FieldIndex> {
        Set::new(|p: FieldIndex| self.in_bounds(p) && !protected(self.safety(), first, p))
    }

    /// The number of mines that placement puts on the field: the target,
    /// or every candidate where there are fewer candidates than that.
    pub open spec fn mines_due(&self, first: FieldIndex) -> nat {
        smaller(mine_target(self.total(), self.density()), self.candidates(first).len())
    }

    /// `after` is this field with its mines placed for a first move at `first`:
    /// the counts are right, no protected cell holds a mine, the number of
    /// mines is the one due, and no cell changed in any other respect.
    pub open spec fn placement_of(&self, first: FieldIndex, after: &Minefield) -> bool {
        &&& after.wf()
        &&& after.populated()
        &&& after.same_frame(self)
        &&& forall|p: FieldIndex|
            self.in_bounds(p) ==> (#[trigger] after.cell(p)).revealed == self.cell(p).revealed
                && after.cell(p).marked == self.cell(p).marked && after.cell(p).block == self.cell(
                p,
            ).block
        &&& forall|p: FieldIndex| protected(self.safety(), first, p) ==> !after.is_mine(p)
        &&& after.mine_set().finite()
        &&& after.mine_count() == self.mines_due(first)
    }

    /// The cells that the policy protects when `first` is opened first:
    /// `first` itself under `Safe`, `first` and the cells of the grid around
    /// it under `Clear`, none under `Random`.
    pub fn safe_cells(&self, first: FieldIndex) -> (safe: Vec<FieldIndex>)
        ensures
            safe@.no_duplicates(),
            forall|p: FieldIndex|
                #![trigger safe@.contains(p)]
                safe@.contains(p) <==> protected(self.safety(), first, p) && (p == first
                    || self.in_bounds(p)),
    {
        match self.safety_policy() {
            Safety::Random => Vec::new(),
            Safety::Safe => {
                let mut safe: Vec<FieldIndex> = Vec::new();
                proof {
                    lemma_push_contains(safe@, first);
                }
                safe.push(first);
                safe
            },
            Safety::Clear => {
                let mut safe = self.adjacent_cells(first);
                proof {
                    lemma_push_contains(safe@, first);
                    lemma_push_distinct(safe@, first);
                }
                safe.push(first);
                safe
            },
        }
    }

    /// The cells on which a mine may be placed when `first` is opened first,
    /// each once.
    pub fn candidate_cells(&self, first: FieldIndex) -> (free: Vec<FieldIndex>)
        ensures
            free@.no_duplicates(),
            forall|p: FieldIndex|
                #![trigger free@.contains(p)]
                free@.contains(p) <==> self.candidates(first).contains(p),
            self.candidates(first).finite(),
            free@.len() == self.candidates(first).len(),
    {
        let safe = self.safe_cells(first);
        let all = self.positions();
        let mut free: Vec<FieldIndex> = Vec::new();
        let mut k: usize = 0;
        while k < all.len()
            invariant
                k <= all.len(),
                all@.no_duplicates(),
                free@.no_duplicates(),
                forall|q: FieldIndex|
                    #![trigger free@.contains(q)]
                    free@.contains(q) <==> all@.take(k as int).contains(q) && !safe@.contains(q),
            decreases all.len() - k,
        {
            let p = all[k];
            proof {
                lemma_take_contains(all@, k as int);
                lemma_take_fresh(all@, k as int);
                lemma_push_contains(free@, p);
            }
            if !is_listed(&safe, p) {
                proof {
                    lemma_push_distinct(free@, p);
                }
                free.push(p);
            }
            k += 1;
        }
        proof {
            assert(all@.take(all.len() as int) =~= all@);
            assert forall|p: FieldIndex|
                #![trigger free@.contains(p)]
                free@.contains(p) <==> self.candidates(first).contains(p) by {
                if all@.contains(p) {
                    let m = choose|m: int| 0 <= m < all@.len() && all@[m] == p;
                    assert(self.in_bounds(all@[m]));
                }
                if self.in_bounds(p) {
                    assert(all@.contains(p));
                }
                assert(safe@.contains(p) <==> protected(self.safety(), first, p) && (p == first
                    || self.in_bounds(p)));
            }
            assert(free@.to_set() =~= self.candidates(first));
            seq_to_set_is_finite(free@);
            free@.unique_seq_to_set();
        }
        free
    }

    /// Chooses at random the cells that get a mine when `first` is opened
    /// first. The candidates are walked in a random order. Each takes a mine
    /// with the probability that the density gives, but as soon as the
    /// candidates still to come are no more than the mines still due, each
    /// of them takes one; and once none is due the walk ends.
    pub fn choose_mines(&self, first: FieldIndex) -> (mines: Vec<FieldIndex>)
        requires
            self.wf(),
        ensures
            mines@.no_duplicates(),
            forall|n: int| 0 <= n < mines@.len() ==> self.candidates(first).contains(#[trigger] mines@[n]),
            mines@.len() == self.mines_due(first),
    {
        let mut rng = thread_rng();
        let density = self.mine_density();
        let due = density.mines_for(self.len());
        let numerator = density.numerator();
        let denominator = density.denominator();
        let mut order = self.candidate_cells(first);
        let ghost listed = order@;
        shuffle(&mut order, &mut rng);
        proof {
            to_multiset_len(listed);
            to_multiset_len(order@);
            listed.lemma_multiset_has_no_duplicates();
            order@.lemma_multiset_has_no_duplicates_conv();
            assert forall|p: FieldIndex| order@.contains(p) <==> listed.contains(p) by {
                to_multiset_contains(listed, p);
                to_multiset_contains(order@, p);
            }
        }
        let count = order.len();
        let mut mines: Vec<FieldIndex> = Vec::new();
        let mut needed: usize = due;
        let mut n: usize = 0;
        while n < count && needed > 0
            invariant
                n <= count,
                count == order@.len(),
                order@.no_duplicates(),
                0 < denominator,
                numerator <= denominator,
                mines@.len() + needed == due,
                due <= count ==> needed <= count - n,
                due > count ==> mines@.len() == n,
                mines@.no_duplicates(),
                forall|q: FieldIndex|
                    #![trigger mines@.contains(q)]
                    mines@.contains(q) ==> order@.take(n as int).contains(q),
            decreases count - n,
        {
            let remaining = count - n;
            let p = order[n];
            proof {
                lemma_take_contains(order@, n as int);
                lemma_take_fresh(order@, n as int);
                lemma_push_contains(mines@, p);
            }
            if remaining <= needed || gen_ratio(&mut rng, numerator, denominator) {
                proof {
                    lemma_push_distinct(mines@, p);
                }
                mines.push(p);
                needed -= 1;
            }
            n += 1;
        }
        proof {
            assert forall|m: int| 0 <= m < mines@.len() implies self.candidates(first).contains(
                #[trigger] mines@[m],
            ) by {
                let q = mines@[m];
                assert(mines@.contains(q));
                assert(order@.take(n as int).contains(q));
                let i = choose|i: int|
                    0 <= i < order@.take(n as int).len() && order@.take(n as int)[i] == q;
                assert(order@[i] == q);
                assert(order@.contains(q));
                assert(listed.contains(q));
            }
        }
        mines
    }

    /// Places the mines of the session for a first move at `first`.
    pub fn initialize(&mut self, first: FieldIndex)
        requires
            old(self).wf(),
            !old(self).populated(),
        ensures
            old(self).placement_of(first, final(self)),
    {
        let mines = self.choose_mines(first);
        self.lay_mines(&mines);
        proof {
            assert forall|p: FieldIndex| self.is_mine(p) <==> mines@.contains(p) by {
                if mines@.contains(p) {
                    let m = choose|m: int| 0 <= m < mines@.len() && mines@[m] == p;
                    assert(old(self).candidates(first).contains(mines@[m]));
                }
            }
            assert(self.mine_set() =~= mines@.to_set());
            seq_to_set_is_finite(mines@);
            mines@.unique_seq_to_set();
            assert forall|p: FieldIndex| protected(old(self).safety(), first, p) implies !self.is_mine(
                p,
            ) by {
                if mines@.contains(p) {
                    let m = choose|m: int| 0 <= m < mines@.len() && mines@[m] == p;
                    assert(old(self).candidates(first).contains(mines@[m]));
                }
            }
        }
    }

    /// Places a mine on each listed cell of the grid and sets the count of
    /// every other cell. Listed positions off the grid are ignored, and so is
    /// a second listing of the same cell.
    pub fn lay_mines(&mut self, mines: &Vec<FieldIndex>)
        requires
            old(self).wf(),
            !old(self).populated(),
        ensures
            final(self).wf(),
            final(self).populated(),
            final(self).same_frame(old(self)),
            forall|p: FieldIndex| final(self).is_mine(p) <==> final(self).in_bounds(p) && mines@.contains(p),
            forall|p: FieldIndex|
                final(self).in_bounds(p) ==> (#[trigger] final(self).cell(p)).revealed == old(
                    self,
                ).cell(p).revealed && final(self).cell(p).marked == old(self).cell(p).marked
                    && final(self).cell(p).block == old(self).cell(p).block,
    {
        let mut n: usize = 0;
        while n < mines.len()
            invariant
                n <= mines.len(),
                self.same_frame(old(self)),
                !self.populated(),
                forall|p: FieldIndex|
                    self.in_bounds(p) ==> #[trigger] self.cell(p) == settled(
                        old(self).cell(p),
                        mines@.take(n as int).contains(p),
                        0,
                    ),
            decreases mines.len() - n,
        {
            let p = mines[n];
            proof {
                lemma_take_contains(mines@, n as int);
            }
            match self.get(p) {
                Some(cell) => {
                    self.put(p, Cell { contains: Contains::Mine, ..cell });
                },
                None => {},
            }
            n += 1;
        }
        assert(mines@.take(mines.len() as int) =~= mines@);
        let all = self.positions();
        let mut mined: Vec<FieldIndex> = Vec::new();
        let mut k: usize = 0;
        while k < all.len()
            invariant
                k <= all.len(),
                all@.no_duplicates(),
                forall|m: int| 0 <= m < all@.len() ==> self.in_bounds(#[trigger] all@[m]),
                forall|p: FieldIndex| self.in_bounds(p) ==> #[trigger] all@.contains(p),
                mined@.no_duplicates(),
                forall|q: FieldIndex|
                    #![trigger mined@.contains(q)]
                    mined@.contains(q) <==> all@.take(k as int).contains(q) && mines@.contains(q),
                forall|p: FieldIndex|
                    self.in_bounds(p) ==> #[trigger] self.cell(p) == settled(
                        old(self).cell(p),
                        mines@.contains(p),
                        0,
                    ),
            decreases all.len() - k,
        {
            let p = all[k];
            proof {
                lemma_take_contains(all@, k as int);
                lemma_take_fresh(all@, k as int);
                lemma_push_contains(mined@, p);
            }
            match self.get(p) {
                Some(cell) => {
                    if matches!(cell.contains, Contains::Mine) {
                        proof {
                            lemma_push_distinct(mined@, p);
                        }
                        mined.push(p);
                    }
                },
                None => {},
            }
            k += 1;
        }
        let ghost shape = self.shape();
        proof {
            assert(all@.take(all.len() as int) =~= all@);
            assert forall|p: FieldIndex| listed_around(mined@.take(0), p).len() == 0 by {
                assert(listed_around(mined@.take(0), p) =~= Set::empty());
            }
        }
        let mut n: usize = 0;
        while n < mined.len()
            invariant
                n <= mined.len(),
                self.same_frame(old(self)),
                self.shape() == shape,
                !self.populated(),
                mined@.no_duplicates(),
                forall|q: FieldIndex|
                    #![trigger mined@.contains(q)]
                    mined@.contains(q) <==> in_box(shape, q) && mines@.contains(q),
                forall|p: FieldIndex|
                    self.in_bounds(p) ==> #[trigger] self.cell(p) == settled(
                        old(self).cell(p),
                        mines@.contains(p),
                        listed_around(mined@.take(n as int), p).len(),
                    ),
            decreases mined.len() - n,
        {
            let mine = mined[n];
            let around = self.adjacent_cells(mine);
            let mut k: usize = 0;
            while k < around.len()
                invariant
                    k <= around.len(),
                    n < mined.len(),
                    mine == mined@[n as int],
                    self.same_frame(old(self)),
                    self.shape() == shape,
                    !self.populated(),
                    mined@.no_duplicates(),
                    around@.no_duplicates(),
                    forall|q: FieldIndex|
                        #![trigger around@.contains(q)]
                        around@.contains(q) <==> in_box(shape, q) && adjacent(mine, q),
                    forall|p: FieldIndex|
                        self.in_bounds(p) ==> #[trigger] self.cell(p) == settled(
                            old(self).cell(p),
                            mines@.contains(p),
                            listed_around(mined@.take(n as int), p).len() + (if around@.take(
                                k as int,
                            ).contains(p) {
                                1nat
                            } else {
                                0nat
                            }),
                        ),
                decreases around.len() - k,
            {
                let q = around[k];
                proof {
                    lemma_take_contains(around@, k as int);
                    lemma_take_fresh(around@, k as int);
                    assert(around@.contains(q));
                    lemma_listed_around_step(mined@, n as int, q);
                }
                match self.get(q) {
                    Some(cell) => {
                        match cell.contains {
                            Contains::Empty { adjacent_mines } => {
                                self.put(
                                    q,
                                    Cell {
                                        contains: Contains::Empty {
                                            adjacent_mines: adjacent_mines + 1,
                                        },
                                        ..cell
                                    },
                                );
                            },
                            Contains::Mine => {},
                        }
                    },
                    None => {},
                }
                k += 1;
            }
            proof {
                assert(around@.take(around.len() as int) =~= around@);
                assert forall|p: FieldIndex| self.in_bounds(p) implies #[trigger] self.cell(p)
                    == settled(
                    old(self).cell(p),
                    mines@.contains(p),
                    listed_around(mined@.take(n + 1), p).len(),
                ) by {
                    lemma_listed_around_step(mined@, n as int, p);
                    assert(adjacent(mine, p) == adjacent(p, mine));
                    assert(around@.contains(p) <==> in_box(shape, p) && adjacent(mine, p));
                }
            }
            n += 1;
        }
        self.seal();
        proof {
            assert(mined@.take(mined.len() as int) =~= mined@);
            assert forall|p: FieldIndex| self.is_mine(p) <==> self.in_bounds(p) && mines@.contains(
                p,
            ) by {}
            assert forall|p: FieldIndex| self.in_bounds(p) implies ((#[trigger] self.cell(
                p,
            )).contains matches Contains::Empty { adjacent_mines } ==> adjacent_mines
                == self.neighbor_mines(p).len()) by {
                assert(self.neighbor_mines(p) =~= listed_around(mined@, p));
                lemma_surrounding_subset(p, listed_around(mined@, p));
            }
        }
    }
}

} // verus!
