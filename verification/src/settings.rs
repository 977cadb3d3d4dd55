use vstd::prelude::*;

verus! {

/// What the placement of mines guarantees about the first cell that is opened.
#[derive(Debug, Clone, Copy, PartialEq, Eq, Structural)]
pub enum Safety {
    /// Neither the first cell nor any cell around it holds a mine.
    Clear,
    /// The first cell holds no mine.
    Safe,
    /// No guarantee: the first cell may hold a mine.
    Random,
}

impl Default for Safety {
    fn default() -> (safety: Safety)
        ensures
            safety == Safety::Clear,
    {
        Safety::Clear
    }
}

/// The fraction of cells that hold a mine, as an exact ratio between 0 and 1.
#[derive(Debug, Clone, Copy, PartialEq, Eq)]
pub struct Density {
    numerator: u32,
    denominator: u32,
}

impl View for Density {
    type V = (nat, nat);

    /// Numerator and denominator of the ratio.
    closed spec fn view(&self) -> (nat, nat) {
        (self.numerator as nat, self.denominator as nat)
    }
}

/// A ratio that denotes a fraction between 0 and 1.
pub open spec fn is_fraction(ratio: (nat, nat)) -> bool {
    0 < ratio.1 && ratio.0 <= ratio.1 && ratio.1 <= u32::MAX
}

impl Density {
    #[verifier::type_invariant]
    spec fn well_formed(self) -> bool {
        is_fraction(self@)
    }

    /// The ratio `numerator / denominator`, or `None` where that is no
    /// fraction between 0 and 1.
    pub fn new(numerator: u32, denominator: u32) -> (density: Option<Density>)
        ensures
            density is Some <==> 0 < denominator && numerator <= denominator,
            density matches Some(d) ==> d@ == (numerator as nat, denominator as nat),
    {
        if denominator == 0 || numerator > denominator {
            None
        } else {
            Some(Density { numerator, denominator })
        }
    }

    /// No mines at all.
    pub fn zero() -> (density: Density)
        ensures
            density@ == (0nat, 1nat),
    {
        Density { numerator: 0, denominator: 1 }
    }

    pub fn numerator(&self) -> (n: u32)
        ensures
            n == self@.0,
            is_fraction(self@),
    {
        proof {
            use_type_invariant(self);
        }
        self.numerator
    }

    pub fn denominator(&self) -> (d: u32)
        ensures
            d == self@.1,
            is_fraction(self@),
    {
        proof {
            use_type_invariant(self);
        }
        self.denominator
    }
}

/// The number of mines that a field of `total` cells aims for: `total` times
/// the density, rounded to the nearest integer, halves upwards.
pub open spec fn mine_target(total: nat, density: (nat, nat)) -> nat {
    ((2 * total * density.0 + density.1) / (2 * density.1)) as nat
}

/// The target never exceeds the number of cells.
pub proof fn lemma_target_bounds(total: int, n: int, d: int)
    by (nonlinear_arith)
    requires
        0 <= total,
        0 <= n <= d,
        0 < d,
    ensures
        0 <= (2 * total * n + d) / (2 * d) <= total,
        0 <= 2 * total * n + d <= 2 * total * d + d,
{
}

impl Density {
    /// The number of mines to place on a field of `total` cells.
    pub fn mines_for(&self, total: usize) -> (mines: usize)
        ensures
            mines == mine_target(total as nat, self@),
            mines <= total,
    {
        let n = self.numerator();
        let d = self.denominator();
        proof {
            lemma_target_bounds(total as int, n as int, d as int);
            assert(2 * total * d + d <= 2 * 0xFFFF_FFFF_FFFF_FFFF * 0xFFFF_FFFF + 0xFFFF_FFFF)
                by (nonlinear_arith)
                requires
                    0 <= total <= 0xFFFF_FFFF_FFFF_FFFF,
                    0 < d <= 0xFFFF_FFFF,
            ;
        }
        let twice: u128 = 2 * (total as u128) * (n as u128) + (d as u128);
        let rounded: u128 = twice / (2 * (d as u128));
        rounded as usize
    }
}

/// The dimensions of the field and how densely it is mined.
#[derive(Debug, Clone, Copy, PartialEq, Eq)]
pub struct FieldSettings {
    /// Number of cells along each axis.
    pub field_size: [usize; 3],
    /// Target fraction of the cells that hold a mine.
    pub mine_density: Density,
}

impl FieldSettings {
    /// A 3 x 3 x 3 field, one cell in five mined.
    pub fn small() -> (s: FieldSettings)
        ensures
            s.field_size@ == seq![3usize, 3usize, 3usize],
            s.mine_density@ == (1nat, 5nat),
    {
        FieldSettings { field_size: [3, 3, 3], mine_density: Density { numerator: 1, denominator: 5 } }
    }

    /// A 5 x 5 x 5 field, one cell in ten mined.
    pub fn medium() -> (s: FieldSettings)
        ensures
            s.field_size@ == seq![5usize, 5usize, 5usize],
            s.mine_density@ == (1nat, 10nat),
    {
        FieldSettings { field_size: [5, 5, 5], mine_density: Density { numerator: 1, denominator: 10 } }
    }

    /// A 10 x 10 x 10 field, one cell in ten mined.
    pub fn large() -> (s: FieldSettings)
        ensures
            s.field_size@ == seq![10usize, 10usize, 10usize],
            s.mine_density@ == (1nat, 10nat),
    {
        FieldSettings { field_size: [10, 10, 10], mine_density: Density { numerator: 1, denominator: 10 } }
    }
}

impl Default for FieldSettings {
    fn default() -> (s: FieldSettings)
        ensures
            s.field_size@ == seq![5usize, 5usize, 5usize],
            s.mine_density@ == (1nat, 10nat),
    {
        FieldSettings::medium()
    }
}

/// Rules of play that do not depend on the field's size.
#[derive(Debug, Clone, Copy, PartialEq, Eq)]
pub struct GameSettings {
    /// What the mine placement guarantees about the first opened cell.
    pub safety: Safety,
}

impl Default for GameSettings {
    fn default() -> (s: GameSettings)
        ensures
            s.safety == Safety::Clear,
    {
        GameSettings { safety: Safety::Clear }
    }
}

} // verus!
