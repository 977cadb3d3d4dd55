//! How a cell is to be shown.

use crate::cell::{Cell, Contains};
use vstd::prelude::*;

verus! {

/// The appearance of a cell.
#[derive(Debug, Clone, Copy, PartialEq, Eq, Structural)]
pub enum BlockDisplay {
    /// Covered and unmarked.
    Hidden,
    /// Covered and marked as a suspected mine.
    Marked,
    /// Uncovered, without a mine; shows the number of mines around it.
    Revealed { adjacent_mines: u8 },
    /// A mine that stayed covered and unmarked until the round ended.
    RevealedMine,
    /// A mine that the player had marked.
    MarkedMine,
    /// A mine that the player opened.
    MissedMine,
}

impl BlockDisplay {
    /// The appearance of a cell while the round is on.
    pub open spec fn of(cell: Cell) -> BlockDisplay {
        if cell.revealed {
            match cell.contains {
                Contains::Mine => BlockDisplay::RevealedMine,
                Contains::Empty { adjacent_mines } => BlockDisplay::Revealed { adjacent_mines },
            }
        } else if cell.marked {
            BlockDisplay::Marked
        } else {
            BlockDisplay::Hidden
        }
    }

    /// The appearance, once the round has ended, of a cell that holds
    /// `contents`, given whether the player had uncovered it and whether the
    /// player had marked it.
    pub open spec fn at_end(contents: Contains, revealed: bool, marked: bool) -> BlockDisplay {
        match contents {
            Contains::Empty { adjacent_mines } => BlockDisplay::Revealed { adjacent_mines },
            Contains::Mine => if revealed {
                BlockDisplay::MissedMine
            } else if marked {
                BlockDisplay::MarkedMine
            } else {
                BlockDisplay::RevealedMine
            },
        }
    }

    /// The appearance of a cell that the player has just uncovered and that
    /// holds `contents`.
    pub fn uncovered(contents: Contains) -> (display: BlockDisplay)
        ensures
            display == BlockDisplay::of(
                Cell::fresh().holding(contents).uncovered(),
            ),
    {
        match contents {
            Contains::Mine => BlockDisplay::RevealedMine,
            Contains::Empty { adjacent_mines } => BlockDisplay::Revealed { adjacent_mines },
        }
    }

    /// The appearance of a covered cell that carries a mark, or none.
    pub fn covered(marked: bool) -> (display: BlockDisplay)
        ensures
            display == BlockDisplay::of(Cell { marked, ..Cell::fresh() }),
    {
        if marked {
            BlockDisplay::Marked
        } else {
            BlockDisplay::Hidden
        }
    }

    /// The appearance of `cell` while the round is on.
    pub fn during_play(cell: &Cell) -> (display: BlockDisplay)
        ensures
            display == BlockDisplay::of(*cell),
    {
        if cell.revealed {
            BlockDisplay::uncovered(cell.contains)
        } else {
            BlockDisplay::covered(cell.marked)
        }
    }

    /// The appearance at the end of the round: an empty cell shows its count,
    /// an opened mine shows as missed, a marked mine as marked, any other mine
    /// as revealed.
    pub fn end_of_round(contents: Contains, revealed: bool, marked: bool) -> (display: BlockDisplay)
        ensures
            display == BlockDisplay::at_end(contents, revealed, marked),
    {
        match contents {
            Contains::Empty { adjacent_mines } => BlockDisplay::Revealed { adjacent_mines },
            Contains::Mine => {
                if revealed {
                    BlockDisplay::MissedMine
                } else if marked {
                    BlockDisplay::MarkedMine
                } else {
                    BlockDisplay::RevealedMine
                }
            },
        }
    }
}

} // verus!
