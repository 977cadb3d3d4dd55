use vstd::prelude::*;

verus! {

/// What a cell holds once the mines of a session are placed.
#[derive(Debug, Clone, Copy, PartialEq, Eq, Structural)]
pub enum Contains {
    Mine,
    /// No mine; `adjacent_mines` counts the mines among the surrounding cells.
    Empty { adjacent_mines: u8 },
}

impl Default for Contains {
    fn default() -> (contains: Contains)
        ensures
            contains == (Contains::Empty { adjacent_mines: 0 }),
    {
        Contains::Empty { adjacent_mines: 0 }
    }
}

/// One grid position.
#[derive(Debug, Clone, Copy, PartialEq, Eq)]
pub struct Cell {
    pub contains: Contains,
    /// Whether the player has uncovered the cell.
    pub revealed: bool,
    /// Whether the player has flagged the cell as a suspected mine.
    pub marked: bool,
    /// Identifier of the visual object that shows this cell. The field stores
    /// it and hands it back; it never interprets it.
    pub block: Option<u64>,
}

impl Cell {
    /// The cell of a field on which no mine has been placed, nothing revealed or
    /// marked, and no visual object bound.
    pub open spec fn fresh() -> Cell {
        Cell {
            contains: Contains::Empty { adjacent_mines: 0 },
            revealed: false,
            marked: false,
            block: None,
        }
    }

    /// This cell, uncovered.
    pub open spec fn uncovered(self) -> Cell {
        Cell { revealed: true, ..self }
    }

    /// This cell with other contents.
    pub open spec fn holding(self, contains: Contains) -> Cell {
        Cell { contains, ..self }
    }
}

impl Default for Cell {
    fn default() -> (cell: Cell)
        ensures
            cell == Cell::fresh(),
    {
        Cell {
            contains: Contains::Empty { adjacent_mines: 0 },
            revealed: false,
            marked: false,
            block: None,
        }
    }
}

} // verus!
