//! The session: the state machine that takes the player's commands, has the
//! field carry them out and says what is to be shown.

use crate::cell::{Cell, Contains};
use crate::index::FieldIndex;
use crate::minefield::Minefield;
use crate::opening::{EndReveal, OpenOutcome, Revealed};
use crate::settings::{FieldSettings, GameSettings};
use crate::storage::MAX_CELLS;
use vstd::prelude::*;

verus! {

/// Where a session stands.
#[derive(Debug, Clone, Copy, PartialEq, Eq, Hash, Structural)]
pub enum GameState {
    /// No cell has been opened yet, and the mines are not placed.
    Start,
    /// The first cell has been opened; the position of every mine is fixed.
    Playing,
    /// The game is over: a mine was opened, or every other cell was.
    Ended,
}

impl Default for GameState {
    fn default() -> (state: GameState)
        ensures
            state == GameState::Ended,
    {
        GameState::Ended
    }
}

impl GameState {
    /// Whether moves are allowed: before the first move and during play.
    pub fn playable(&self) -> (yes: bool)
        ensures
            yes == (*self != GameState::Ended),
    {
        match self {
            GameState::Start => true,
            GameState::Playing => true,
            GameState::Ended => false,
        }
    }
}

/// How a session ended, if it has.
#[derive(Debug, Clone, Copy, PartialEq, Eq, Structural)]
pub enum GameResult {
    Unfinished,
    /// Every cell without a mine is uncovered.
    Victory,
    /// A mine was opened.
    Failure,
}

impl Default for GameResult {
    fn default() -> (result: GameResult)
        ensures
            result == GameResult::Unfinished,
    {
        GameResult::Unfinished
    }
}

/// What the player asks for.
#[derive(Debug, Clone, Copy, PartialEq, Eq)]
pub enum Command {
    /// Clear the cell at a position.
    OpenCell(FieldIndex),
    /// Mark the cell at a position as a suspected mine, or take the mark off.
    ToggleMark(FieldIndex),
}

/// What a command makes visible.
#[derive(Debug, Clone, Copy, PartialEq, Eq)]
pub enum Disclosure {
    /// A cell was uncovered and holds this.
    CellRevealed(FieldIndex, Contains),
    /// A cell now carries a mark, or no longer does.
    CellMarked(FieldIndex, bool),
    /// The session is over.
    SessionEnded(GameResult),
    /// A cell that was covered when the session ended holds this, and the
    /// player had or had not marked it.
    EndOfRoundReveal(FieldIndex, Contains, bool),
}

/// Why a command was not carried out.
#[derive(Debug, Clone, Copy, PartialEq, Eq, Structural)]
pub enum Rejection {
    /// The session has ended.
    SessionOver,
    /// The position is not on the grid.
    OutOfBounds,
    /// The cell is uncovered already.
    AlreadyRevealed,
    /// The cell is marked; the mark has to be taken off first.
    Marked,
}

/// How the session ends with this move, if it does: in failure where a mine
/// was opened, in victory where the move cleared the field.
pub open spec fn result_after(outcome: OpenOutcome) -> GameResult {
    if outcome.contents is Mine {
        GameResult::Failure
    } else if outcome.victory {
        GameResult::Victory
    } else {
        GameResult::Unfinished
    }
}

/// Where the session stands after this move.
pub open spec fn state_after(outcome: OpenOutcome) -> GameState {
    if result_after(outcome) == GameResult::Unfinished {
        GameState::Playing
    } else {
        GameState::Ended
    }
}

/// What an open command at `index` discloses: the opened cell, then every
/// cell that the reveal spread to, then the end of the session if the move
/// ended it.
pub open spec fn announcement(index: FieldIndex, outcome: OpenOutcome) -> Seq<Disclosure> {
    let cells = seq![Disclosure::CellRevealed(index, outcome.contents)] + outcome.region@.map_values(
        |r: Revealed| Disclosure::CellRevealed(r.index, r.contents),
    );
    if result_after(outcome) == GameResult::Unfinished {
        cells
    } else {
        cells.push(Disclosure::SessionEnded(result_after(outcome)))
    }
}

/// What the end-of-round reveal discloses: each cell that was covered.
pub open spec fn final_showing(shown: Seq<EndReveal>) -> Seq<Disclosure> {
    shown.map_values(|r: EndReveal| Disclosure::EndOfRoundReveal(r.index, r.contents, r.was_marked))
}

/// One game, from the first move to its end.
pub struct Session {
    field: Minefield,
    state: GameState,
    result: GameResult,
}

impl Session {
    /// The field of this session.
    pub closed spec fn field(&self) -> Minefield {
        self.field
    }

    /// Where the session stands.
    pub closed spec fn state(&self) -> GameState {
        self.state
    }

    /// How the session ended, if it has.
    pub closed spec fn result(&self) -> GameResult {
        self.result
    }

    /// What holds of every session: its field is well formed, it has a
    /// result exactly when it has ended, and once the first move is made the
    /// mines are placed.
    pub open spec fn wf(&self) -> bool {
        &&& self.field().wf()
        &&& (self.state() == GameState::Ended) == (self.result() != GameResult::Unfinished)
        &&& self.state() != GameState::Start ==> self.field().populated()
    }

    /// Why an open command at `index` is refused, if it is: the session is
    /// over, the position is off the grid, or the cell is uncovered or marked.
    pub open spec fn open_refusal(&self, index: FieldIndex) -> Option<Rejection> {
        if self.state() == GameState::Ended {
            Some(Rejection::SessionOver)
        } else if !self.field().in_bounds(index) {
            Some(Rejection::OutOfBounds)
        } else if self.field().cell(index).revealed {
            Some(Rejection::AlreadyRevealed)
        } else if self.field().cell(index).marked {
            Some(Rejection::Marked)
        } else {
            None
        }
    }

    /// Why a mark command at `index` is refused, if it is: the session is
    /// over, the position is off the grid, or the cell is uncovered.
    pub open spec fn mark_refusal(&self, index: FieldIndex) -> Option<Rejection> {
        if self.state() == GameState::Ended {
            Some(Rejection::SessionOver)
        } else if !self.field().in_bounds(index) {
            Some(Rejection::OutOfBounds)
        } else if self.field().cell(index).revealed {
            Some(Rejection::AlreadyRevealed)
        } else {
            None
        }
    }

    /// A session on a fresh field of the given settings, or `None` where an
    /// axis has no cell or the grid would have more than `MAX_CELLS` cells.
    pub fn new(field_settings: &FieldSettings, game_settings: &GameSettings) -> (session: Option<Session>)
        ensures
            session is Some <==> 0 < field_settings.field_size[0] && 0 < field_settings.field_size[1]
                && 0 < field_settings.field_size[2] && field_settings.field_size[0]
                * field_settings.field_size[1] * field_settings.field_size[2] <= MAX_CELLS,
            session matches Some(s) ==> {
                &&& s.wf()
                &&& s.state() == GameState::Start
                &&& s.result() == GameResult::Unfinished
                &&& !s.field().populated()
                &&& s.field().shape() == (
                    field_settings.field_size[0] as nat,
                    field_settings.field_size[1] as nat,
                    field_settings.field_size[2] as nat,
                )
                &&& s.field().density() == field_settings.mine_density@
                &&& s.field().safety() == game_settings.safety
                &&& forall|p: FieldIndex|
                    s.field().in_bounds(p) ==> #[trigger] s.field().cell(p) == Cell::fresh()
            },
    {
        match Minefield::new(
            field_settings.field_size,
            field_settings.mine_density,
            game_settings.safety,
        ) {
            Some(field) => Some(
                Session { field, state: GameState::Start, result: GameResult::Unfinished },
            ),
            None => None,
        }
    }

    /// A session that starts on the given field, whose mines may be placed
    /// already.
    pub fn with_field(field: Minefield) -> (session: Session)
        requires
            field.wf(),
        ensures
            session.wf(),
            session.field() == field,
            session.state() == GameState::Start,
            session.result() == GameResult::Unfinished,
    {
        Session { field, state: GameState::Start, result: GameResult::Unfinished }
    }

    /// Where the session stands.
    pub fn game_state(&self) -> (state: GameState)
        ensures
            state == self.state(),
    {
        self.state
    }

    /// How the session ended, if it has.
    pub fn game_result(&self) -> (result: GameResult)
        ensures
            result == self.result(),
    {
        self.result
    }

    /// The field, to look at.
    pub fn minefield(&self) -> (field: &Minefield)
        ensures
            *field == self.field(),
    {
        &self.field
    }

    /// Binds the visual object `block` to the cell at `index`; see
    /// `Minefield::bind_block`.
    pub fn bind_block(&mut self, index: FieldIndex, block: u64) -> (bound: bool)
        requires
            old(self).wf(),
        ensures
            final(self).wf(),
            final(self).state() == old(self).state(),
            final(self).result() == old(self).result(),
            bound == old(self).field().in_bounds(index),
            final(self).field().same_frame(&old(self).field()),
            final(self).field().populated() == old(self).field().populated(),
            forall|p: FieldIndex|
                old(self).field().in_bounds(p) ==> #[trigger] final(self).field().cell(p) == (if p
                    == index {
                    Cell { block: Some(block), ..old(self).field().cell(p) }
                } else {
                    old(self).field().cell(p)
                }),
    {
        self.field.bind_block(index, block)
    }

    /// Carries out an open command. A refused command changes nothing.
    /// Otherwise the field opens the cell, placing the mines first if this is
    /// the first move; the session goes on to `Playing`, or ends in failure
    /// where the cell holds a mine and in victory where the move cleared the
    /// field.
    pub fn open_cell(&mut self, index: FieldIndex) -> (result: Result<Vec<Disclosure>, Rejection>)
        requires
            old(self).wf(),
        ensures
            final(self).wf(),
            result matches Err(e) ==> old(self).open_refusal(index) == Some(e) && *final(self)
                == *old(self),
            result matches Ok(list) ==> old(self).open_refusal(index) is None && exists|
                outcome: OpenOutcome,
            |
                {
                    &&& #[trigger] old(self).field().open_gives(
                        index,
                        &final(self).field(),
                        outcome,
                    )
                    &&& list@ == announcement(index, outcome)
                    &&& final(self).state() == state_after(outcome)
                    &&& final(self).result() == result_after(outcome)
                },
    {
        if !self.state.playable() {
            return Err(Rejection::SessionOver);
        }
        let cell = match self.field.get(index) {
            Some(cell) => cell,
            None => {
                return Err(Rejection::OutOfBounds);
            },
        };
        if cell.revealed {
            return Err(Rejection::AlreadyRevealed);
        }
        if cell.marked {
            return Err(Rejection::Marked);
        }
        let outcome = self.field.open(index);
        let mut list: Vec<Disclosure> = Vec::new();
        list.push(Disclosure::CellRevealed(index, outcome.contents));
        let ghost cells = seq![Disclosure::CellRevealed(index, outcome.contents)]
            + outcome.region@.map_values(|r: Revealed| Disclosure::CellRevealed(r.index, r.contents));
        let mut n: usize = 0;
        while n < outcome.region.len()
            invariant
                n <= outcome.region.len(),
                cells == seq![Disclosure::CellRevealed(index, outcome.contents)]
                    + outcome.region@.map_values(
                    |r: Revealed| Disclosure::CellRevealed(r.index, r.contents),
                ),
                list@ == cells.take(n + 1),
            decreases outcome.region.len() - n,
        {
            let shown = &outcome.region[n];
            list.push(Disclosure::CellRevealed(shown.index, shown.contents));
            proof {
                assert(cells[n + 1] == Disclosure::CellRevealed(shown.index, shown.contents));
                assert(cells.take(n + 2) =~= cells.take(n + 1).push(cells[n + 1]));
            }
            n += 1;
        }
        assert(cells.take(n + 1) =~= cells);
        let ended = match outcome.contents {
            Contains::Mine => GameResult::Failure,
            Contains::Empty { .. } => if outcome.victory {
                GameResult::Victory
            } else {
                GameResult::Unfinished
            },
        };
        match ended {
            GameResult::Unfinished => {
                self.state = GameState::Playing;
            },
            _ => {
                self.state = GameState::Ended;
                self.result = ended;
                list.push(Disclosure::SessionEnded(ended));
            },
        }
        proof {
            assert(old(self).field().open_gives(index, &self.field(), outcome));
        }
        Ok(list)
    }

    /// Carries out a mark command. A refused command changes nothing.
    /// Otherwise the mark of the cell is flipped and nothing else changes.
    pub fn toggle_mark(&mut self, index: FieldIndex) -> (result: Result<Disclosure, Rejection>)
        requires
            old(self).wf(),
        ensures
            final(self).wf(),
            result matches Err(e) ==> old(self).mark_refusal(index) == Some(e) && *final(self)
                == *old(self),
            result matches Ok(shown) ==> {
                &&& old(self).mark_refusal(index) is None
                &&& shown == Disclosure::CellMarked(index, !old(self).field().cell(index).marked)
                &&& final(self).state() == old(self).state()
                &&& final(self).result() == old(self).result()
                &&& final(self).field().same_frame(&old(self).field())
                &&& final(self).field().populated() == old(self).field().populated()
                &&& forall|p: FieldIndex|
                    old(self).field().in_bounds(p) ==> #[trigger] final(self).field().cell(p) == (
                    if p == index {
                        Cell {
                            marked: !old(self).field().cell(p).marked,
                            ..old(self).field().cell(p)
                        }
                    } else {
                        old(self).field().cell(p)
                    })
            },
    {
        if !self.state.playable() {
            return Err(Rejection::SessionOver);
        }
        let cell = match self.field.get(index) {
            Some(cell) => cell,
            None => {
                return Err(Rejection::OutOfBounds);
            },
        };
        if cell.revealed {
            return Err(Rejection::AlreadyRevealed);
        }
        let marked = self.field.mark(index);
        Ok(Disclosure::CellMarked(index, marked))
    }

    /// Carries out a command; see `open_cell` and `toggle_mark`.
    pub fn apply(&mut self, command: Command) -> (result: Result<Vec<Disclosure>, Rejection>)
        requires
            old(self).wf(),
        ensures
            final(self).wf(),
            result is Err ==> *final(self) == *old(self),
            command matches Command::OpenCell(index) ==> {
                &&& result matches Err(e) ==> old(self).open_refusal(index) == Some(e)
                &&& result matches Ok(list) ==> old(self).open_refusal(index) is None && exists|
                    outcome: OpenOutcome,
                |
                    {
                        &&& #[trigger] old(self).field().open_gives(
                            index,
                            &final(self).field(),
                            outcome,
                        )
                        &&& list@ == announcement(index, outcome)
                        &&& final(self).state() == state_after(outcome)
                        &&& final(self).result() == result_after(outcome)
                    }
            },
            command matches Command::ToggleMark(index) ==> {
                &&& result matches Err(e) ==> old(self).mark_refusal(index) == Some(e)
                &&& result matches Ok(list) ==> {
                    &&& old(self).mark_refusal(index) is None
                    &&& list@ == seq![
                        Disclosure::CellMarked(index, !old(self).field().cell(index).marked),
                    ]
                    &&& final(self).state() == old(self).state()
                    &&& final(self).result() == old(self).result()
                    &&& final(self).field().same_frame(&old(self).field())
                    &&& final(self).field().populated() == old(self).field().populated()
                    &&& forall|p: FieldIndex|
                        old(self).field().in_bounds(p) ==> #[trigger] final(self).field().cell(p)
                            == (if p == index {
                            Cell {
                                marked: !old(self).field().cell(p).marked,
                                ..old(self).field().cell(p)
                            }
                        } else {
                            old(self).field().cell(p)
                        })
                }
            },
    {
        match command {
            Command::OpenCell(index) => self.open_cell(index),
            Command::ToggleMark(index) => {
                match self.toggle_mark(index) {
                    Ok(shown) => {
                        let mut list: Vec<Disclosure> = Vec::new();
                        list.push(shown);
                        assert(list@ =~= seq![shown]);
                        Ok(list)
                    },
                    Err(e) => Err(e),
                }
            },
        }
    }

    /// Once the session has ended, uncovers every cell that is still covered
    /// and discloses each of them; a second call finds none left. While the
    /// session has not ended, nothing happens.
    pub fn end_of_round(&mut self) -> (list: Vec<Disclosure>)
        requires
            old(self).wf(),
        ensures
            final(self).wf(),
            final(self).state() == old(self).state(),
            final(self).result() == old(self).result(),
            old(self).state() != GameState::Ended ==> *final(self) == *old(self) && list@.len() == 0,
            old(self).state() == GameState::Ended ==> exists|shown: Seq<EndReveal>|
                #[trigger] old(self).field().reveal_all_gives(&final(self).field(), shown) && list@
                    == final_showing(shown),
    {
        if self.state.playable() {
            return Vec::new();
        }
        let shown = self.field.reveal_all();
        let mut list: Vec<Disclosure> = Vec::new();
        let mut n: usize = 0;
        while n < shown.len()
            invariant
                n <= shown.len(),
                list@ == final_showing(shown@).take(n as int),
            decreases shown.len() - n,
        {
            let cell = &shown[n];
            list.push(Disclosure::EndOfRoundReveal(cell.index, cell.contents, cell.was_marked));
            proof {
                assert(final_showing(shown@).take(n + 1) =~= final_showing(shown@).take(n as int).push(
                    final_showing(shown@)[n as int],
                ));
            }
            n += 1;
        }
        proof {
            assert(final_showing(shown@).take(n as int) =~= final_showing(shown@));
            assert(old(self).field().reveal_all_gives(&self.field(), shown@));
        }
        list
    }
}

} // verus!
