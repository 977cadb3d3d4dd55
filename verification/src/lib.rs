//! The rules of a three-dimensional mine-clearing puzzle: a volumetric grid of
//! cells, mine placement that honours a first-move safety policy, adjacency
//! counts, flood-fill reveals, win detection and the session state machine.

pub mod cell;
pub mod display;
pub mod game;
pub mod geometry;
pub mod index;
pub mod laws;
pub mod minefield;
pub mod opening;
pub mod placement;
pub mod random;
pub mod sequences;
pub mod settings;
pub mod storage;

pub use cell::{Cell, Contains};
pub use display::BlockDisplay;
pub use game::{Command, Disclosure, GameResult, GameState, Rejection, Session};
pub use index::FieldIndex;
pub use minefield::Minefield;
pub use opening::{EndReveal, OpenOutcome, Revealed};
pub use settings::{Density, FieldSettings, GameSettings, Safety};
