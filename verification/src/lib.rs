//! Engine of 3D Möbius Minesweeper: the Möbius-strip topology of the grid,
//! the board with first-click safety and flood-fill reveals, the deduction
//! solver used by the AI players, the wire-protocol types, localisation
//! strings and the multiplayer room rules.
use vstd::prelude::*;

pub mod account;
pub mod board;
pub mod bots;
pub mod chance;
pub mod client_view;
pub mod decide;
pub mod dispatch;
pub mod elim;
pub mod frontier;
pub mod i18n;
pub mod lobby;
pub mod protocol;
pub mod room;
pub mod session;
pub mod solver;
pub mod tank;
pub mod text;
pub mod topology;
pub mod tui;
pub mod view;

verus! {

} // verus!
