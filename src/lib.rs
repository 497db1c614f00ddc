//! Window history navigation for the i3 window manager: a record of the
//! windows that were focused, and the moves backward and forward through it.

pub mod signals;
pub mod state;

pub use state::{Direction, Event, State, Step, MAX_WINDOWS};
