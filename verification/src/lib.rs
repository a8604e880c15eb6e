//! A terminal diary's core: a character-indexed text editor buffer, a
//! month-grid calendar with date navigation, and a date-keyed entry store.
use vstd::prelude::*;

pub mod calendar;
pub mod date;
pub mod editor;
pub mod storage;
pub mod text;

verus! {

/// Which panel currently receives key events.
#[derive(Debug, PartialEq, Eq, Structural, Clone, Copy)]
pub enum Mode {
    Calendar,
    Editor,
}

} // verus!
