//! Events that a terminal raises for the rest of the program.

use vstd::prelude::*;

verus! {

#[derive(Debug, Clone)]
pub enum TermEvent {
    /// The terminal's title changed.
    TitleChanged(String),
    /// A bell was rung.
    Bell,
    /// The terminal's process ended.
    Exited,
    /// The terminal asks to be drawn again.
    Redraw,
}

} // verus!
