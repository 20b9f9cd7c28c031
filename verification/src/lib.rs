//! Splits the total of a receipt in a foreign currency into categories for
//! bookkeeping in the home currency. The library decides the course of a
//! session: which totals to ask for, how a line of input names a category and
//! a subtotal, how categories without a name are numbered, and in which order
//! the table lists the categories. The amounts themselves are kept by the program.
use vstd::prelude::*;

pub mod categories;
pub mod laws;
pub mod session;
pub mod text;

pub use session::{run, Action, Event, Session};

verus! {

} // verus!
