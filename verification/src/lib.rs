//! Guarded, nestable overrides of a per-thread variable.
//!
//! A store keeps the history of overrides of one variable as a sequence of
//! slots. Each override appends a slot and yields a [`Guard`] for it; a read
//! sees the most recent slot that is still active; releasing a guard clears its
//! slot and trims the released slots at the end of the sequence. Guards may be
//! released in any order.
//!
//! [`slots`] is the mathematical model, [`store`] the executable store with its
//! guards, [`history`] states what holds over whole runs of overrides and
//! releases, and [`guards`] shows that a store keeps exactly the guards that
//! are alive, in the order in which they were made.

pub mod slots;
pub mod guards;
pub mod history;
pub mod store;

pub use store::{Guard, Inner};
