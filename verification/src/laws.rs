//! What the operations of the library do, stated of their arguments and results alone.
//!
//! Each law speaks of what a call returns, by the values of the numbers, by the characters of the
//! texts, and by how two calls relate, and of nothing that the operations are written with.

pub mod answers;
pub mod arithmetic;
pub mod cutting;
pub mod exporting;
pub mod filters;
pub mod naming;
pub mod reports;
pub mod running;
pub mod single_pass;
