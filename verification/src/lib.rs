//! Dividing a slice into `n` non-overlapping portions of nearly equal size,
//! handed out one at a time, read-only or mutable.

pub mod calc;
pub mod divide;
pub mod partition;
pub mod portion;
pub mod portion_mut;

pub use crate::divide::Divide;
pub use crate::portion::Portion;
pub use crate::portion_mut::PortionMut;
