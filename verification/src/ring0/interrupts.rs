//! Ring 0 interrupt structures: the same scancode queue and descriptor entries.
pub use crate::interrupts::{pop_scancode, IdtEntry, ScancodeBuffer};
