//! A text-mode display writer: the glyph/attribute cell encoding, a
//! bounds-checked model of the memory-mapped framebuffer, and the boot
//! sequence as a state machine whose terminal states are explicit.

pub mod cell;
pub mod framebuffer;
pub mod boot;
