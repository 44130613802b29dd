//! A falling-glyph rain effect for character terminals: a retained-mode
//! diffing renderer, the particles that feed it, and the per-frame driver.
//!
//! Everything here computes; the terminal itself (size queries, cursor moves,
//! colored writes) is left to the caller, who receives the draw operations
//! that a flush decides on.

pub mod cell;
pub mod screen;
pub mod random;
pub mod particle;
pub mod rain;
