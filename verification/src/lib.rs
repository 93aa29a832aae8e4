//! A verified CHIP-8 interpreter core.
//!
//! The machine state (registers, memory, display, stack, timers, keypad) and
//! the complete instruction set are modelled by specification functions in
//! [`model`]; the executable engine in [`machine`] is proved to follow that
//! model step by step. [`laws`] states and proves the interpreter's global
//! properties.

pub mod model;
pub mod machine;
pub mod laws;

pub use machine::Emu;
pub use machine::SCREEN_WIDTH;
pub use machine::SCREEN_HEIGHT;
pub use model::Chip8Error;
