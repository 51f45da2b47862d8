//! A small virtual machine for a historical 8-bit instruction set: 4 KiB of
//! memory, sixteen 8-bit registers, a bounded call stack, two 60 Hz timers, a
//! 64x32 monochrome framebuffer and a sixteen-key input vector.
//!
//! The machine is a single owned aggregate ([`chip8::Chip8`]); the host drives
//! it through `load`, `step` and `step_timers` and owns the framebuffer and
//! the key-state vector.

pub mod chip8;
pub mod instruction;
pub mod laws;
mod rng;
pub mod semantics;
pub mod state;

pub use chip8::Chip8;
pub use instruction::Instruction;
pub use state::{DISPLAY_HEIGHT, DISPLAY_WIDTH, INPUT_COUNT};
