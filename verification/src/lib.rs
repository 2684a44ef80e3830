//! A small 8-bit virtual machine: byte-addressable memory seeded with a glyph
//! font and a loaded program, a packed monochrome frame buffer with XOR sprite
//! blitting and collision reporting, and a fetch-decode-execute interpreter
//! with sixteen registers, a bounded call stack, countdown timers and sixteen
//! key lines.

pub mod display;
pub mod interpretor;
pub mod memory;
