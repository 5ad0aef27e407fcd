//! A CHIP-8 virtual machine with a verified fetch-decode-execute core,
//! a bounds-checked frame buffer, an EPX-style 2x smoothing filter, and
//! a frequency-based pacing clock.

pub mod clock;
pub mod cpu;
pub mod epx;
pub mod epx_gpu;
pub mod fault;
pub mod font;
pub mod frame_buffer;
pub mod gpu;
pub mod keyboard;
pub mod laws;
pub mod opcode;
