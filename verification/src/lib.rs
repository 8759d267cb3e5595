//! A small 8-bit virtual machine: a fixed 35-entry instruction set over a
//! flat 4096-byte memory, sixteen 8-bit registers, an index register, a
//! bounded call stack, two countdown timers and a 64x32 monochrome
//! framebuffer with XOR sprite compositing and collision detection.

pub mod cpu;
pub mod pixel;
