//! An interpreter for the CHIP-8 virtual machine: one instruction per cycle,
//! 60 Hz timers, a 64 × 32 monochrome display and a sixteen-key keypad.
pub mod cpu;
pub mod laws;
mod platform;

pub use cpu::Cpu;
