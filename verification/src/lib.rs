//! A verified virtual machine for a 16-bit instructional computer
//! architecture: 8 general-purpose registers, a 65536-word address space
//! with two memory-mapped device registers, and a 16-instruction set with
//! a small table of console-service trap vectors.

pub mod cpu;
pub mod memory;
pub mod opcodes;

pub use cpu::Cpu;
