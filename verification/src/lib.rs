//! An interpreter library for the CHIP-8 virtual machine.
//!
//! The library owns the whole architectural state of the machine: 4096 bytes
//! of memory, sixteen 8-bit registers, the program counter, the call stack,
//! the two 60 Hz timers, the monochrome 64x32 framebuffer and the 16-key
//! keypad snapshot.  Every instruction of the 35-entry instruction set is
//! executed by `Emulator::tick`, whose contract pins the machine state after
//! the step down to the decoded instruction's bit-level semantics.
//!
//! All I/O (reading a ROM from disk, rendering the framebuffer, sampling the
//! host keyboard) is left to an external driver; the library only computes.

pub mod emulator;
