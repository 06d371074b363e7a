//! Core of a MIPS64 game-console emulator: the instruction interpreter with
//! its branch-delay and interrupt machinery, a big-endian memory bus, and the
//! memory-interrupt (MI) controller that drives the CPU's RCP interrupt line.

pub mod bits;
pub mod arith;
pub mod bus;
pub mod isa;
pub mod cpu;
pub mod cop;
pub mod mips;
pub mod mi;
pub mod laws;
pub mod output;
