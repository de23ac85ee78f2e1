//! A user-mode emulator core for 64-bit RISC-V (RV64IMC) executables:
//! a flat guest memory image, an instruction decoder, an interpreter,
//! a translation-block cache with a verified lowering pass, a symbol
//! index, and a disassembler.

pub mod cpu;
pub mod dbg;
pub mod insts;
pub mod syms;
pub mod tbs;

pub use cpu::{CPU, Memory};
pub use insts::Inst;
