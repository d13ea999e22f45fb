//! Core of a small multi-core RISC-V kernel, modelled over plain values so
//! that every piece of logic can be verified: the physical page-frame
//! allocator, the three-level page table and its address-translation walk,
//! the trap-cause dispatcher, the two interrupt-delivery peripherals
//! (external controller and per-core timer), and the privilege bootstrap
//! that brings additional cores online.
//!
//! Hardware register access (CSR reads and writes, memory-mapped I/O) is the
//! unverified edge and lives outside this crate; the structures here hold the
//! register and memory state as owned data, as the boot core owns it during
//! initialisation.

pub mod arch;
pub mod clint;
pub mod hart;
pub mod interrupt;
pub mod mem;
pub mod page;
pub mod pagetable;
pub mod plic;
pub mod pte;
pub mod trap;
pub mod xorshift;
