//! Architecture-level bit layouts: the translation-control register (`satp`)
//! encoding and small views of status-register state.
//!
//! The registers themselves are written by the unverified boot edge; this
//! module computes and explains the values that go into them.

use vstd::prelude::*;
use crate::page::PAGE_SIZE;

verus! {

/// Build a `satp` value from a mode selector, an address-space identifier and
/// the physical base address of the root page table.
///
/// Layout: mode in the top four bits, the low 16 bits of the address-space id
/// in the middle, and the root frame number (the address shifted right by the
/// frame order) in the low 44 bits.
pub fn build_satp(mode: u64, asid: u64, addr: u64) -> (r: u64)
    requires
        addr % PAGE_SIZE == 0,
    ensures
        r == (mode << 60) | ((asid & 0xffff) << 44) | ((addr >> 12) & 0xff_ffff_ffff),
{
    (mode << 60) | ((asid & 0xffff) << 44) | ((addr >> 12) & 0xff_ffff_ffff)
}

/// Nanoseconds of uptime represented by a raw counter value of the global
/// free-running timer, which advances once every 100 ns.
pub fn uptime(ticks: u64) -> (r: u64)
    requires
        ticks * 100 <= u64::MAX,
    ensures
        r == ticks * 100,
{
    ticks * 100
}

/// Whether the supervisor-interrupt-enable bit (bit 1) is set in a saved
/// status-register value.
pub fn intr_get(sstatus: u64) -> (r: bool)
    ensures
        r == (sstatus & 2 != 0),
{
    sstatus & 2 != 0
}

} // verus!
