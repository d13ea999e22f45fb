//! Page-table entry and page-number bit layouts.
//!
//! An entry is eight bytes: bits 0–7 hold the flag set {Valid, Read, Write,
//! Execute, User, Global, Accessed, Dirty}, and bits 10 and up hold the
//! physical frame number of the target (a branch table or a leaf frame), the
//! frame-aligned physical address shifted right by two. An entry is a leaf
//! exactly when one of its Read/Write/Execute bits is set, otherwise it is a
//! branch pointing to the next-level table.

use vstd::prelude::*;

verus! {

/// Access-attribute flag values of a page-table entry.
#[derive(Debug, Clone, Copy, PartialEq, Eq, Structural)]
pub enum Attribute {
    Dirty,
    Accessed,
    Global,
    User,
    Execute,
    Write,
    Read,
    Valid,
    ReadWrite,
    ReadExecute,
    UserRead,
    UserReadWrite,
    UserReadExecute,
}

impl Attribute {
    pub open spec fn spec_value(self) -> u64 {
        match self {
            Attribute::Dirty => 0x80,
            Attribute::Accessed => 0x40,
            Attribute::Global => 0x20,
            Attribute::User => 0x10,
            Attribute::Execute => 0x8,
            Attribute::Write => 0x4,
            Attribute::Read => 0x2,
            Attribute::Valid => 0x1,
            Attribute::ReadWrite => 0x6,
            Attribute::ReadExecute => 0xa,
            Attribute::UserRead => 0x12,
            Attribute::UserReadWrite => 0x16,
            Attribute::UserReadExecute => 0x1a,
        }
    }

    #[verifier::when_used_as_spec(spec_value)]
    pub fn value(self) -> (r: u64)
        ensures
            r == self.spec_value(),
    {
        match self {
            Attribute::Dirty => 0x80,
            Attribute::Accessed => 0x40,
            Attribute::Global => 0x20,
            Attribute::User => 0x10,
            Attribute::Execute => 0x8,
            Attribute::Write => 0x4,
            Attribute::Read => 0x2,
            Attribute::Valid => 0x1,
            Attribute::ReadWrite => 0x6,
            Attribute::ReadExecute => 0xa,
            Attribute::UserRead => 0x12,
            Attribute::UserReadWrite => 0x16,
            Attribute::UserReadExecute => 0x1a,
        }
    }
}

/// The raw bits of an entry built from a frame-aligned physical address and a
/// flag set.
pub open spec fn entry_bits(ppn: u64, flags: u64) -> u64 {
    ((ppn & !0xfffu64) >> 2) | flags
}

/// The physical address an entry points at.
pub open spec fn entry_paddr(bits: u64) -> u64 {
    (bits & !0x3ffu64) << 2
}

/// The flag set of an entry.
pub open spec fn entry_flags(bits: u64) -> u64 {
    bits & 0x3ff
}

/// The entry maps or points at something.
pub open spec fn entry_valid(bits: u64) -> bool {
    bits & 1 != 0
}

/// The entry is a leaf: one of Read/Write/Execute is set.
pub open spec fn entry_leaf(bits: u64) -> bool {
    bits & 0xe != 0
}

/// Encoding and decoding an entry round-trips: for a frame-aligned physical
/// address below the 56-bit physical limit and a ten-bit flag set, the built
/// entry hands back exactly the address and the flags.
pub proof fn lemma_entry_encode(ppn: u64, flags: u64)
    by (bit_vector)
    requires
        ppn % 4096 == 0,
        ppn < 0x100_0000_0000_0000,
        flags <= 0x3ff,
    ensures
        entry_paddr(entry_bits(ppn, flags)) == ppn,
        entry_flags(entry_bits(ppn, flags)) == flags,
        entry_valid(entry_bits(ppn, flags)) == (flags & 1 != 0),
        entry_leaf(entry_bits(ppn, flags)) == (flags & 0xe != 0),
        entry_paddr(entry_bits(ppn, flags)) % 4096 == 0,
{
}

/// A frame-aligned 39-bit virtual address is determined by its three
/// nine-bit page-number indices.
pub proof fn lemma_vpn_unique(a: u64, b: u64)
    by (bit_vector)
    requires
        a < 0x80_0000_0000,
        b < 0x80_0000_0000,
        a % 4096 == 0,
        b % 4096 == 0,
        (a >> 30) & 0x1ff == (b >> 30) & 0x1ff,
        (a >> 21) & 0x1ff == (b >> 21) & 0x1ff,
        (a >> 12) & 0x1ff == (b >> 12) & 0x1ff,
    ensures
        a == b,
{
}

/// Each nine-bit page-number index is below the table size.
pub proof fn lemma_vpn_bounds(a: u64)
    by (bit_vector)
    ensures
        (a >> 30) & 0x1ff < 512,
        (a >> 21) & 0x1ff < 512,
        (a >> 12) & 0x1ff < 512,
{
}

/// A page-table entry: eight bytes of packed flags and frame number.
#[derive(Debug, Clone, Copy)]
pub struct Entry(pub u64);

impl Entry {
    /// Build an entry pointing at physical address `ppn` with flag set
    /// `flags`.
    pub fn new(ppn: u64, flags: u64) -> (r: Entry)
        ensures
            r.0 == entry_bits(ppn, flags),
    {
        Entry(((ppn & !0xfffu64) >> 2) | flags)
    }

    pub fn dirty(&self) -> (r: bool)
        ensures
            r == (self.0 & 0x80 != 0),
    {
        self.0 & Attribute::Dirty.value() != 0
    }

    pub fn accessed(&self) -> (r: bool)
        ensures
            r == (self.0 & 0x40 != 0),
    {
        self.0 & Attribute::Accessed.value() != 0
    }

    pub fn global(&self) -> (r: bool)
        ensures
            r == (self.0 & 0x20 != 0),
    {
        self.0 & Attribute::Global.value() != 0
    }

    pub fn user(&self) -> (r: bool)
        ensures
            r == (self.0 & 0x10 != 0),
    {
        self.0 & Attribute::User.value() != 0
    }

    pub fn executable(&self) -> (r: bool)
        ensures
            r == (self.0 & 0x8 != 0),
    {
        self.0 & Attribute::Execute.value() != 0
    }

    pub fn writable(&self) -> (r: bool)
        ensures
            r == (self.0 & 0x4 != 0),
    {
        self.0 & Attribute::Write.value() != 0
    }

    pub fn readable(&self) -> (r: bool)
        ensures
            r == (self.0 & 0x2 != 0),
    {
        self.0 & Attribute::Read.value() != 0
    }

    pub fn valid(&self) -> (r: bool)
        ensures
            r == entry_valid(self.0),
    {
        self.0 & Attribute::Valid.value() != 0
    }

    pub fn is_leaf(&self) -> (r: bool)
        ensures
            r == entry_leaf(self.0),
    {
        self.0 & 0xe != 0
    }

    pub fn is_branch(&self) -> (r: bool)
        ensures
            r == !entry_leaf(self.0),
    {
        !self.is_leaf()
    }

    /// The physical address this entry points at.
    pub fn physical_addr(&self) -> (r: PPN)
        ensures
            r.0 == entry_paddr(self.0),
    {
        PPN((self.0 & !0x3ffu64) << 2)
    }

    /// The packed flag set of this entry.
    pub fn flags(&self) -> (r: u64)
        ensures
            r == entry_flags(self.0),
    {
        self.0 & 0x3ff
    }

    /// The raw bits of this entry.
    pub fn get_entry(&self) -> (r: u64)
        ensures
            r == self.0,
    {
        self.0
    }
}

/// A virtual address, read as its three nine-bit page-number indices.
#[derive(Debug, Clone, Copy)]
pub struct VPN(pub u64);

impl VPN {
    pub fn vpn0(&self) -> (r: u64)
        ensures
            r == (self.0 >> 12) & 0x1ff,
            r < 512,
    {
        proof {
            lemma_vpn_bounds(self.0);
        }
        (self.0 >> 12) & 0x1ff
    }

    pub fn vpn1(&self) -> (r: u64)
        ensures
            r == (self.0 >> 21) & 0x1ff,
            r < 512,
    {
        proof {
            lemma_vpn_bounds(self.0);
        }
        (self.0 >> 21) & 0x1ff
    }

    pub fn vpn2(&self) -> (r: u64)
        ensures
            r == (self.0 >> 30) & 0x1ff,
            r < 512,
    {
        proof {
            lemma_vpn_bounds(self.0);
        }
        (self.0 >> 30) & 0x1ff
    }

    /// The index for walk level `id`: level 2 is the root table.
    pub fn index(&self, id: usize) -> (r: u64)
        requires
            id <= 2,
        ensures
            r == if id == 0 {
                (self.0 >> 12) & 0x1ff
            } else if id == 1 {
                (self.0 >> 21) & 0x1ff
            } else {
                (self.0 >> 30) & 0x1ff
            },
            r < 512,
    {
        if id == 0 {
            self.vpn0()
        } else if id == 1 {
            self.vpn1()
        } else {
            self.vpn2()
        }
    }
}

/// A physical address, read as its page-number indices.
#[derive(Debug, Clone, Copy)]
pub struct PPN(pub u64);

impl PPN {
    pub fn ppn0(&self) -> (r: u64)
        ensures
            r == (self.0 >> 12) & 0x1ff,
            r < 512,
    {
        proof {
            lemma_vpn_bounds(self.0);
        }
        (self.0 >> 12) & 0x1ff
    }

    pub fn ppn1(&self) -> (r: u64)
        ensures
            r == (self.0 >> 21) & 0x1ff,
            r < 512,
    {
        proof {
            lemma_vpn_bounds(self.0);
        }
        (self.0 >> 21) & 0x1ff
    }

    pub fn ppn2(&self) -> (r: u64)
        ensures
            r == (self.0 >> 30) & 0x3ff_ffff,
    {
        (self.0 >> 30) & 0x3ff_ffff
    }

    /// The index for walk level `id`: the top level carries every remaining
    /// bit of the frame number.
    pub fn index(&self, id: usize) -> (r: u64)
        requires
            id <= 2,
        ensures
            r == if id == 0 {
                (self.0 >> 12) & 0x1ff
            } else if id == 1 {
                (self.0 >> 21) & 0x1ff
            } else {
                (self.0 >> 30) & 0x3ff_ffff
            },
    {
        if id == 0 {
            self.ppn0()
        } else if id == 1 {
            self.ppn1()
        } else {
            self.ppn2()
        }
    }
}

} // verus!
