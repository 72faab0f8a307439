//! The root page table: RAM and the device region mapped one to one with
//! 1 GiB pages, and the value that turns the table on.
use vstd::prelude::*;

verus! {

pub const PTE_V: u64 = 1;
pub const PTE_R: u64 = 2;
pub const PTE_W: u64 = 4;
pub const PTE_X: u64 = 8;
pub const PTE_U: u64 = 16;
pub const PTE_A: u64 = 64;
pub const PTE_D: u64 = 128;

/// Where RAM starts.
pub const RAM_START: u64 = 0x8000_0000;

/// A page table of 512 entries.
pub struct PageTable {
    pub entries: [u64; 512],
}

/// A leaf entry for the page at physical address `pa` with `flags`.
pub open spec fn leaf_pte(pa: u64, flags: u64) -> u64 {
    ((pa >> 12u64) << 10u64) | flags
}

/// The flags of the RAM mapping: valid, readable, writable, executable,
/// accessed and dirty.
pub open spec fn ram_flags() -> u64 {
    PTE_V | PTE_R | PTE_W | PTE_X | PTE_A | PTE_D
}

/// The flags of the device mapping: as RAM's but not executable.
pub open spec fn io_flags() -> u64 {
    PTE_V | PTE_R | PTE_W | PTE_A | PTE_D
}

/// The value for the address-translation register that selects Sv39 with
/// the root table at `root`.
pub open spec fn satp_spec(root: u64) -> u64 {
    (8u64 << 60u64) | (root >> 12u64)
}

impl PageTable {
    /// A table with every entry invalid.
    pub fn new() -> (t: Self)
        ensures
            forall|i: int| 0 <= i < 512 ==> t.entries@[i] == 0,
    {
        PageTable { entries: [0u64; 512] }
    }

    /// Map RAM (the second gigabyte and up, entry 2) and the device region
    /// (the first gigabyte, entry 0) one to one; other entries are kept.
    pub fn identity_map(&mut self)
        ensures
            final(self).entries@ == old(self).entries@.update(2, leaf_pte(RAM_START, ram_flags())).update(
                0,
                leaf_pte(0, io_flags()),
            ),
    {
        let ram: u64 = PTE_V | PTE_R | PTE_W | PTE_X | PTE_A | PTE_D;
        let pte = ((RAM_START >> 12u64) << 10u64) | ram;
        self.entries[2] = pte;
        let io: u64 = PTE_V | PTE_R | PTE_W | PTE_A | PTE_D;
        let pte_io = ((0u64 >> 12u64) << 10u64) | io;
        self.entries[0] = pte_io;
        assert(self.entries@ =~= old(self).entries@.update(2, leaf_pte(RAM_START, ram_flags())).update(
            0,
            leaf_pte(0, io_flags()),
        ));
    }
}

/// The value for the address-translation register for a root table at
/// address `root`.
pub fn satp_value(root: u64) -> (r: u64)
    ensures
        r == satp_spec(root),
{
    (8u64 << 60u64) | (root >> 12u64)
}

} // verus!
