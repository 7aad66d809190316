//! Memory for VirtIO devices.

use vstd::prelude::*;

verus! {

/// Bytes per page.
pub const PAGE_SIZE: usize = 4096;

/// Bytes set aside for DMA.
pub const DMA_SIZE: usize = 262144;

/// Memory management for VirtIO drivers. Physical and virtual addresses are the
/// same, and DMA memory is handed out from a region, front to back.
#[derive(Debug, Clone, Copy, PartialEq, Eq, Structural)]
pub struct HalImpl {
    /// The first address that was not handed out.
    pub next: u64,
}

impl HalImpl {
    /// The allocator after `pages` more pages were handed out.
    pub open spec fn after(self, pages: int) -> HalImpl {
        HalImpl { next: ((self.next + PAGE_SIZE * pages) % 0x1_0000_0000_0000_0000) as u64 }
    }

    /// An allocator for the region that starts at `region`.
    pub fn new(region: u64) -> (r: HalImpl)
        ensures
            r.next == region,
    {
        HalImpl { next: region }
    }

    /// Hands out `pages` pages: returns the address of the first.
    pub fn dma_alloc(&mut self, pages: usize) -> (paddr: u64)
        requires
            PAGE_SIZE * pages <= usize::MAX,
        ensures
            paddr == old(self).next,
            *final(self) == old(self).after(pages as int),
    {
        let paddr = self.next;
        self.next = paddr.wrapping_add((PAGE_SIZE * pages) as u64);
        paddr
    }

    /// Takes pages back. They are not handed out again; always succeeds.
    pub fn dma_dealloc(&self, paddr: u64, pages: usize) -> (r: i32)
        ensures
            r == 0,
    {
        0
    }

    /// The physical address of a shared buffer: the host has access to all
    /// memory.
    pub fn share(vaddr: usize) -> (r: u64)
        ensures
            r == vaddr,
    {
        virt_to_phys(vaddr)
    }
}

/// The physical address of a virtual address.
pub fn virt_to_phys(vaddr: usize) -> (r: u64)
    ensures
        r == vaddr,
{
    vaddr as u64
}

/// Whether two ranges of pages share no byte.
pub open spec fn disjoint(a: int, a_pages: int, b: int, b_pages: int) -> bool {
    a + a_pages * PAGE_SIZE <= b || b + b_pages * PAGE_SIZE <= a
}

/// What is handed out later never overlaps what was handed out before, stays
/// inside the region, and is page-aligned, as long as the region is not used
/// up: `before` pages were handed out, then `first` pages, then `between`
/// pages, then `second` pages.
pub proof fn law_allocations_are_disjoint(
    region: u64,
    before: nat,
    first: nat,
    between: nat,
    second: nat,
)
    requires
        region % 4096 == 0,
        region + DMA_SIZE <= u64::MAX,
        (before + first + between + second) * PAGE_SIZE <= DMA_SIZE,
    ensures
        ({
            let start = HalImpl { next: region };
            let a = start.after(before as int).next as int;
            let b = start.after(before as int).after(first as int).after(between as int).next
                as int;
            &&& a == region + before * PAGE_SIZE
            &&& disjoint(a, first as int, b, second as int)
            &&& a % 4096 == 0 && b % 4096 == 0
            &&& region <= a && b + second * PAGE_SIZE <= region + DMA_SIZE
        }),
{
}

/// An allocation moves the next address on by its pages of 4096 bytes.
pub proof fn law_allocation_moves_on(hal: HalImpl, pages: int)
    requires
        0 <= pages,
        hal.next + 4096 * pages <= 0xFFFF_FFFF_FFFF_FFFF,
    ensures
        hal.after(pages).next == hal.next + 4096 * pages,
{
}

} // verus!
