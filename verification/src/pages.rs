//! Page arithmetic shared by the loader: UEFI pages are 4 KiB.
use vstd::prelude::*;

verus! {

/// Size in bytes of one UEFI page (and of the pages a memory map counts).
pub const PAGE_SIZE: usize = 4096;

/// The number of whole pages needed to hold `bytes` bytes.
pub open spec fn pages_for(bytes: int) -> int {
    (bytes + 4095) / 4096
}

/// `addr` rounded down to a page boundary.
pub open spec fn align_down(addr: int) -> int {
    addr - addr % 4096
}

/// `addr` rounded up to a page boundary.
pub open spec fn align_up(addr: int) -> int {
    align_down(addr + 4095)
}

/// Whether `addr` lies on a page boundary.
pub open spec fn page_aligned(addr: int) -> bool {
    addr % 4096 == 0
}

/// Number of pages needed for `bytes` bytes (`bytes.div_ceil(PAGE_SIZE)`).
pub fn page_count(bytes: usize) -> (pages: usize)
    ensures
        pages == pages_for(bytes as int),
        pages * 4096 >= bytes,
        pages * 4096 < bytes + 4096,
{
    let whole = bytes / PAGE_SIZE;
    if bytes % PAGE_SIZE == 0 {
        whole
    } else {
        whole + 1
    }
}

/// Rounding up to pages covers the bytes and wastes less than one page.
pub proof fn lemma_pages_for_bounds(bytes: int)
    requires
        bytes >= 0,
    ensures
        pages_for(bytes) * 4096 >= bytes,
        pages_for(bytes) * 4096 < bytes + 4096,
        pages_for(bytes) >= 0,
        bytes > 0 ==> pages_for(bytes) >= 1,
{
}

/// Rounding down and up to page boundaries gives page-aligned addresses that
/// enclose the original address, each within one page of it.
pub proof fn lemma_align_bounds(addr: int)
    requires
        addr >= 0,
    ensures
        page_aligned(align_down(addr)),
        page_aligned(align_up(addr)),
        align_down(addr) <= addr < align_down(addr) + 4096,
        addr <= align_up(addr) < addr + 4096,
        align_down(addr) >= 0,
{
}

} // verus!
