//! Sizing of the page-backed kernel stack.
use vstd::prelude::*;
use crate::pages::{page_count, pages_for, PAGE_SIZE};

verus! {

/// A page-backed, downward-growing kernel stack.
///
/// The allocation is intentionally retained for the kernel. After exiting boot
/// services, the kernel must keep these pages reserved while the stack is in use.
/// No guard page is installed; that requires setting up kernel page tables.
#[derive(Debug, Clone, Copy)]
pub struct KernelStack {
    /// Lowest address in the allocation (inclusive).
    bottom: usize,
    /// Highest address in the allocation (exclusive).
    /// Initial stack pointer before a call into the kernel.
    ///
    /// Page alignment also provides the 16-byte alignment required at an
    /// x86-64 call site. The handoff must still follow the kernel's entry ABI.
    top: usize,
    /// Actual number of pages allocated for the stack.
    num_pages: usize,
}

impl KernelStack {
    /// Lowest address of the stack.
    pub closed spec fn spec_bottom(&self) -> usize {
        self.bottom
    }

    /// Highest (exclusive) address of the stack.
    pub closed spec fn spec_top(&self) -> usize {
        self.top
    }

    /// Number of pages of the stack.
    pub closed spec fn spec_num_pages(&self) -> usize {
        self.num_pages
    }

    /// The stack of `num_pages` pages allocated at `bottom`.
    pub fn new(bottom: usize, num_pages: usize) -> (stack: KernelStack)
        requires
            bottom + num_pages * 4096 <= usize::MAX,
        ensures
            stack.spec_bottom() == bottom,
            stack.spec_top() == bottom + num_pages * 4096,
            stack.spec_num_pages() == num_pages,
    {
        let size = num_pages * PAGE_SIZE;
        KernelStack { bottom, top: bottom + size, num_pages }
    }

    pub fn bottom(&self) -> (bottom: usize)
        ensures
            bottom == self.spec_bottom(),
    {
        self.bottom
    }

    pub fn top(&self) -> (top: usize)
        ensures
            top == self.spec_top(),
    {
        self.top
    }

    pub fn num_pages(&self) -> (num_pages: usize)
        ensures
            num_pages == self.spec_num_pages(),
    {
        self.num_pages
    }
}

/// Number of pages of a kernel stack with at least `bytes` bytes of space:
/// `bytes` rounded up to whole UEFI pages.
pub fn kernel_stack_pages(bytes: usize) -> (num_pages: usize)
    requires
        bytes > 0,
        pages_for(bytes as int) * 4096 <= usize::MAX,
    ensures
        num_pages == pages_for(bytes as int),
        num_pages >= 1,
        num_pages * 4096 >= bytes,
        num_pages * 4096 < bytes + 4096,
{
    page_count(bytes)
}

/// A stack allocated on a page boundary has a 16-byte aligned top, as an
/// x86-64 call site requires.
pub proof fn lemma_stack_top_alignment(bottom: int, num_pages: int)
    requires
        bottom % 4096 == 0,
        num_pages >= 0,
    ensures
        (bottom + num_pages * 4096) % 16 == 0,
{
    assert((bottom + num_pages * 4096) % 16 == 0) by (nonlinear_arith)
        requires
            bottom % 4096 == 0,
    ;
}

} // verus!
