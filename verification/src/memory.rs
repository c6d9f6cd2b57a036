//! Firmware-independent description of physical memory after boot services exit.
use vstd::prelude::*;

verus! {

/// How the kernel may use a physical memory range.
#[derive(Debug, Clone, Copy, PartialEq, Eq, Structural)]
pub enum MemoryType {
    /// Free RAM, including boot-services memory that is no longer needed.
    Available,
    /// Unavailable or unknown memory, including runtime services, ACPI, and MMIO.
    Reserved,
    /// The entire loaded kernel image, including its data and zero-filled regions.
    KernelCode,
    /// The kernel's active stack; keep reserved while in use.
    KernelStack,
    /// Boot information, memory-map descriptors, and font data.
    KernelData,
    /// Loader code and data; reclaim only after the handoff and all uses end.
    Loader,
}

/// A physical range starting at `phys_start`, covering `num_pages` 4 KiB pages.
///
/// The exclusive end is `phys_start + num_pages * 4096`; the loader must ensure
/// this calculation does not overflow when constructing the map.
#[derive(Debug, Clone, Copy, PartialEq, Eq, Structural)]
pub struct MemoryDescriptor {
    pub phys_start: u64,
    pub num_pages: u64,
    pub memory_type: MemoryType,
}

impl MemoryDescriptor {
    /// The exclusive end address `phys_start + num_pages * 4096`, as a mathematical integer.
    pub open spec fn spec_end(self) -> int {
        self.phys_start + self.num_pages * 4096
    }

    /// Whether `addr` lies in `[phys_start, end)`.
    pub open spec fn contains(self, addr: int) -> bool {
        self.phys_start <= addr < self.spec_end()
    }

    /// The descriptor's exclusive end address, or `None` where
    /// `phys_start + num_pages * 4096` does not fit in a `u64`.
    pub fn end(&self) -> (end: Option<u64>)
        ensures
            match end {
                Some(e) => e == self.spec_end(),
                None => self.spec_end() > u64::MAX,
            },
    {
        if self.num_pages > (u64::MAX - self.phys_start) / 4096 {
            None
        } else {
            Some(self.phys_start + self.num_pages * 4096)
        }
    }
}

/// A memory map stored in persistent, loader-allocated memory.
///
/// Descriptors must describe nonoverlapping, page-aligned ranges. The slice length
/// counts descriptors, not bytes. Its backing allocation must remain mapped and
/// reserved for the kernel's lifetime; a temporary UEFI allocation is not enough.
#[derive(Debug, Clone, Copy)]
pub struct MemoryMap {
    pub descriptors: &'static [MemoryDescriptor],
}

/// Two descriptors describe disjoint address ranges.
pub open spec fn disjoint(a: MemoryDescriptor, b: MemoryDescriptor) -> bool {
    a.spec_end() <= b.phys_start || b.spec_end() <= a.phys_start
}

/// A single descriptor is page-aligned and its end fits in a `u64`.
pub open spec fn descriptor_well_formed(d: MemoryDescriptor) -> bool {
    &&& d.phys_start % 4096 == 0
    &&& d.spec_end() <= u64::MAX
}

impl MemoryMap {
    /// The descriptors as a sequence.
    pub open spec fn entries(self) -> Seq<MemoryDescriptor> {
        self.descriptors@
    }

    /// The map's documented invariant: every range is page-aligned, its end does
    /// not overflow, and no two ranges overlap.
    pub open spec fn well_formed(self) -> bool {
        &&& forall|i: int| 0 <= i < self.entries().len() ==> descriptor_well_formed(#[trigger] self.entries()[i])
        &&& forall|i: int, j: int|
            0 <= i < self.entries().len() && 0 <= j < self.entries().len() && i != j
                ==> disjoint(#[trigger] self.entries()[i], #[trigger] self.entries()[j])
    }

    /// Checks the map's invariant.
    pub fn is_well_formed(&self) -> (ok: bool)
        ensures
            ok == self.well_formed(),
    {
        let n = self.descriptors.len();
        let mut i: usize = 0;
        while i < n
            invariant
                n == self.entries().len(),
                i <= n,
                forall|k: int| 0 <= k < i ==> descriptor_well_formed(#[trigger] self.entries()[k]),
                forall|k: int, l: int|
                    0 <= k < i && 0 <= l < n && k != l
                        ==> disjoint(#[trigger] self.entries()[k], #[trigger] self.entries()[l]),
            decreases n - i,
        {
            let d = self.descriptors[i];
            if d.phys_start % 4096 != 0 {
                return false;
            }
            let end_i = match d.end() {
                Some(e) => e,
                None => return false,
            };
            let mut j: usize = 0;
            while j < n
                invariant
                    n == self.entries().len(),
                    i < n,
                    j <= n,
                    d == self.entries()[i as int],
                    end_i == d.spec_end(),
                    forall|l: int| 0 <= l < j && l != i ==> disjoint(d, #[trigger] self.entries()[l]),
                decreases n - j,
            {
                if j != i {
                    let e = self.descriptors[j];
                    let below = e.phys_start >= end_i;
                    let above = match e.end() {
                        Some(end_j) => end_j <= d.phys_start,
                        None => false,
                    };
                    if !below && !above {
                        assert(!disjoint(d, self.entries()[j as int]));
                        return false;
                    }
                }
                j += 1;
            }
            assert forall|k: int, l: int|
                0 <= k < i + 1 && 0 <= l < n && k != l implies disjoint(
                #[trigger] self.entries()[k],
                #[trigger] self.entries()[l],
            ) by {
                if k == i {
                    assert(disjoint(d, self.entries()[l]));
                }
            }
            i += 1;
        }
        true
    }
}

/// In a well-formed map every address belongs to at most one descriptor.
pub proof fn lemma_address_in_one_descriptor(map: MemoryMap, addr: int, i: int, j: int)
    requires
        map.well_formed(),
        0 <= i < map.entries().len(),
        0 <= j < map.entries().len(),
        map.entries()[i].contains(addr),
        map.entries()[j].contains(addr),
    ensures
        i == j,
{
    if i != j {
        assert(disjoint(map.entries()[i], map.entries()[j]));
    }
}

/// What well-formedness asks, stated over the descriptors' fields: a map is
/// well formed exactly when every descriptor starts at a multiple of 4096 (one
/// 4 KiB page) and its end `phys_start + num_pages * 4096` fits in a `u64`,
/// and any two distinct descriptors' ranges `[phys_start, end)` do not overlap.
/// Adjacent ranges, where one ends where the next starts, are allowed.
pub proof fn lemma_well_formed_exactly_when(map: MemoryMap)
    ensures
        map.well_formed() <==> {
            let ds = map.descriptors@;
            &&& forall|i: int| 0 <= i < ds.len() ==> {
                &&& (#[trigger] ds[i]).phys_start % 4096 == 0
                &&& ds[i].phys_start + ds[i].num_pages * 4096 <= u64::MAX
            }
            &&& forall|i: int, j: int| 0 <= i < ds.len() && 0 <= j < ds.len() && i != j ==> {
                ||| (#[trigger] ds[i]).phys_start + ds[i].num_pages * 4096 <= (#[trigger] ds[j]).phys_start
                ||| ds[j].phys_start + ds[j].num_pages * 4096 <= ds[i].phys_start
            }
        },
{
    let ds = map.descriptors@;
    assert(map.entries() == ds);
    if map.well_formed() {
        assert forall|i: int| 0 <= i < ds.len() implies {
            &&& (#[trigger] ds[i]).phys_start % 4096 == 0
            &&& ds[i].phys_start + ds[i].num_pages * 4096 <= u64::MAX
        } by {
            assert(descriptor_well_formed(map.entries()[i]));
        }
        assert forall|i: int, j: int| 0 <= i < ds.len() && 0 <= j < ds.len() && i != j implies {
            ||| (#[trigger] ds[i]).phys_start + ds[i].num_pages * 4096 <= (#[trigger] ds[j]).phys_start
            ||| ds[j].phys_start + ds[j].num_pages * 4096 <= ds[i].phys_start
        } by {
            assert(disjoint(map.entries()[i], map.entries()[j]));
        }
    }
    if ({
        &&& forall|i: int| 0 <= i < ds.len() ==> {
            &&& (#[trigger] ds[i]).phys_start % 4096 == 0
            &&& ds[i].phys_start + ds[i].num_pages * 4096 <= u64::MAX
        }
        &&& forall|i: int, j: int| 0 <= i < ds.len() && 0 <= j < ds.len() && i != j ==> {
            ||| (#[trigger] ds[i]).phys_start + ds[i].num_pages * 4096 <= (#[trigger] ds[j]).phys_start
            ||| ds[j].phys_start + ds[j].num_pages * 4096 <= ds[i].phys_start
        }
    }) {
        assert forall|i: int| 0 <= i < map.entries().len() implies descriptor_well_formed(#[trigger] map.entries()[i]) by {
            assert(ds[i].phys_start % 4096 == 0);
        }
        assert forall|i: int, j: int|
            0 <= i < map.entries().len() && 0 <= j < map.entries().len() && i != j implies disjoint(
            #[trigger] map.entries()[i],
            #[trigger] map.entries()[j],
        ) by {
            assert(ds[i] == map.entries()[i] && ds[j] == map.entries()[j]);
        }
    }
}

/// A descriptor covers `num_pages` 4 KiB pages from `phys_start`: its end is
/// `phys_start + num_pages * 4096`, and it contains exactly the addresses from
/// its start up to, not including, that end.
pub proof fn lemma_descriptor_range(d: MemoryDescriptor, addr: int)
    ensures
        d.spec_end() == d.phys_start + d.num_pages * 4096,
        d.contains(addr) <==> (d.phys_start <= addr && addr < d.phys_start + d.num_pages * 4096),
{
}

/// Information handed to the kernel by the loader, necessary for boot.
///
/// The boot information and writer's framebuffer and font
/// must remain accessible after exiting boot services. Their backing memory must
/// not be reclaimed while in use. The loader must stop using the writer before
/// transferring it to the kernel.
#[derive(Debug)]
pub struct BootInfo<W> {
    pub writer: Option<W>,
}

impl<W> BootInfo<W> {
    /// Moves the writer out of the boot information, leaving `None` behind.
    pub fn take_writer(&mut self) -> (writer: Option<W>)
        ensures
            writer == old(self).writer,
            final(self).writer.is_none(),
    {
        self.writer.take()
    }
}

} // verus!
