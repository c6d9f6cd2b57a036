//! Validation and placement of the kernel ELF image.
//!
//! The file is parsed by `goblin`; what the loader reads of the parse is held
//! in [`ElfFile`]. [`ElfFile::kernel_plan`] validates the load segments and
//! computes the page-aligned physical range to allocate and the copies that
//! fill it.
use vstd::prelude::*;
use crate::error::{KernelLoadError, LoaderError};
use crate::pages::{align_down, align_up, page_aligned};

verus! {

/// `e_machine` of x86-64 objects.
pub const EM_X86_64: u16 = 62;

/// `e_type` of executable files.
pub const ET_EXEC: u16 = 2;

/// `p_type` of loadable segments.
pub const PT_LOAD: u32 = 1;

/// `p_flags` bit of executable segments.
pub const PF_X: u32 = 1;

/// One program header of an ELF file.
#[derive(Debug, Clone, Copy, PartialEq, Eq, Structural)]
pub struct ProgramHeader {
    pub p_type: u32,
    pub p_flags: u32,
    pub p_offset: u64,
    pub p_vaddr: u64,
    pub p_paddr: u64,
    pub p_filesz: u64,
    pub p_memsz: u64,
}

impl ProgramHeader {
    /// Builds a program header from its fields.
    pub fn new(
        p_type: u32,
        p_flags: u32,
        p_offset: u64,
        p_vaddr: u64,
        p_paddr: u64,
        p_filesz: u64,
        p_memsz: u64,
    ) -> (ph: ProgramHeader)
        ensures
            ph == (ProgramHeader { p_type, p_flags, p_offset, p_vaddr, p_paddr, p_filesz, p_memsz }),
    {
        ProgramHeader { p_type, p_flags, p_offset, p_vaddr, p_paddr, p_filesz, p_memsz }
    }
}

/// What the loader reads of a parsed ELF file.
#[derive(Debug)]
pub struct ElfFile {
    pub is_64: bool,
    pub little_endian: bool,
    pub e_machine: u16,
    pub e_type: u16,
    pub entry: u64,
    pub program_headers: Vec<ProgramHeader>,
}

/// The mathematical value of an [`ElfFile`].
pub ghost struct ElfFileView {
    pub is_64: bool,
    pub little_endian: bool,
    pub e_machine: u16,
    pub e_type: u16,
    pub entry: u64,
    pub program_headers: Seq<ProgramHeader>,
}

impl View for ElfFile {
    type V = ElfFileView;

    open spec fn view(&self) -> ElfFileView {
        ElfFileView {
            is_64: self.is_64,
            little_endian: self.little_endian,
            e_machine: self.e_machine,
            e_type: self.e_type,
            entry: self.entry,
            program_headers: self.program_headers@,
        }
    }
}

/// What `goblin::elf::Elf::parse` makes of `data`: `None` where it fails.
pub uninterp spec fn goblin_elf_parse(data: Seq<u8>) -> Option<ElfFileView>;

/// Calls `goblin::elf::Elf::parse` on `data` and keeps the header fields and
/// program headers the loader reads. Trusted: the result is `goblin_elf_parse`
/// of the bytes, `Err` exactly where that is `None`.
#[verifier::external_body]
fn parse_elf(data: &[u8]) -> (res: Result<ElfFile, goblin::error::Error>)
    ensures
        match res {
            Ok(file) => goblin_elf_parse(data@) == Some(file@),
            Err(_) => goblin_elf_parse(data@).is_none(),
        },
{
    let elf = goblin::elf::Elf::parse(data)?;
    let program_headers = elf.program_headers.iter().map(
        |p| ProgramHeader::new(p.p_type, p.p_flags, p.p_offset, p.p_vaddr, p.p_paddr, p.p_filesz, p.p_memsz),
    ).collect();
    Ok(ElfFile {
        is_64: elf.is_64,
        little_endian: elf.little_endian,
        e_machine: elf.header.e_machine,
        e_type: elf.header.e_type,
        entry: elf.entry,
        program_headers,
    })
}

/// One load segment to place: `file_size` bytes from `file_offset` in the file
/// go to physical address `dest`, and the rest of its `mem_size` bytes are zeroed.
#[derive(Debug, Clone, Copy, PartialEq, Eq, Structural)]
pub struct SegmentCopy {
    pub dest: u64,
    pub file_offset: usize,
    pub file_size: usize,
    pub mem_size: u64,
}

/// How to place a validated kernel: allocate `num_pages` pages at `dest_start`,
/// perform `segments`, and enter at `entry_point`.
#[derive(Debug)]
pub struct KernelPlan {
    pub entry_point: u64,
    pub dest_start: u64,
    pub num_pages: usize,
    pub segments: Vec<SegmentCopy>,
}

/// The mathematical value of a [`KernelPlan`].
pub ghost struct KernelPlanView {
    pub entry_point: u64,
    pub dest_start: u64,
    pub num_pages: usize,
    pub segments: Seq<SegmentCopy>,
}

impl View for KernelPlan {
    type V = KernelPlanView;

    open spec fn view(&self) -> KernelPlanView {
        KernelPlanView {
            entry_point: self.entry_point,
            dest_start: self.dest_start,
            num_pages: self.num_pages,
            segments: self.segments@,
        }
    }
}

/// A plan result taken by its view.
pub open spec fn plan_result_view(r: Result<KernelPlan, KernelLoadError>) -> Result<KernelPlanView, KernelLoadError> {
    match r {
        Ok(p) => Ok(p@),
        Err(e) => Err(e),
    }
}

/// The file is a little-endian 64-bit x86-64 executable.
pub open spec fn header_supported(e: ElfFileView) -> bool {
    &&& e.is_64
    &&& e.little_endian
    &&& e.e_machine == EM_X86_64
    &&& e.e_type == ET_EXEC
}

/// A segment the loader places: `PT_LOAD` with a nonzero memory size.
pub open spec fn is_load_segment(p: ProgramHeader) -> bool {
    p.p_type == PT_LOAD && p.p_memsz != 0
}

/// A load segment the loader rejects: more file bytes than memory bytes, an end
/// address that overflows, or file bytes beyond the end of the file.
pub open spec fn segment_malformed(p: ProgramHeader, data_len: int) -> bool {
    ||| p.p_filesz > p.p_memsz
    ||| p.p_offset + p.p_filesz > u64::MAX
    ||| p.p_paddr + p.p_memsz > u64::MAX
    ||| p.p_vaddr + p.p_memsz > u64::MAX
    ||| p.p_offset + p.p_filesz > data_len
}

/// An executable load segment whose virtual range holds `entry`.
pub open spec fn holds_entry(p: ProgramHeader, entry: u64) -> bool {
    &&& is_load_segment(p)
    &&& p.p_flags & PF_X != 0
    &&& p.p_vaddr <= entry < p.p_vaddr + p.p_memsz
}

/// Lowest physical start among the load segments (`u64::MAX` where there is none).
pub open spec fn lowest_load_start(s: Seq<ProgramHeader>) -> int
    decreases s.len(),
{
    if s.len() == 0 {
        u64::MAX as int
    } else {
        let rest = lowest_load_start(s.drop_last());
        let p = s.last();
        if is_load_segment(p) && p.p_paddr < rest {
            p.p_paddr as int
        } else {
            rest
        }
    }
}

/// Highest physical end among the load segments (0 where there is none).
pub open spec fn highest_load_end(s: Seq<ProgramHeader>) -> int
    decreases s.len(),
{
    if s.len() == 0 {
        0
    } else {
        let rest = highest_load_end(s.drop_last());
        let p = s.last();
        if is_load_segment(p) && p.p_paddr + p.p_memsz > rest {
            p.p_paddr + p.p_memsz
        } else {
            rest
        }
    }
}

/// The copy that places load segment `p`.
pub open spec fn segment_copy(p: ProgramHeader) -> SegmentCopy {
    SegmentCopy {
        dest: p.p_paddr,
        file_offset: p.p_offset as usize,
        file_size: p.p_filesz as usize,
        mem_size: p.p_memsz,
    }
}

/// The copies for the load segments of `s`, in program-header order.
pub open spec fn load_copies(s: Seq<ProgramHeader>) -> Seq<SegmentCopy>
    decreases s.len(),
{
    if s.len() == 0 {
        Seq::empty()
    } else if is_load_segment(s.last()) {
        load_copies(s.drop_last()).push(segment_copy(s.last()))
    } else {
        load_copies(s.drop_last())
    }
}

/// Some load segment of `phs` is malformed.
pub open spec fn some_load_malformed(phs: Seq<ProgramHeader>, data_len: int) -> bool {
    exists|i: int| 0 <= i < phs.len() && is_load_segment(phs[i]) && segment_malformed(#[trigger] phs[i], data_len)
}

/// `phs` has a load segment.
pub open spec fn some_load(phs: Seq<ProgramHeader>) -> bool {
    exists|i: int| 0 <= i < phs.len() && is_load_segment(#[trigger] phs[i])
}

/// Some executable load segment of `phs` holds `entry`.
pub open spec fn some_entry_segment(phs: Seq<ProgramHeader>, entry: u64) -> bool {
    exists|i: int| 0 <= i < phs.len() && holds_entry(#[trigger] phs[i], entry)
}

/// The loader's decision on an ELF file of `data_len` bytes: which error it
/// reports, or where and how the kernel is placed.
pub open spec fn kernel_plan_spec(e: ElfFileView, data_len: int) -> Result<KernelPlanView, KernelLoadError> {
    let phs = e.program_headers;
    if !header_supported(e) {
        Err(KernelLoadError::InvalidFormat)
    } else if some_load_malformed(phs, data_len) {
        Err(KernelLoadError::InvalidSegment)
    } else if !some_load(phs) {
        Err(KernelLoadError::NoLoadableSegments)
    } else if !some_entry_segment(phs, e.entry) {
        Err(KernelLoadError::InvalidEntryPoint)
    } else if highest_load_end(phs) + 4095 > u64::MAX {
        Err(KernelLoadError::InvalidSegment)
    } else {
        let start = align_down(lowest_load_start(phs));
        let end = align_up(highest_load_end(phs));
        let pages = (end - start) / 4096;
        if pages > usize::MAX {
            Err(KernelLoadError::InvalidSegment)
        } else {
            Ok(KernelPlanView {
                entry_point: e.entry,
                dest_start: start as u64,
                num_pages: pages as usize,
                segments: load_copies(phs),
            })
        }
    }
}

/// Every load segment starts at or above the lowest start and ends at or
/// below the highest end; where there is a load segment, both bounds are
/// attained by load segments.
proof fn lemma_load_bounds(s: Seq<ProgramHeader>)
    ensures
        forall|j: int| 0 <= j < s.len() && is_load_segment(#[trigger] s[j]) ==> {
            &&& lowest_load_start(s) <= s[j].p_paddr
            &&& s[j].p_paddr + s[j].p_memsz <= highest_load_end(s)
        },
        0 <= lowest_load_start(s) <= u64::MAX,
        highest_load_end(s) >= 0,
        !some_load(s) ==> lowest_load_start(s) == u64::MAX && highest_load_end(s) == 0,
        some_load(s) ==> {
            &&& lowest_load_start(s) < highest_load_end(s)
            &&& exists|j: int| 0 <= j < s.len() && is_load_segment(#[trigger] s[j]) && s[j].p_paddr == lowest_load_start(s)
            &&& exists|j: int| 0 <= j < s.len() && is_load_segment(#[trigger] s[j]) && s[j].p_paddr + s[j].p_memsz == highest_load_end(s)
        },
    decreases s.len(),
{
    if s.len() > 0 {
        let r = s.drop_last();
        let last = s.len() - 1;
        let p = s.last();
        assert(s[last] == p);
        lemma_load_bounds(r);
        assert forall|j: int| 0 <= j < s.len() && is_load_segment(#[trigger] s[j]) implies {
            &&& lowest_load_start(s) <= s[j].p_paddr
            &&& s[j].p_paddr + s[j].p_memsz <= highest_load_end(s)
        } by {
            if j < last {
                assert(s[j] == r[j]);
            }
        }
        if some_load(r) {
            let j = choose|j: int| 0 <= j < r.len() && is_load_segment(#[trigger] r[j]);
            assert(s[j] == r[j]);
            assert(some_load(s));
        }
        if some_load(s) {
            let j = choose|j: int| 0 <= j < s.len() && is_load_segment(#[trigger] s[j]);
            if !some_load(r) {
                if j < last {
                    assert(s[j] == r[j]);
                    assert(some_load(r));
                }
                assert(is_load_segment(p));
            }
            assert(lowest_load_start(s) <= s[j].p_paddr);
            assert(s[j].p_paddr + s[j].p_memsz <= highest_load_end(s));
            if is_load_segment(p) && p.p_paddr < lowest_load_start(r) {
                assert(is_load_segment(s[last]) && s[last].p_paddr == lowest_load_start(s));
            } else if some_load(r) {
                let a = choose|k: int| 0 <= k < r.len() && is_load_segment(#[trigger] r[k]) && r[k].p_paddr == lowest_load_start(r);
                assert(s[a] == r[a]);
                assert(is_load_segment(s[a]) && s[a].p_paddr == lowest_load_start(s));
            } else {
                assert(is_load_segment(s[last]) && s[last].p_paddr == lowest_load_start(s));
            }
            if is_load_segment(p) && p.p_paddr + p.p_memsz > highest_load_end(r) {
                assert(is_load_segment(s[last]) && s[last].p_paddr + s[last].p_memsz == highest_load_end(s));
            } else {
                let b = choose|k: int| 0 <= k < r.len() && is_load_segment(#[trigger] r[k]) && r[k].p_paddr + r[k].p_memsz == highest_load_end(r);
                assert(s[b] == r[b]);
                assert(is_load_segment(s[b]) && s[b].p_paddr + s[b].p_memsz == highest_load_end(s));
            }
        }
    }
}

impl ElfFile {
    /// Validates the kernel file (of `data_len` bytes) and computes its placement:
    /// the page-aligned physical range spanning all load segments and the copies
    /// that fill it. Every load segment is checked before anything is decided.
    pub fn kernel_plan(&self, data_len: usize) -> (res: Result<KernelPlan, KernelLoadError>)
        ensures
            plan_result_view(res) == kernel_plan_spec(self@, data_len as int),
    {
        if !self.is_64 || !self.little_endian || self.e_machine != EM_X86_64 || self.e_type != ET_EXEC {
            return Err(KernelLoadError::InvalidFormat);
        }
        let ghost phs = self.program_headers@;
        let n = self.program_headers.len();
        let mut dest_start: u64 = u64::MAX;
        let mut dest_end: u64 = 0;
        let mut has_loadable_segment = false;
        let mut entry_is_executable = false;
        let mut segments: Vec<SegmentCopy> = Vec::new();
        let mut i: usize = 0;
        // Validate the load segments before deciding anything.
        while i < n
            invariant
                n == phs.len(),
                phs == self.program_headers@,
                header_supported(self@),
                i <= n,
                forall|j: int| 0 <= j < i && is_load_segment(phs[j]) ==> !segment_malformed(#[trigger] phs[j], data_len as int),
                has_loadable_segment == exists|j: int| 0 <= j < i && is_load_segment(#[trigger] phs[j]),
                entry_is_executable == exists|j: int| 0 <= j < i && holds_entry(#[trigger] phs[j], self.entry),
                dest_start == lowest_load_start(phs.take(i as int)),
                dest_end == highest_load_end(phs.take(i as int)),
                segments@ == load_copies(phs.take(i as int)),
            decreases n - i,
        {
            let p = self.program_headers[i];
            assert(phs.take(i + 1).drop_last() == phs.take(i as int));
            assert(phs.take(i + 1).last() == p);
            if p.p_type != PT_LOAD || p.p_memsz == 0 {
                i += 1;
                continue;
            }
            proof {
                if segment_malformed(p, data_len as int) {
                    assert(is_load_segment(phs[i as int]) && segment_malformed(phs[i as int], data_len as int));
                    assert(some_load_malformed(phs, data_len as int));
                    assert(kernel_plan_spec(self@, data_len as int) == Err::<KernelPlanView, KernelLoadError>(KernelLoadError::InvalidSegment));
                }
            }
            if p.p_filesz > p.p_memsz {
                return Err(KernelLoadError::InvalidSegment);
            }
            let file_end = match p.p_offset.checked_add(p.p_filesz) {
                Some(v) => v,
                None => return Err(KernelLoadError::InvalidSegment),
            };
            let memory_end = match p.p_paddr.checked_add(p.p_memsz) {
                Some(v) => v,
                None => return Err(KernelLoadError::InvalidSegment),
            };
            let virtual_end = match p.p_vaddr.checked_add(p.p_memsz) {
                Some(v) => v,
                None => return Err(KernelLoadError::InvalidSegment),
            };
            if file_end > data_len as u64 {
                return Err(KernelLoadError::InvalidSegment);
            }
            has_loadable_segment = true;
            if p.p_paddr < dest_start {
                dest_start = p.p_paddr;
            }
            if memory_end > dest_end {
                dest_end = memory_end;
            }
            if p.p_flags & PF_X != 0 && p.p_vaddr <= self.entry && self.entry < virtual_end {
                entry_is_executable = true;
            }
            segments.push(
                SegmentCopy {
                    dest: p.p_paddr,
                    file_offset: p.p_offset as usize,
                    file_size: p.p_filesz as usize,
                    mem_size: p.p_memsz,
                },
            );
            i += 1;
        }
        assert(phs.take(n as int) == phs);
        assert(!some_load_malformed(phs, data_len as int));
        assert(has_loadable_segment == some_load(phs));
        assert(entry_is_executable == some_entry_segment(phs, self.entry));
        if !has_loadable_segment {
            return Err(KernelLoadError::NoLoadableSegments);
        }
        if !entry_is_executable {
            return Err(KernelLoadError::InvalidEntryPoint);
        }
        proof {
            lemma_load_bounds(phs);
        }
        // UEFI page allocations require a page-aligned physical range.
        let page_mask: u64 = 4095;
        let start = dest_start & !page_mask;
        assert(dest_start & !4095u64 == dest_start - dest_start % 4096) by (bit_vector);
        let padded_end = match dest_end.checked_add(page_mask) {
            Some(v) => v,
            None => return Err(KernelLoadError::InvalidSegment),
        };
        let end = padded_end & !page_mask;
        assert(padded_end & !4095u64 == padded_end - padded_end % 4096) by (bit_vector);
        let pages = (end - start) / 4096;
        if pages > usize::MAX as u64 {
            return Err(KernelLoadError::InvalidSegment);
        }
        Ok(KernelPlan { entry_point: self.entry, dest_start: start, num_pages: pages as usize, segments })
    }
}


/// `c` is the copy of some load segment of `s`.
spec fn copies_a_load_segment(s: Seq<ProgramHeader>, c: SegmentCopy) -> bool {
    exists|j: int| 0 <= j < s.len() && is_load_segment(#[trigger] s[j]) && c == segment_copy(s[j])
}

/// The copies of `load_copies(s)` are those of the load segments of `s`.
proof fn lemma_load_copies_from_segments(s: Seq<ProgramHeader>)
    ensures
        forall|k: int| 0 <= k < load_copies(s).len() ==> copies_a_load_segment(s, #[trigger] load_copies(s)[k]),
    decreases s.len(),
{
    if s.len() > 0 {
        let r = s.drop_last();
        let last = s.len() - 1;
        assert(s[last] == s.last());
        lemma_load_copies_from_segments(r);
        assert forall|k: int| 0 <= k < load_copies(s).len() implies copies_a_load_segment(s, #[trigger] load_copies(s)[k]) by {
            if k < load_copies(r).len() {
                assert(load_copies(s)[k] == load_copies(r)[k]);
                assert(copies_a_load_segment(r, load_copies(r)[k]));
                let j = choose|j: int| 0 <= j < r.len() && is_load_segment(#[trigger] r[j]) && load_copies(r)[k] == segment_copy(r[j]);
                assert(s[j] == r[j]);
            } else {
                assert(is_load_segment(s[last]) && load_copies(s)[k] == segment_copy(s[last]));
            }
        }
    }
}

/// Page-aligned placement: where the kernel is accepted, the allocation starts
/// on a page boundary, spans whole pages, and holds the physical range of
/// every load segment, with no page to spare at either end; the entry point
/// lies in an executable load segment.
pub proof fn lemma_plan_covers_load_segments(e: ElfFileView, data_len: int)
    requires
        kernel_plan_spec(e, data_len) is Ok,
    ensures
        ({
            let plan = kernel_plan_spec(e, data_len)->Ok_0;
            let phs = e.program_headers;
            &&& page_aligned(plan.dest_start as int)
            &&& plan.entry_point == e.entry
            &&& some_entry_segment(phs, plan.entry_point)
            &&& forall|j: int| 0 <= j < phs.len() && is_load_segment(#[trigger] phs[j]) ==> {
                &&& plan.dest_start <= phs[j].p_paddr
                &&& phs[j].p_paddr + phs[j].p_memsz <= plan.dest_start + plan.num_pages * 4096
            }
            // No page of the range is superfluous: some load segment starts in
            // its first page and some load segment ends in its last page.
            &&& exists|j: int| 0 <= j < phs.len() && is_load_segment(#[trigger] phs[j])
                && phs[j].p_paddr < plan.dest_start + 4096
            &&& exists|j: int| 0 <= j < phs.len() && is_load_segment(#[trigger] phs[j])
                && phs[j].p_paddr + phs[j].p_memsz > plan.dest_start + (plan.num_pages - 1) * 4096
        }),
{
    let phs = e.program_headers;
    lemma_load_bounds(phs);
    let lo = lowest_load_start(phs);
    let hi = highest_load_end(phs);
    crate::pages::lemma_align_bounds(lo);
    crate::pages::lemma_align_bounds(hi);
    let start = align_down(lo);
    let end = align_up(hi);
    assert((end - start) % 4096 == 0);
    assert(((end - start) / 4096) * 4096 == end - start);
    let a = choose|k: int| 0 <= k < phs.len() && is_load_segment(#[trigger] phs[k]) && phs[k].p_paddr == lo;
    let b = choose|k: int| 0 <= k < phs.len() && is_load_segment(#[trigger] phs[k]) && phs[k].p_paddr + phs[k].p_memsz == hi;
    assert(phs[a].p_paddr < start + 4096);
    assert(phs[b].p_paddr + phs[b].p_memsz > end - 4096);
}

/// Placement and copies, stated over the program headers themselves: where the kernel is accepted, the allocation starts
/// on a page boundary, spans whole pages, and holds the physical range of
/// every load segment (`PT_LOAD` with a nonzero memory size), with no page to
/// spare at either end; the entry point is the file's entry point and lies in
/// the virtual range of an executable load segment; and the copies are, in
/// program-header order, one per load segment, each taking that segment's
/// physical address, file offset, file size and memory size.
pub proof fn lemma_plan_places_load_segments(e: ElfFileView, data_len: int)
    requires
        kernel_plan_spec(e, data_len) is Ok,
        0 <= data_len <= usize::MAX,
    ensures
        ({
            let plan = kernel_plan_spec(e, data_len)->Ok_0;
            let phs = e.program_headers;
            let loads = phs.filter(|p: ProgramHeader| p.p_type == PT_LOAD && p.p_memsz != 0);
            &&& plan.dest_start % 4096 == 0
            &&& plan.entry_point == e.entry
            &&& exists|j: int| 0 <= j < phs.len() && #[trigger] phs[j].p_type == PT_LOAD && phs[j].p_memsz != 0
                && phs[j].p_flags & PF_X != 0 && phs[j].p_vaddr <= e.entry < phs[j].p_vaddr + phs[j].p_memsz
            &&& forall|j: int| 0 <= j < phs.len() && #[trigger] phs[j].p_type == PT_LOAD && phs[j].p_memsz != 0 ==> {
                &&& plan.dest_start <= phs[j].p_paddr
                &&& phs[j].p_paddr + phs[j].p_memsz <= plan.dest_start + plan.num_pages * 4096
            }
            // No page of the range is superfluous: some load segment starts in
            // its first page and some load segment ends in its last page.
            &&& exists|j: int| 0 <= j < phs.len() && #[trigger] phs[j].p_type == PT_LOAD && phs[j].p_memsz != 0
                && phs[j].p_paddr < plan.dest_start + 4096
            &&& exists|j: int| 0 <= j < phs.len() && #[trigger] phs[j].p_type == PT_LOAD && phs[j].p_memsz != 0
                && phs[j].p_paddr + phs[j].p_memsz > plan.dest_start + (plan.num_pages - 1) * 4096
            &&& plan.segments.len() == loads.len()
            &&& forall|k: int| 0 <= k < loads.len() ==> {
                &&& (#[trigger] plan.segments[k]).dest == loads[k].p_paddr
                &&& plan.segments[k].file_offset == loads[k].p_offset
                &&& plan.segments[k].file_size == loads[k].p_filesz
                &&& plan.segments[k].mem_size == loads[k].p_memsz
            }
        }),
{
    let phs = e.program_headers;
    let plan = kernel_plan_spec(e, data_len)->Ok_0;
    lemma_load_bounds(phs);
    let lo = lowest_load_start(phs);
    let hi = highest_load_end(phs);
    crate::pages::lemma_align_bounds(lo);
    crate::pages::lemma_align_bounds(hi);
    let start = align_down(lo);
    let end = align_up(hi);
    assert((end - start) % 4096 == 0);
    assert(((end - start) / 4096) * 4096 == end - start);
    let a = choose|k: int| 0 <= k < phs.len() && is_load_segment(#[trigger] phs[k]) && phs[k].p_paddr == lo;
    let b = choose|k: int| 0 <= k < phs.len() && is_load_segment(#[trigger] phs[k]) && phs[k].p_paddr + phs[k].p_memsz == hi;
    assert(phs[a].p_paddr < start + 4096);
    assert(phs[b].p_paddr + phs[b].p_memsz > end - 4096);
    assert(phs[a].p_type == PT_LOAD && phs[a].p_memsz != 0);
    assert(phs[b].p_type == PT_LOAD && phs[b].p_memsz != 0);
    let w = choose|i: int| 0 <= i < phs.len() && holds_entry(#[trigger] phs[i], e.entry);
    assert(phs[w].p_type == PT_LOAD && phs[w].p_memsz != 0);
    // The copies.
    let pred = |p: ProgramHeader| p.p_type == PT_LOAD && p.p_memsz != 0;
    let loads = phs.filter(pred);
    lemma_load_copies_are_mapped_loads(phs, pred);
    assert forall|k: int| 0 <= k < loads.len() implies {
        &&& (#[trigger] plan.segments[k]).dest == loads[k].p_paddr
        &&& plan.segments[k].file_offset == loads[k].p_offset
        &&& plan.segments[k].file_size == loads[k].p_filesz
        &&& plan.segments[k].mem_size == loads[k].p_memsz
    } by {
        phs.lemma_filter_pred(pred, k);
        assert(loads.contains(loads[k]));
        phs.lemma_filter_contains_rev(pred, loads[k]);
        let j = choose|j: int| 0 <= j < phs.len() && phs[j] == loads[k];
        assert(is_load_segment(phs[j]));
        assert(!segment_malformed(phs[j], data_len));
        assert(plan.segments[k] == segment_copy(loads[k]));
    }
}

/// `load_copies(s)` maps the load segments of `s`, selected by `pred`, to their copies.
proof fn lemma_load_copies_are_mapped_loads(s: Seq<ProgramHeader>, pred: spec_fn(ProgramHeader) -> bool)
    requires
        forall|p: ProgramHeader| #[trigger] pred(p) == is_load_segment(p),
    ensures
        load_copies(s) == s.filter(pred).map_values(|p: ProgramHeader| segment_copy(p)),
        load_copies(s).len() == s.filter(pred).len(),
    decreases s.len(),
{
    reveal_with_fuel(Seq::filter, 1);
    if s.len() > 0 {
        let r = s.drop_last();
        lemma_load_copies_are_mapped_loads(r, pred);
        let f = |p: ProgramHeader| segment_copy(p);
        if pred(s.last()) {
            assert(r.filter(pred).push(s.last()).map_values(f) =~= r.filter(pred).map_values(f).push(f(s.last())));
        }
    } else {
        assert(s.filter(pred).map_values(|p: ProgramHeader| segment_copy(p)) =~= Seq::<SegmentCopy>::empty());
    }
}

/// Acceptance: on a 64-bit target, a kernel file is accepted exactly when it
/// is a little-endian ELF64 x86-64 executable; every load segment (`PT_LOAD`
/// with a nonzero memory size) has no more file bytes than memory bytes, lies
/// within the file, and has a virtual end and a physical end rounded up to a
/// page that fit in 64 bits; there is a load segment; and the entry point lies
/// in the virtual range `[p_vaddr, p_vaddr + p_memsz)` of an executable load
/// segment, whatever that segment's physical address.
pub proof fn lemma_kernel_accepted_exactly_when(e: ElfFileView, data_len: int)
    requires
        0 <= data_len <= usize::MAX,
        usize::MAX == u64::MAX,
    ensures
        kernel_plan_spec(e, data_len) is Ok <==> {
            let phs = e.program_headers;
            &&& e.is_64 && e.little_endian && e.e_machine == 62 && e.e_type == 2
            &&& forall|i: int| 0 <= i < phs.len() && #[trigger] phs[i].p_type == 1 && phs[i].p_memsz != 0 ==> {
                &&& phs[i].p_filesz <= phs[i].p_memsz
                &&& phs[i].p_offset + phs[i].p_filesz <= data_len
                &&& phs[i].p_vaddr + phs[i].p_memsz <= u64::MAX
                &&& phs[i].p_paddr + phs[i].p_memsz + 4095 <= u64::MAX
            }
            &&& exists|i: int| 0 <= i < phs.len() && #[trigger] phs[i].p_type == 1 && phs[i].p_memsz != 0
            &&& exists|i: int| 0 <= i < phs.len() && #[trigger] phs[i].p_type == 1 && phs[i].p_memsz != 0
                && phs[i].p_flags & 1 != 0 && phs[i].p_vaddr <= e.entry < phs[i].p_vaddr + phs[i].p_memsz
        },
{
    let phs = e.program_headers;
    lemma_load_bounds(phs);
    let all_sound = forall|i: int| 0 <= i < phs.len() && #[trigger] phs[i].p_type == 1 && phs[i].p_memsz != 0 ==> {
        &&& phs[i].p_filesz <= phs[i].p_memsz
        &&& phs[i].p_offset + phs[i].p_filesz <= data_len
        &&& phs[i].p_vaddr + phs[i].p_memsz <= u64::MAX
        &&& phs[i].p_paddr + phs[i].p_memsz + 4095 <= u64::MAX
    };
    let has_load = exists|i: int| 0 <= i < phs.len() && #[trigger] phs[i].p_type == 1 && phs[i].p_memsz != 0;
    let has_entry = exists|i: int| 0 <= i < phs.len() && #[trigger] phs[i].p_type == 1 && phs[i].p_memsz != 0
        && phs[i].p_flags & 1 != 0 && phs[i].p_vaddr <= e.entry < phs[i].p_vaddr + phs[i].p_memsz;
    if has_load {
        let i = choose|i: int| 0 <= i < phs.len() && #[trigger] phs[i].p_type == 1 && phs[i].p_memsz != 0;
        assert(is_load_segment(phs[i]));
    }
    if some_load(phs) {
        let i = choose|i: int| 0 <= i < phs.len() && is_load_segment(#[trigger] phs[i]);
        assert(phs[i].p_type == 1 && phs[i].p_memsz != 0);
    }
    assert(has_load == some_load(phs));
    if has_entry {
        let i = choose|i: int| 0 <= i < phs.len() && #[trigger] phs[i].p_type == 1 && phs[i].p_memsz != 0
            && phs[i].p_flags & 1 != 0 && phs[i].p_vaddr <= e.entry < phs[i].p_vaddr + phs[i].p_memsz;
        assert(holds_entry(phs[i], e.entry));
    }
    if some_entry_segment(phs, e.entry) {
        let i = choose|i: int| 0 <= i < phs.len() && holds_entry(#[trigger] phs[i], e.entry);
        assert(phs[i].p_type == 1 && phs[i].p_memsz != 0);
    }
    assert(has_entry == some_entry_segment(phs, e.entry));
    if kernel_plan_spec(e, data_len) is Ok {
        assert forall|i: int| 0 <= i < phs.len() && #[trigger] phs[i].p_type == 1 && phs[i].p_memsz != 0 implies {
            &&& phs[i].p_filesz <= phs[i].p_memsz
            &&& phs[i].p_offset + phs[i].p_filesz <= data_len
            &&& phs[i].p_vaddr + phs[i].p_memsz <= u64::MAX
            &&& phs[i].p_paddr + phs[i].p_memsz + 4095 <= u64::MAX
        } by {
            assert(is_load_segment(phs[i]));
            if segment_malformed(phs[i], data_len) {
                assert(some_load_malformed(phs, data_len));
            }
        }
    }
    if header_supported(e) && all_sound && has_load && has_entry {
        if some_load_malformed(phs, data_len) {
            let i = choose|i: int| 0 <= i < phs.len() && is_load_segment(phs[i]) && segment_malformed(#[trigger] phs[i], data_len);
            assert(phs[i].p_type == 1 && phs[i].p_memsz != 0);
        }
        let b = choose|k: int| 0 <= k < phs.len() && is_load_segment(#[trigger] phs[k]) && phs[k].p_paddr + phs[k].p_memsz == highest_load_end(phs);
        assert(phs[b].p_type == 1 && phs[b].p_memsz != 0);
        let lo = lowest_load_start(phs);
        let hi = highest_load_end(phs);
        crate::pages::lemma_align_bounds(lo);
        crate::pages::lemma_align_bounds(hi);
        assert(align_up(hi) <= u64::MAX);
        assert((align_up(hi) - align_down(lo)) / 4096 <= u64::MAX);
    }
}

/// Rejections, in the order the loader checks: a file that is not a
/// little-endian ELF64 x86-64 executable is `InvalidFormat`; otherwise a load
/// segment with more file bytes than memory bytes, file bytes beyond the file,
/// or an overflowing file, physical or virtual end is `InvalidSegment`;
/// otherwise a file without load segments is `NoLoadableSegments`; otherwise a
/// file whose entry point lies in no executable load segment's virtual range is
/// `InvalidEntryPoint`; otherwise a physical end that cannot be rounded up to a
/// page within 64 bits is `InvalidSegment`.
pub proof fn lemma_kernel_rejections(e: ElfFileView, data_len: int)
    requires
        0 <= data_len <= usize::MAX,
    ensures
        ({
            let phs = e.program_headers;
            let supported = e.is_64 && e.little_endian && e.e_machine == 62 && e.e_type == 2;
            let bad_segment = exists|i: int| 0 <= i < phs.len() && #[trigger] phs[i].p_type == 1 && phs[i].p_memsz != 0 && {
                ||| phs[i].p_filesz > phs[i].p_memsz
                ||| phs[i].p_offset + phs[i].p_filesz > data_len
                ||| phs[i].p_paddr + phs[i].p_memsz > u64::MAX
                ||| phs[i].p_vaddr + phs[i].p_memsz > u64::MAX
            };
            let has_load = exists|i: int| 0 <= i < phs.len() && #[trigger] phs[i].p_type == 1 && phs[i].p_memsz != 0;
            let has_entry = exists|i: int| 0 <= i < phs.len() && #[trigger] phs[i].p_type == 1 && phs[i].p_memsz != 0
                && phs[i].p_flags & 1 != 0 && phs[i].p_vaddr <= e.entry < phs[i].p_vaddr + phs[i].p_memsz;
            let end_overflows = exists|i: int| 0 <= i < phs.len() && #[trigger] phs[i].p_type == 1 && phs[i].p_memsz != 0
                && phs[i].p_paddr + phs[i].p_memsz + 4095 > u64::MAX;
            &&& !supported ==> kernel_plan_spec(e, data_len) == Err::<KernelPlanView, KernelLoadError>(KernelLoadError::InvalidFormat)
            &&& supported && bad_segment ==> kernel_plan_spec(e, data_len) == Err::<KernelPlanView, KernelLoadError>(KernelLoadError::InvalidSegment)
            &&& supported && !bad_segment && !has_load ==> kernel_plan_spec(e, data_len) == Err::<KernelPlanView, KernelLoadError>(KernelLoadError::NoLoadableSegments)
            &&& supported && !bad_segment && has_load && !has_entry ==> kernel_plan_spec(e, data_len) == Err::<KernelPlanView, KernelLoadError>(KernelLoadError::InvalidEntryPoint)
            &&& supported && !bad_segment && has_entry && end_overflows ==> kernel_plan_spec(e, data_len) == Err::<KernelPlanView, KernelLoadError>(KernelLoadError::InvalidSegment)
        }),
{
    let phs = e.program_headers;
    lemma_load_bounds(phs);
    let bad_segment = exists|i: int| 0 <= i < phs.len() && #[trigger] phs[i].p_type == 1 && phs[i].p_memsz != 0 && {
        ||| phs[i].p_filesz > phs[i].p_memsz
        ||| phs[i].p_offset + phs[i].p_filesz > data_len
        ||| phs[i].p_paddr + phs[i].p_memsz > u64::MAX
        ||| phs[i].p_vaddr + phs[i].p_memsz > u64::MAX
    };
    let has_load = exists|i: int| 0 <= i < phs.len() && #[trigger] phs[i].p_type == 1 && phs[i].p_memsz != 0;
    let has_entry = exists|i: int| 0 <= i < phs.len() && #[trigger] phs[i].p_type == 1 && phs[i].p_memsz != 0
        && phs[i].p_flags & 1 != 0 && phs[i].p_vaddr <= e.entry < phs[i].p_vaddr + phs[i].p_memsz;
    let end_overflows = exists|i: int| 0 <= i < phs.len() && #[trigger] phs[i].p_type == 1 && phs[i].p_memsz != 0
        && phs[i].p_paddr + phs[i].p_memsz + 4095 > u64::MAX;
    if bad_segment {
        let i = choose|i: int| 0 <= i < phs.len() && #[trigger] phs[i].p_type == 1 && phs[i].p_memsz != 0 && {
            ||| phs[i].p_filesz > phs[i].p_memsz
            ||| phs[i].p_offset + phs[i].p_filesz > data_len
            ||| phs[i].p_paddr + phs[i].p_memsz > u64::MAX
            ||| phs[i].p_vaddr + phs[i].p_memsz > u64::MAX
        };
        assert(is_load_segment(phs[i]) && segment_malformed(phs[i], data_len));
        assert(some_load_malformed(phs, data_len));
    }
    if some_load_malformed(phs, data_len) {
        let i = choose|i: int| 0 <= i < phs.len() && is_load_segment(phs[i]) && segment_malformed(#[trigger] phs[i], data_len);
        assert(phs[i].p_type == 1 && phs[i].p_memsz != 0);
    }
    if has_load {
        let i = choose|i: int| 0 <= i < phs.len() && #[trigger] phs[i].p_type == 1 && phs[i].p_memsz != 0;
        assert(is_load_segment(phs[i]));
    }
    if some_load(phs) {
        let i = choose|i: int| 0 <= i < phs.len() && is_load_segment(#[trigger] phs[i]);
        assert(phs[i].p_type == 1 && phs[i].p_memsz != 0);
    }
    if has_entry {
        let i = choose|i: int| 0 <= i < phs.len() && #[trigger] phs[i].p_type == 1 && phs[i].p_memsz != 0
            && phs[i].p_flags & 1 != 0 && phs[i].p_vaddr <= e.entry < phs[i].p_vaddr + phs[i].p_memsz;
        assert(holds_entry(phs[i], e.entry));
    }
    if some_entry_segment(phs, e.entry) {
        let i = choose|i: int| 0 <= i < phs.len() && holds_entry(#[trigger] phs[i], e.entry);
        assert(phs[i].p_type == 1 && phs[i].p_memsz != 0);
    }
    if end_overflows {
        let i = choose|i: int| 0 <= i < phs.len() && #[trigger] phs[i].p_type == 1 && phs[i].p_memsz != 0
            && phs[i].p_paddr + phs[i].p_memsz + 4095 > u64::MAX;
        assert(is_load_segment(phs[i]));
        assert(highest_load_end(phs) + 4095 > u64::MAX);
    }
}

/// Bounded copies: where the kernel is accepted, every copy reads only bytes
/// of the file, writes no more file bytes than the segment's memory size, and
/// writes only inside the allocated range.
pub proof fn lemma_plan_copies_in_bounds(e: ElfFileView, data_len: int)
    requires
        0 <= data_len <= usize::MAX,
        kernel_plan_spec(e, data_len) is Ok,
    ensures
        ({
            let plan = kernel_plan_spec(e, data_len)->Ok_0;
            forall|k: int| 0 <= k < plan.segments.len() ==> {
                let c = #[trigger] plan.segments[k];
                &&& c.file_offset + c.file_size <= data_len
                &&& c.file_size <= c.mem_size
                &&& plan.dest_start <= c.dest
                &&& c.dest + c.mem_size <= plan.dest_start + plan.num_pages * 4096
            }
        }),
{
    let phs = e.program_headers;
    let plan = kernel_plan_spec(e, data_len)->Ok_0;
    lemma_plan_covers_load_segments(e, data_len);
    lemma_load_copies_from_segments(phs);
    assert forall|k: int| 0 <= k < plan.segments.len() implies {
        let c = #[trigger] plan.segments[k];
        &&& c.file_offset + c.file_size <= data_len
        &&& c.file_size <= c.mem_size
        &&& plan.dest_start <= c.dest
        &&& c.dest + c.mem_size <= plan.dest_start + plan.num_pages * 4096
    } by {
        assert(copies_a_load_segment(phs, load_copies(phs)[k]));
        let j = choose|j: int| 0 <= j < phs.len() && is_load_segment(#[trigger] phs[j]) && load_copies(phs)[k] == segment_copy(phs[j]);
        assert(!segment_malformed(phs[j], data_len));
    }
}

/// The load segments of `s`, in order.
pub open spec fn load_segments(s: Seq<ProgramHeader>) -> Seq<ProgramHeader> {
    s.filter(|p: ProgramHeader| is_load_segment(p))
}

/// Unfolds `load_segments` by one program header.
proof fn lemma_load_segments_step(s: Seq<ProgramHeader>)
    requires
        s.len() > 0,
    ensures
        load_segments(s) == (if is_load_segment(s.last()) {
            load_segments(s.drop_last()).push(s.last())
        } else {
            load_segments(s.drop_last())
        }),
{
    reveal_with_fuel(Seq::filter, 1);
}

/// The lowest start, highest end and copies of `s` are those of its load segments.
proof fn lemma_folds_over_load_segments(s: Seq<ProgramHeader>)
    ensures
        lowest_load_start(s) == lowest_load_start(load_segments(s)),
        highest_load_end(s) == highest_load_end(load_segments(s)),
        load_copies(s) == load_copies(load_segments(s)),
    decreases s.len(),
{
    if s.len() == 0 {
        reveal_with_fuel(Seq::filter, 1);
        assert(load_segments(s) == s);
    } else {
        let r = s.drop_last();
        let p = s.last();
        lemma_folds_over_load_segments(r);
        lemma_load_segments_step(s);
        if is_load_segment(p) {
            let t = load_segments(r).push(p);
            assert(t.drop_last() == load_segments(r));
            assert(t.last() == p);
        }
    }
}

/// Some program header of `s` satisfies `q`, a property only load segments have,
/// exactly where some load segment of `s` does.
proof fn lemma_exists_over_load_segments(s: Seq<ProgramHeader>, q: spec_fn(ProgramHeader) -> bool)
    requires
        forall|p: ProgramHeader| #[trigger] q(p) ==> is_load_segment(p),
    ensures
        (exists|i: int| 0 <= i < s.len() && #[trigger] q(s[i])) <==> (exists|i: int|
            0 <= i < load_segments(s).len() && #[trigger] q(load_segments(s)[i])),
{
    let ls = load_segments(s);
    let pred = |p: ProgramHeader| is_load_segment(p);
    if exists|i: int| 0 <= i < s.len() && #[trigger] q(s[i]) {
        let i = choose|i: int| 0 <= i < s.len() && #[trigger] q(s[i]);
        s.lemma_filter_contains(pred, i);
        assert(ls.contains(s[i]));
        let j = choose|j: int| 0 <= j < ls.len() && ls[j] == s[i];
        assert(q(ls[j]));
    }
    if exists|j: int| 0 <= j < ls.len() && #[trigger] q(ls[j]) {
        let j = choose|j: int| 0 <= j < ls.len() && #[trigger] q(ls[j]);
        assert(ls.contains(ls[j]));
        s.lemma_filter_contains_rev(pred, ls[j]);
        let i = choose|i: int| 0 <= i < s.len() && s[i] == ls[j];
        assert(q(s[i]));
    }
}

/// Only load segments decide: two files with the same header fields and the
/// same load segments in the same order, read from files of the same length,
/// get the same decision, however their other program headers differ.
pub proof fn lemma_plan_depends_only_on_load_segments(e1: ElfFileView, e2: ElfFileView, data_len: int)
    requires
        e1.is_64 == e2.is_64,
        e1.little_endian == e2.little_endian,
        e1.e_machine == e2.e_machine,
        e1.e_type == e2.e_type,
        e1.entry == e2.entry,
        load_segments(e1.program_headers) == load_segments(e2.program_headers),
    ensures
        kernel_plan_spec(e1, data_len) == kernel_plan_spec(e2, data_len),
{
    let s1 = e1.program_headers;
    let s2 = e2.program_headers;
    let ls = load_segments(s1);
    lemma_folds_over_load_segments(s1);
    lemma_folds_over_load_segments(s2);
    let malformed = |p: ProgramHeader| is_load_segment(p) && segment_malformed(p, data_len);
    let load = |p: ProgramHeader| is_load_segment(p);
    let entry = |p: ProgramHeader| holds_entry(p, e1.entry);
    lemma_exists_over_load_segments(s1, malformed);
    lemma_exists_over_load_segments(s2, malformed);
    lemma_exists_over_load_segments(s1, load);
    lemma_exists_over_load_segments(s2, load);
    lemma_exists_over_load_segments(s1, entry);
    lemma_exists_over_load_segments(s2, entry);
    assert(some_load_malformed(s1, data_len) == some_load_malformed(s2, data_len)) by {
        if some_load_malformed(s1, data_len) {
            let i = choose|i: int| 0 <= i < s1.len() && is_load_segment(s1[i]) && segment_malformed(#[trigger] s1[i], data_len);
            assert(malformed(s1[i]));
        }
        assert(some_load_malformed(s1, data_len) == exists|i: int| 0 <= i < s1.len() && #[trigger] malformed(s1[i]));
        if some_load_malformed(s2, data_len) {
            let i = choose|i: int| 0 <= i < s2.len() && is_load_segment(s2[i]) && segment_malformed(#[trigger] s2[i], data_len);
            assert(malformed(s2[i]));
        }
        assert(some_load_malformed(s2, data_len) == exists|i: int| 0 <= i < s2.len() && #[trigger] malformed(s2[i]));
    }
    assert(some_load(s1) == some_load(s2)) by {
        if some_load(s1) {
            let i = choose|i: int| 0 <= i < s1.len() && is_load_segment(#[trigger] s1[i]);
            assert(load(s1[i]));
        }
        assert(some_load(s1) == exists|i: int| 0 <= i < s1.len() && #[trigger] load(s1[i]));
        if some_load(s2) {
            let i = choose|i: int| 0 <= i < s2.len() && is_load_segment(#[trigger] s2[i]);
            assert(load(s2[i]));
        }
        assert(some_load(s2) == exists|i: int| 0 <= i < s2.len() && #[trigger] load(s2[i]));
    }
    assert(some_entry_segment(s1, e1.entry) == some_entry_segment(s2, e2.entry)) by {
        if some_entry_segment(s1, e1.entry) {
            let i = choose|i: int| 0 <= i < s1.len() && holds_entry(#[trigger] s1[i], e1.entry);
            assert(entry(s1[i]));
        }
        assert(some_entry_segment(s1, e1.entry) == exists|i: int| 0 <= i < s1.len() && #[trigger] entry(s1[i]));
        if some_entry_segment(s2, e2.entry) {
            let i = choose|i: int| 0 <= i < s2.len() && holds_entry(#[trigger] s2[i], e2.entry);
            assert(entry(s2[i]));
        }
        assert(some_entry_segment(s2, e2.entry) == exists|i: int| 0 <= i < s2.len() && #[trigger] entry(s2[i]));
    }
}

/// Adding a program header that is not a load segment (any `p_type` other than
/// `PT_LOAD`, or an empty memory size), anywhere among the program headers,
/// leaves the decision on a file of the same length unchanged, whatever the
/// added header's other fields hold.
pub proof fn lemma_plan_ignores_added_non_load_header(e: ElfFileView, extra: ProgramHeader, at: int, data_len: int)
    requires
        0 <= at <= e.program_headers.len(),
        !is_load_segment(extra),
    ensures
        kernel_plan_spec(e, data_len) == kernel_plan_spec(
            ElfFileView { program_headers: e.program_headers.insert(at, extra), ..e },
            data_len,
        ),
{
    let s = e.program_headers;
    let t = s.insert(at, extra);
    let pred = |p: ProgramHeader| is_load_segment(p);
    let front = s.take(at);
    let back = s.skip(at);
    assert(s == front + back);
    assert(t == front + (seq![extra] + back));
    Seq::filter_distributes_over_add(front, back, pred);
    Seq::filter_distributes_over_add(front, seq![extra] + back, pred);
    Seq::filter_distributes_over_add(seq![extra], back, pred);
    assert(seq![extra].filter(pred) == Seq::<ProgramHeader>::empty()) by {
        reveal_with_fuel(Seq::filter, 2);
        assert(seq![extra].drop_last() == Seq::<ProgramHeader>::empty());
    }
    assert(Seq::<ProgramHeader>::empty() + back.filter(pred) == back.filter(pred));
    lemma_plan_depends_only_on_load_segments(e, ElfFileView { program_headers: t, ..e }, data_len);
}

/// Loaded kernel ELF metadata.
#[derive(Copy, Clone, Debug)]
pub struct Elf {
    /// Virtual entry-point address from the ELF header.
    entry_point: u64,
    /// Base address of the loaded kernel image.
    file_base: u64,
    /// Number of physical pages occupied by the loaded image.
    num_pages: usize,
}

impl Elf {
    /// The virtual entry-point address.
    pub closed spec fn spec_entry(&self) -> u64 {
        self.entry_point
    }

    /// The physical load address.
    pub closed spec fn spec_base(&self) -> u64 {
        self.file_base
    }

    /// The number of pages of the loaded image.
    pub closed spec fn spec_num_pages(&self) -> usize {
        self.num_pages
    }

    /// Retrieve the virtual entry-point address.
    pub fn entry(&self) -> (entry: u64)
        ensures
            entry == self.spec_entry(),
    {
        self.entry_point
    }

    /// Retrieve the physical load address.
    pub fn base(&self) -> (base: u64)
        ensures
            base == self.spec_base(),
    {
        self.file_base
    }

    /// Retrieve number of pages
    pub fn num_pages(&self) -> (num_pages: usize)
        ensures
            num_pages == self.spec_num_pages(),
    {
        self.num_pages
    }

    /// Parse a 64-bit kernel ELF and validate its load segments, deciding where
    /// the image goes before anything is allocated or copied.
    pub fn plan_load(data: &[u8]) -> (res: Result<KernelPlan, LoaderError>)
        ensures
            match goblin_elf_parse(data@) {
                None => res matches Err(LoaderError::Goblin(_)),
                Some(file) => match kernel_plan_spec(file, data@.len() as int) {
                    Ok(plan) => res matches Ok(p) && p@ == plan,
                    Err(e) => res matches Err(LoaderError::KernelLoad(k)) && k == e,
                },
            },
    {
        let elf = match parse_elf(data) {
            Ok(elf) => elf,
            Err(err) => return Err(LoaderError::Goblin(err)),
        };
        match elf.kernel_plan(data.len()) {
            Ok(plan) => Ok(plan),
            Err(err) => Err(LoaderError::KernelLoad(err)),
        }
    }

    /// The kernel described by `plan`, once its pages were allocated at
    /// `file_base` and its segments copied there.
    pub fn loaded(plan: &KernelPlan, file_base: u64) -> (elf: Elf)
        ensures
            elf.spec_entry() == plan.entry_point,
            elf.spec_base() == file_base,
            elf.spec_num_pages() == plan.num_pages,
    {
        Elf { entry_point: plan.entry_point, file_base, num_pages: plan.num_pages }
    }
}

} // verus!
