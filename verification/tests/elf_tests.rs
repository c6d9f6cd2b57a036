use telos::elf::{ElfFile, Elf, KernelPlan, ProgramHeader, SegmentCopy, EM_X86_64, ET_EXEC, PF_X, PT_LOAD};
use telos::error::{KernelLoadError, LoaderError};

fn load(paddr: u64, vaddr: u64, offset: u64, filesz: u64, memsz: u64, flags: u32) -> ProgramHeader {
    ProgramHeader::new(PT_LOAD, flags, offset, vaddr, paddr, filesz, memsz)
}

fn kernel(entry: u64, program_headers: Vec<ProgramHeader>) -> ElfFile {
    ElfFile { is_64: true, little_endian: true, e_machine: EM_X86_64, e_type: ET_EXEC, entry, program_headers }
}

fn push_u16(v: &mut Vec<u8>, x: u16) {
    v.extend_from_slice(&x.to_le_bytes());
}
fn push_u32(v: &mut Vec<u8>, x: u32) {
    v.extend_from_slice(&x.to_le_bytes());
}
fn push_u64(v: &mut Vec<u8>, x: u64) {
    v.extend_from_slice(&x.to_le_bytes());
}

/// A minimal little-endian ELF64 x86-64 executable with one load segment that
/// covers the whole file, entry at 0x200010.
fn tiny_kernel_file(e_type: u16) -> Vec<u8> {
    let mut v = Vec::new();
    v.extend_from_slice(&[0x7f, b'E', b'L', b'F', 2, 1, 1, 0]);
    v.extend_from_slice(&[0; 8]);
    push_u16(&mut v, e_type);
    push_u16(&mut v, 62);
    push_u32(&mut v, 1);
    push_u64(&mut v, 0x200010); // e_entry
    push_u64(&mut v, 64); // e_phoff
    push_u64(&mut v, 0); // e_shoff
    push_u32(&mut v, 0); // e_flags
    push_u16(&mut v, 64); // e_ehsize
    push_u16(&mut v, 56); // e_phentsize
    push_u16(&mut v, 1); // e_phnum
    push_u16(&mut v, 64); // e_shentsize
    push_u16(&mut v, 0); // e_shnum
    push_u16(&mut v, 0); // e_shstrndx
    assert_eq!(v.len(), 64);
    push_u32(&mut v, 1); // PT_LOAD
    push_u32(&mut v, 5); // R | X
    push_u64(&mut v, 0); // p_offset
    push_u64(&mut v, 0x200000); // p_vaddr
    push_u64(&mut v, 0x200000); // p_paddr
    push_u64(&mut v, 128); // p_filesz
    push_u64(&mut v, 0x1800); // p_memsz
    push_u64(&mut v, 0x1000); // p_align
    v.resize(128, 0x90);
    v
}

#[test]
fn plan_load_parses_and_places_a_kernel() {
    let data = tiny_kernel_file(2);
    let plan = Elf::plan_load(&data).expect("kernel accepted");
    assert_eq!(plan.entry_point, 0x200010);
    assert_eq!(plan.dest_start, 0x200000);
    assert_eq!(plan.num_pages, 2);
    assert_eq!(
        plan.segments,
        vec![SegmentCopy { dest: 0x200000, file_offset: 0, file_size: 128, mem_size: 0x1800 }]
    );
    let elf = Elf::loaded(&plan, 0x200000);
    assert_eq!(elf.entry(), 0x200010);
    assert_eq!(elf.base(), 0x200000);
    assert_eq!(elf.num_pages(), 2);
}

#[test]
fn plan_load_rejects_a_shared_object() {
    let data = tiny_kernel_file(3);
    assert!(matches!(Elf::plan_load(&data), Err(LoaderError::KernelLoad(KernelLoadError::InvalidFormat))));
}

#[test]
fn plan_load_reports_goblin_errors() {
    let data = vec![0u8; 10];
    assert!(matches!(Elf::plan_load(&data), Err(LoaderError::Goblin(_))));
    let data = b"not an elf file at all, just some text that is long enough".to_vec();
    assert!(matches!(Elf::plan_load(&data), Err(LoaderError::Goblin(_))));
}

#[test]
fn plan_rounds_to_pages_and_spans_all_segments() {
    let file = kernel(
        0x10_0100,
        vec![
            load(0x10_0010, 0x10_0010, 0x100, 0x200, 0x300, PF_X),
            ProgramHeader::new(4, 0, 0, 0, 0, 0, 0x40), // not loadable
            load(0x10_2ff0, 0x10_2ff0, 0x400, 0x10, 0x20, 0),
            load(0x5000, 0x5000, 0, 0, 0, 0), // empty: ignored
        ],
    );
    let plan: KernelPlan = file.kernel_plan(0x1000).unwrap();
    assert_eq!(plan.dest_start, 0x10_0000);
    // highest end 0x103010 rounds up to 0x104000: four pages.
    assert_eq!(plan.num_pages, 4);
    assert_eq!(plan.entry_point, 0x10_0100);
    assert_eq!(
        plan.segments,
        vec![
            SegmentCopy { dest: 0x10_0010, file_offset: 0x100, file_size: 0x200, mem_size: 0x300 },
            SegmentCopy { dest: 0x10_2ff0, file_offset: 0x400, file_size: 0x10, mem_size: 0x20 },
        ]
    );
}

#[test]
fn plan_errors() {
    let err = |f: ElfFile, len: usize| f.kernel_plan(len).unwrap_err();
    let mut f = kernel(0x1000, vec![load(0x1000, 0x1000, 0, 0x10, 0x10, PF_X)]);
    f.little_endian = false;
    assert_eq!(err(f, 0x100), KernelLoadError::InvalidFormat);
    let mut f = kernel(0x1000, vec![load(0x1000, 0x1000, 0, 0x10, 0x10, PF_X)]);
    f.is_64 = false;
    assert_eq!(err(f, 0x100), KernelLoadError::InvalidFormat);
    let mut f = kernel(0x1000, vec![load(0x1000, 0x1000, 0, 0x10, 0x10, PF_X)]);
    f.e_machine = 3;
    assert_eq!(err(f, 0x100), KernelLoadError::InvalidFormat);
    // file size beyond memory size
    assert_eq!(err(kernel(0x1000, vec![load(0x1000, 0x1000, 0, 0x20, 0x10, PF_X)]), 0x100), KernelLoadError::InvalidSegment);
    // file bytes beyond the end of the file
    assert_eq!(err(kernel(0x1000, vec![load(0x1000, 0x1000, 0xf8, 0x10, 0x10, PF_X)]), 0x100), KernelLoadError::InvalidSegment);
    // offset + filesz overflows
    assert_eq!(err(kernel(0x1000, vec![load(0x1000, 0x1000, u64::MAX, 0x10, 0x10, PF_X)]), 0x100), KernelLoadError::InvalidSegment);
    // physical end overflows
    assert_eq!(err(kernel(0x1000, vec![load(u64::MAX - 4, 0x1000, 0, 0x10, 0x10, PF_X)]), 0x100), KernelLoadError::InvalidSegment);
    // virtual end overflows
    assert_eq!(err(kernel(0x1000, vec![load(0x1000, u64::MAX - 4, 0, 0x10, 0x10, PF_X)]), 0x100), KernelLoadError::InvalidSegment);
    // a malformed segment after the entry segment still rejects the file
    assert_eq!(
        err(kernel(0x1000, vec![load(0x1000, 0x1000, 0, 0x10, 0x10, PF_X), load(0x3000, 0x3000, 0, 0x20, 0x10, 0)]), 0x100),
        KernelLoadError::InvalidSegment
    );
    // no load segment at all
    assert_eq!(err(kernel(0x1000, vec![]), 0x100), KernelLoadError::NoLoadableSegments);
    assert_eq!(err(kernel(0x1000, vec![load(0x1000, 0x1000, 0, 0, 0, PF_X)]), 0x100), KernelLoadError::NoLoadableSegments);
    // entry outside every executable segment
    assert_eq!(err(kernel(0x1010, vec![load(0x1000, 0x1000, 0, 0x10, 0x10, PF_X)]), 0x100), KernelLoadError::InvalidEntryPoint);
    assert_eq!(err(kernel(0x1000, vec![load(0x1000, 0x1000, 0, 0x10, 0x10, 0)]), 0x100), KernelLoadError::InvalidEntryPoint);
    // rounding the end up to a page overflows
    assert_eq!(
        err(kernel(0x1000, vec![load(0x1000, 0x1000, 0, 0x10, 0x10, PF_X), load(u64::MAX - 0x20, 0x5000, 0, 0, 0x10, 0)]), 0x100),
        KernelLoadError::InvalidSegment
    );
}

#[test]
fn entry_at_segment_end_is_rejected_and_start_accepted() {
    let ok = kernel(0x2000, vec![load(0x2000, 0x2000, 0, 0x10, 0x1000, PF_X | 4)]);
    assert!(ok.kernel_plan(0x10).is_ok());
    let end = kernel(0x3000, vec![load(0x2000, 0x2000, 0, 0x10, 0x1000, PF_X)]);
    assert_eq!(end.kernel_plan(0x10).unwrap_err(), KernelLoadError::InvalidEntryPoint);
}

#[test]
fn added_non_load_headers_leave_the_plan_unchanged() {
    let base = kernel(0x10_0100, vec![load(0x10_0000, 0x10_0000, 0, 0x200, 0x300, PF_X)]);
    let with_extra = kernel(
        0x10_0100,
        vec![
            ProgramHeader::new(6, 0, u64::MAX, u64::MAX, u64::MAX, u64::MAX, 0x10), // PT_PHDR, wild fields
            load(0x10_0000, 0x10_0000, 0, 0x200, 0x300, PF_X),
            load(0x9000, 0x9000, u64::MAX, 0x50, 0, 0), // empty: not loaded
        ],
    );
    let a = base.kernel_plan(0x1000).unwrap();
    let b = with_extra.kernel_plan(0x1000).unwrap();
    assert_eq!((a.entry_point, a.dest_start, a.num_pages), (b.entry_point, b.dest_start, b.num_pages));
    assert_eq!(a.segments, b.segments);
}
