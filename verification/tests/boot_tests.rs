use telos::framebuffer::{describe_framebuffer, framebuffer_format, GopPixelFormat, PixelFormat};
use telos::log_level::{Color, LogLevel, Palette};
use telos::memory::{BootInfo, MemoryDescriptor, MemoryMap, MemoryType};
use telos::pages::page_count;
use telos::stack::{kernel_stack_pages, KernelStack};

#[test]
fn page_counts_round_up() {
    assert_eq!(page_count(0), 0);
    assert_eq!(page_count(1), 1);
    assert_eq!(page_count(4096), 1);
    assert_eq!(page_count(4097), 2);
    assert_eq!(page_count(usize::MAX), usize::MAX / 4096 + 1);
}

#[test]
fn kernel_stack_of_16_kib() {
    let pages = kernel_stack_pages(16 * 1024);
    assert_eq!(pages, 4);
    let stack = KernelStack::new(0x8000_0000, pages);
    assert_eq!(stack.bottom(), 0x8000_0000);
    assert_eq!(stack.top(), 0x8000_4000);
    assert_eq!(stack.num_pages(), 4);
    assert_eq!(stack.top() % 16, 0);
    assert_eq!(kernel_stack_pages(1), 1);
    assert_eq!(kernel_stack_pages(4097), 2);
}

#[test]
fn descriptor_end() {
    let d = MemoryDescriptor { phys_start: 0x1000, num_pages: 3, memory_type: MemoryType::Available };
    assert_eq!(d.end(), Some(0x4000));
    let d = MemoryDescriptor { phys_start: u64::MAX - 0xfff, num_pages: 1, memory_type: MemoryType::Reserved };
    assert_eq!(d.end(), None);
    let d = MemoryDescriptor { phys_start: 0, num_pages: u64::MAX / 4096 + 1, memory_type: MemoryType::Reserved };
    assert_eq!(d.end(), None);
}

static GOOD: [MemoryDescriptor; 3] = [
    MemoryDescriptor { phys_start: 0x0, num_pages: 16, memory_type: MemoryType::Reserved },
    MemoryDescriptor { phys_start: 0x10000, num_pages: 2, memory_type: MemoryType::KernelCode },
    MemoryDescriptor { phys_start: 0x20000, num_pages: 4, memory_type: MemoryType::Available },
];
static OVERLAPPING: [MemoryDescriptor; 2] = [
    MemoryDescriptor { phys_start: 0x10000, num_pages: 2, memory_type: MemoryType::KernelCode },
    MemoryDescriptor { phys_start: 0x11000, num_pages: 2, memory_type: MemoryType::Available },
];
static UNALIGNED: [MemoryDescriptor; 1] =
    [MemoryDescriptor { phys_start: 0x10010, num_pages: 2, memory_type: MemoryType::Loader }];
static OVERFLOWING: [MemoryDescriptor; 1] =
    [MemoryDescriptor { phys_start: u64::MAX - 0xfff, num_pages: 1, memory_type: MemoryType::KernelData }];

#[test]
fn memory_map_well_formedness() {
    assert!(MemoryMap { descriptors: &GOOD }.is_well_formed());
    assert!(MemoryMap { descriptors: &[] }.is_well_formed());
    assert!(!MemoryMap { descriptors: &OVERLAPPING }.is_well_formed());
    assert!(!MemoryMap { descriptors: &UNALIGNED }.is_well_formed());
    assert!(!MemoryMap { descriptors: &OVERFLOWING }.is_well_formed());
}

#[test]
fn boot_info_hands_over_the_writer_once() {
    let mut info = BootInfo { writer: Some(7u32) };
    assert_eq!(info.take_writer(), Some(7));
    assert_eq!(info.take_writer(), None);
}

#[test]
fn gop_formats() {
    assert_eq!(framebuffer_format(GopPixelFormat::Rgb), (PixelFormat::Rgb32bit, 4));
    assert_eq!(framebuffer_format(GopPixelFormat::Bgr), (PixelFormat::Bgr32bit, 4));
    let info = describe_framebuffer(0xc000_0000, 1024 * 768 * 4, (1024, 768), 1024, GopPixelFormat::Bgr);
    assert_eq!(info.width, 1024);
    assert_eq!(info.height, 768);
    assert_eq!(info.stride, 1024);
    assert_eq!(info.format, PixelFormat::Bgr32bit);
    assert_eq!(info.bytes_per_pixel, 4);
    assert_eq!(info.base, 0xc000_0000);
}

#[test]
fn log_levels_and_colors() {
    assert!(LogLevel::Error.is_enabled());
    assert!(LogLevel::Warn.is_enabled());
    assert!(LogLevel::Info.is_enabled());
    assert!(!LogLevel::Debug.is_enabled());
    assert!(!LogLevel::Trace.is_enabled());
    let c = |v: u8| Color { red: v, green: v, blue: v };
    let palette = Palette { error: c(1), warn: c(2), info: c(3), debug: c(4) };
    assert_eq!(palette.color_for(LogLevel::Error), c(1));
    assert_eq!(palette.color_for(LogLevel::Warn), c(2));
    assert_eq!(palette.color_for(LogLevel::Info), c(3));
    assert_eq!(palette.color_for(LogLevel::Debug), c(4));
    assert_eq!(palette.color_for(LogLevel::Trace), c(4));
    assert_eq!(palette.record_colors(LogLevel::Warn, (c(9), c(0))), (c(2), c(0)));
}
