//! Choice of the framebuffer pixel layout from the firmware's display mode.
use vstd::prelude::*;

verus! {

/// Pixel layouts the firmware's graphics output protocol reports.
#[derive(Debug, Clone, Copy, PartialEq, Eq, Structural)]
pub enum GopPixelFormat {
    /// Red, green, blue, reserved; 8 bits each.
    Rgb,
    /// Blue, green, red, reserved; 8 bits each.
    Bgr,
    /// Layout described by channel bit masks.
    Bitmask,
    /// No framebuffer access; block transfers only.
    BltOnly,
}

/// Pixel layouts the framebuffer writer draws in.
#[derive(Debug, Clone, Copy, PartialEq, Eq, Structural)]
pub enum PixelFormat {
    Rgb32bit,
    Bgr32bit,
}

/// The firmware layouts the loader can draw in.
pub open spec fn gop_format_supported(format: GopPixelFormat) -> bool {
    format is Rgb || format is Bgr
}

/// The writer's pixel layout and bytes per pixel for a firmware layout.
pub fn framebuffer_format(format: GopPixelFormat) -> (res: (PixelFormat, usize))
    requires
        gop_format_supported(format),
    ensures
        format is Rgb ==> res == (PixelFormat::Rgb32bit, 4usize),
        format is Bgr ==> res == (PixelFormat::Bgr32bit, 4usize),
{
    match format {
        GopPixelFormat::Rgb => (PixelFormat::Rgb32bit, 4),
        GopPixelFormat::Bgr => (PixelFormat::Bgr32bit, 4),
        GopPixelFormat::Bitmask => unreached(),
        GopPixelFormat::BltOnly => unreached(),
    }
}

/// The display mode and backing memory of the framebuffer.
#[derive(Debug, Clone, Copy, PartialEq, Eq, Structural)]
pub struct FrameBufferInfo {
    pub base: u64,
    pub size: usize,
    pub width: usize,
    pub height: usize,
    pub stride: usize,
    pub format: PixelFormat,
    pub bytes_per_pixel: usize,
}

/// Describes the framebuffer of the current display mode: its memory, its
/// resolution and stride in pixels, and the pixel layout to draw in.
pub fn describe_framebuffer(
    base: u64,
    size: usize,
    resolution: (usize, usize),
    stride: usize,
    format: GopPixelFormat,
) -> (info: FrameBufferInfo)
    requires
        gop_format_supported(format),
    ensures
        info.base == base,
        info.size == size,
        info.width == resolution.0,
        info.height == resolution.1,
        info.stride == stride,
        (info.format, info.bytes_per_pixel) == (if format is Rgb {
            (PixelFormat::Rgb32bit, 4usize)
        } else {
            (PixelFormat::Bgr32bit, 4usize)
        }),
{
    let (pixel_format, bytes_per_pixel) = framebuffer_format(format);
    FrameBufferInfo {
        base,
        size,
        width: resolution.0,
        height: resolution.1,
        stride,
        format: pixel_format,
        bytes_per_pixel,
    }
}

} // verus!
