//! Validation of PC Screen Font (PSF1 and PSF2) files.
//!
//! [`parse_psf_font`] checks that the file holds a complete header and every
//! glyph byte, and describes what the loader copies into page-backed memory.
use vstd::prelude::*;
use crate::error::PsfParseError;
use crate::pages::{page_count, pages_for};

verus! {

/// Magic number of PSF1 fonts (the bytes `36 04`).
pub const PSF1_MAGIC: u16 = 0x0436;

/// Magic number of PSF2 fonts (the bytes `72 b5 4a 86`).
pub const PSF2_MAGIC: u32 = 0x864a_b572;

/// Size in bytes of a PSF1 header.
pub const PSF1_HEADER_SIZE: usize = 4;

/// Size in bytes of a PSF2 header.
pub const PSF2_HEADER_SIZE: usize = 32;

/// PSF1 mode bit: the font has 512 glyphs instead of 256.
pub const PSF1_MODE512: u8 = 1;

/// The little-endian `u16` at byte `i` of `s`.
pub open spec fn le_u16(s: Seq<u8>, i: int) -> u16 {
    (s[i] + 256 * s[i + 1]) as u16
}

/// The little-endian `u32` at byte `i` of `s`.
pub open spec fn le_u32(s: Seq<u8>, i: int) -> u32 {
    (s[i] + 256 * s[i + 1] + 65536 * s[i + 2] + 16777216 * s[i + 3]) as u32
}

/// Reads the little-endian `u16` at byte `i`.
fn read_u16_le(data: &[u8], i: usize) -> (v: u16)
    requires
        i + 2 <= data@.len(),
    ensures
        v == le_u16(data@, i as int),
{
    data[i] as u16 + (data[i + 1] as u16) * 256
}

/// Reads the little-endian `u32` at byte `i`.
fn read_u32_le(data: &[u8], i: usize) -> (v: u32)
    requires
        i + 4 <= data@.len(),
    ensures
        v == le_u32(data@, i as int),
{
    data[i] as u32 + (data[i + 1] as u32) * 256 + (data[i + 2] as u32) * 65536 + (data[i + 3] as u32) * 16777216
}

/// The header of a PSF1 font.
#[derive(Debug, Clone, Copy, PartialEq, Eq, Structural)]
pub struct Psf1Header {
    pub magic: u16,
    pub font_mode: u8,
    pub character_size: u8,
}

/// The header of a PSF2 font.
#[derive(Debug, Clone, Copy, PartialEq, Eq, Structural)]
pub struct Psf2Header {
    pub magic: u32,
    pub version: u32,
    pub header_size: u32,
    pub flags: u32,
    pub length: u32,
    pub glyph_size: u32,
    pub height: u32,
    pub width: u32,
}

/// The header of a PSF font of either version.
#[derive(Debug, Clone, Copy, PartialEq, Eq, Structural)]
pub enum PsfHeader {
    V1(Psf1Header),
    V2(Psf2Header),
}

/// A validated font: its header, where its glyphs start, how many there are,
/// how many leading bytes of the file the loader copies, and how many pages
/// hold that copy.
#[derive(Debug, Clone, Copy, PartialEq, Eq, Structural)]
pub struct PsfFont {
    pub header: PsfHeader,
    pub glyph_offset: usize,
    pub glyph_count: usize,
    pub copy_len: usize,
    pub page_count: usize,
}

/// The PSF1 header in the first four bytes of `s`.
pub open spec fn psf1_header_of(s: Seq<u8>) -> Psf1Header {
    Psf1Header { magic: le_u16(s, 0), font_mode: s[2], character_size: s[3] }
}

/// The PSF2 header in the first 32 bytes of `s`.
pub open spec fn psf2_header_of(s: Seq<u8>) -> Psf2Header {
    Psf2Header {
        magic: le_u32(s, 0),
        version: le_u32(s, 4),
        header_size: le_u32(s, 8),
        flags: le_u32(s, 12),
        length: le_u32(s, 16),
        glyph_size: le_u32(s, 20),
        height: le_u32(s, 24),
        width: le_u32(s, 28),
    }
}

/// Number of glyphs of a PSF1 font with the given mode byte.
pub open spec fn psf1_glyph_count(font_mode: u8) -> int {
    if font_mode & PSF1_MODE512 != 0 {
        512
    } else {
        256
    }
}

/// Bytes of one glyph, by header version.
pub open spec fn bytes_per_glyph(h: PsfHeader) -> int {
    match h {
        PsfHeader::V1(h1) => h1.character_size as int,
        PsfHeader::V2(h2) => h2.glyph_size as int,
    }
}

/// What the loader makes of font file `s`.
pub open spec fn psf_font_spec(s: Seq<u8>) -> Result<PsfFont, PsfParseError> {
    if s.len() < PSF1_HEADER_SIZE {
        Err(PsfParseError::InsufficientDataForPSFHeader)
    } else if le_u16(s, 0) == PSF1_MAGIC {
        let h = psf1_header_of(s);
        let count = psf1_glyph_count(h.font_mode);
        let total = PSF1_HEADER_SIZE + count * h.character_size;
        if s.len() < total {
            Err(PsfParseError::InsufficientDataForPSF1)
        } else {
            Ok(PsfFont {
                header: PsfHeader::V1(h),
                glyph_offset: PSF1_HEADER_SIZE,
                glyph_count: count as usize,
                copy_len: total as usize,
                page_count: pages_for(total) as usize,
            })
        }
    } else if le_u32(s, 0) != PSF2_MAGIC {
        Err(PsfParseError::InvalidPSFMagic(le_u32(s, 0)))
    } else if s.len() < PSF2_HEADER_SIZE {
        Err(PsfParseError::InsufficientDataForPSFHeader)
    } else {
        let h = psf2_header_of(s);
        let total = PSF2_HEADER_SIZE + h.length * h.glyph_size;
        if s.len() < total {
            Err(PsfParseError::InsufficientDataForPSF2)
        } else {
            Ok(PsfFont {
                header: PsfHeader::V2(h),
                glyph_offset: PSF2_HEADER_SIZE,
                glyph_count: h.length as usize,
                copy_len: total as usize,
                page_count: pages_for(total) as usize,
            })
        }
    }
}

/// Validate a PSF file: the header must be complete and every glyph byte
/// present. Describes the leading bytes to copy into page-backed memory and
/// where the glyphs start in that copy. The PSF2 glyph table size
/// `length * glyph_size` is computed without wrapping, so a header whose table
/// would not fit in the file is rejected however large its fields are.
pub fn parse_psf_font(font_data: &[u8]) -> (res: Result<PsfFont, PsfParseError>)
    ensures
        res == psf_font_spec(font_data@),
{
    // A PSF1 header is the smallest supported header.
    if font_data.len() < PSF1_HEADER_SIZE {
        return Err(PsfParseError::InsufficientDataForPSFHeader);
    }
    let magic = read_u16_le(font_data, 0);
    // PSF1 and PSF2 use different header layouts and magic widths.
    if magic == PSF1_MAGIC {
        let header = Psf1Header { magic, font_mode: font_data[2], character_size: font_data[3] };
        let glyph_buffer_length: usize = if header.font_mode & PSF1_MODE512 != 0 { 512 } else { 256 };
        let glyph_buffer_size = glyph_buffer_length * header.character_size as usize;
        let total_size = PSF1_HEADER_SIZE + glyph_buffer_size;
        // Validate every source byte before anything is copied.
        if font_data.len() < total_size {
            return Err(PsfParseError::InsufficientDataForPSF1);
        }
        let pages = page_count(total_size);
        Ok(PsfFont {
            header: PsfHeader::V1(header),
            glyph_offset: PSF1_HEADER_SIZE,
            glyph_count: glyph_buffer_length,
            copy_len: total_size,
            page_count: pages,
        })
    } else {
        let magic = read_u32_le(font_data, 0);
        if magic != PSF2_MAGIC {
            return Err(PsfParseError::InvalidPSFMagic(magic));
        }
        if font_data.len() < PSF2_HEADER_SIZE {
            return Err(PsfParseError::InsufficientDataForPSFHeader);
        }
        let header = Psf2Header {
            magic,
            version: read_u32_le(font_data, 4),
            header_size: read_u32_le(font_data, 8),
            flags: read_u32_le(font_data, 12),
            length: read_u32_le(font_data, 16),
            glyph_size: read_u32_le(font_data, 20),
            height: read_u32_le(font_data, 24),
            width: read_u32_le(font_data, 28),
        };
        let length = header.length as u64;
        let glyph_size = header.glyph_size as u64;
        assert(length * glyph_size <= 0xffff_fffe_0000_0001) by (nonlinear_arith)
            requires
                length <= u32::MAX,
                glyph_size <= u32::MAX,
        ;
        let glyph_buffer_size = length * glyph_size;
        let total_size = PSF2_HEADER_SIZE as u64 + glyph_buffer_size;
        // Validate every source byte before anything is copied.
        if (font_data.len() as u64) < total_size {
            return Err(PsfParseError::InsufficientDataForPSF2);
        }
        let total_size = total_size as usize;
        let pages = page_count(total_size);
        Ok(PsfFont {
            header: PsfHeader::V2(header),
            glyph_offset: PSF2_HEADER_SIZE,
            glyph_count: header.length as usize,
            copy_len: total_size,
            page_count: pages,
        })
    }
}

/// Width and height of a glyph in pixels, and bytes per glyph row.
pub open spec fn spec_glyph_cell(h: PsfHeader) -> (int, int, int) {
    match h {
        PsfHeader::V1(h1) => (8, h1.character_size as int, 1),
        PsfHeader::V2(h2) => (h2.width as int, h2.height as int, (h2.width + 7) / 8),
    }
}

/// Width and height of a glyph in pixels, and bytes per glyph row: PSF1
/// glyphs are 8 pixels wide with one byte per row; PSF2 rows are the width
/// rounded up to whole bytes.
pub fn glyph_cell(font: &PsfFont) -> (cell: (usize, usize, usize))
    ensures
        (cell.0 as int, cell.1 as int, cell.2 as int) == spec_glyph_cell(font.header),
{
    match font.header {
        PsfHeader::V1(h) => (8, h.character_size as usize, 1),
        PsfHeader::V2(h) => {
            let width = h.width as u64;
            (h.width as usize, h.height as usize, ((width + 7) / 8) as usize)
        },
    }
}

/// Where pixel (`x`, `y`) of glyph `glyph` is stored, relative to the start
/// of the glyph table: `Some((byte index, bit mask))` where the glyph exists,
/// the pixel lies in the glyph cell, its row byte lies inside the glyph's
/// bytes, and the index fits in a `usize`; `None` otherwise. The index then
/// lies inside the `glyph_count` glyphs of the table.
pub fn glyph_pixel(font: &PsfFont, glyph: usize, x: usize, y: usize) -> (res: Option<(usize, u8)>)
    ensures
        ({
            let (w, h, rb) = spec_glyph_cell(font.header);
            let bpg = bytes_per_glyph(font.header);
            let in_glyph = y * rb + x / 8;
            let index = glyph * bpg + in_glyph;
            &&& res is Some <==> (glyph < font.glyph_count && x < w && y < h && in_glyph < bpg
                && index <= usize::MAX)
            &&& res matches Some((i, mask)) ==> {
                &&& i == index
                &&& i < font.glyph_count * bpg
                &&& mask == 0x80u8 >> ((x % 8) as u8)
            }
        }),
{
    let (width, height, row_bytes) = glyph_cell(font);
    let bpg: usize = match font.header {
        PsfHeader::V1(h) => h.character_size as usize,
        PsfHeader::V2(h) => h.glyph_size as usize,
    };
    if glyph >= font.glyph_count || x >= width || y >= height {
        return None;
    }
    let row = match y.checked_mul(row_bytes) {
        Some(r) => r,
        None => {
            assert(y * row_bytes + x / 8 >= bpg);
            return None;
        },
    };
    let in_glyph = match row.checked_add(x / 8) {
        Some(v) => v,
        None => return None,
    };
    if in_glyph >= bpg {
        return None;
    }
    let start = match glyph.checked_mul(bpg) {
        Some(v) => v,
        None => {
            assert(glyph * bpg + in_glyph > usize::MAX) by (nonlinear_arith)
                requires
                    glyph * bpg > usize::MAX,
                    in_glyph >= 0,
            ;
            return None;
        },
    };
    let index = match start.checked_add(in_glyph) {
        Some(v) => v,
        None => return None,
    };
    assert(glyph * bpg + in_glyph < font.glyph_count * bpg) by (nonlinear_arith)
        requires
            glyph < font.glyph_count,
            in_glyph < bpg,
            glyph >= 0,
    ;
    Some((index, 0x80u8 >> ((x % 8) as u8)))
}

/// A font the loader accepts lies within its file: the copy ends inside the
/// file, consists of the header followed by `glyph_count` glyphs, and fits in
/// `page_count` pages with less than a page to spare; its magic matches its version.
pub proof fn lemma_font_within_file(s: Seq<u8>)
    requires
        s.len() <= usize::MAX,
        psf_font_spec(s) is Ok,
    ensures
        ({
            let f = psf_font_spec(s)->Ok_0;
            &&& f.copy_len <= s.len()
            &&& f.copy_len == f.glyph_offset + f.glyph_count * bytes_per_glyph(f.header)
            &&& f.page_count * 4096 >= f.copy_len
            &&& f.page_count * 4096 < f.copy_len + 4096
            &&& match f.header {
                PsfHeader::V1(h) => h.magic == PSF1_MAGIC && f.glyph_offset == PSF1_HEADER_SIZE,
                PsfHeader::V2(h) => h.magic == PSF2_MAGIC && f.glyph_offset == PSF2_HEADER_SIZE,
            }
        }),
{
    let f = psf_font_spec(s)->Ok_0;
    crate::pages::lemma_pages_for_bounds(f.copy_len as int);
    if le_u16(s, 0) == PSF1_MAGIC {
        let h = psf1_header_of(s);
        let count = psf1_glyph_count(h.font_mode);
        let cs = h.character_size as int;
        assert(0 <= count * cs <= 512 * 255) by (nonlinear_arith)
            requires
                0 <= count <= 512,
                0 <= cs <= 255,
        ;
        assert(f.header == PsfHeader::V1(h));
        assert(f.glyph_count == count);
        assert(f.copy_len == 4 + count * cs);
    } else {
        let h = psf2_header_of(s);
        let len = h.length as int;
        let gs = h.glyph_size as int;
        assert(0 <= len * gs) by (nonlinear_arith)
            requires
                len >= 0,
                gs >= 0,
        ;
        assert(f.header == PsfHeader::V2(h));
        assert(f.glyph_count == len);
        assert(f.copy_len == 32 + len * gs);
    }
}

/// PSF2 acceptance, stated over the file's bytes: a file of at least 32 bytes
/// starting with the magic bytes `72 b5 4a 86` is accepted exactly when it
/// holds the header and `length * glyph_size` glyph bytes after it (the two
/// little-endian `u32`s at bytes 16 and 20, multiplied without wrapping),
/// whatever its version, header size, flags, height and width. The font then
/// has `length` glyphs starting at byte 32, its header holds the eight
/// little-endian words of the file, and the copy is the header and the glyphs,
/// in whole pages. A short file is `InsufficientDataForPSF2`.
pub proof fn lemma_psf2_accepted_exactly_when(s: Seq<u8>)
    requires
        s.len() >= 32,
        s.len() <= usize::MAX,
        s[0] == 0x72 && s[1] == 0xb5 && s[2] == 0x4a && s[3] == 0x86,
    ensures
        ({
            let word = |o: int| s[o] + 256 * s[o + 1] + 65536 * s[o + 2] + 16777216 * s[o + 3];
            let need = 32 + word(16) * word(20);
            &&& (psf_font_spec(s) is Ok) <==> s.len() >= need
            &&& s.len() < need ==> psf_font_spec(s) == Err::<PsfFont, PsfParseError>(PsfParseError::InsufficientDataForPSF2)
            &&& s.len() >= need ==> {
                let f = psf_font_spec(s)->Ok_0;
                &&& f.header == PsfHeader::V2(Psf2Header {
                    magic: 0x864a_b572,
                    version: word(4) as u32,
                    header_size: word(8) as u32,
                    flags: word(12) as u32,
                    length: word(16) as u32,
                    glyph_size: word(20) as u32,
                    height: word(24) as u32,
                    width: word(28) as u32,
                })
                &&& f.glyph_offset == 32
                &&& f.glyph_count == word(16)
                &&& f.copy_len == need
                &&& f.page_count * 4096 >= need
                &&& f.page_count * 4096 < need + 4096
            }
        }),
{
    let word = |o: int| s[o] + 256 * s[o + 1] + 65536 * s[o + 2] + 16777216 * s[o + 3];
    assert(le_u16(s, 0) != PSF1_MAGIC);
    assert(le_u32(s, 0) == PSF2_MAGIC);
    assert(le_u32(s, 16) == word(16));
    assert(le_u32(s, 20) == word(20));
    let len = word(16);
    let gs = word(20);
    assert(0 <= len * gs) by (nonlinear_arith)
        requires
            len >= 0,
            gs >= 0,
    ;
    crate::pages::lemma_pages_for_bounds(32 + len * gs);
}

/// PSF1 acceptance, stated over the file's bytes: a file of at least 4 bytes
/// starting with the magic bytes `36 04` has 512 glyphs where its mode byte
/// (byte 2) is odd and 256 otherwise, each of `character_size` (byte 3) bytes;
/// it is accepted exactly when it holds the 4-byte header and all glyph bytes.
/// The font then starts its glyphs at byte 4 and the copy is the header and
/// the glyphs, in whole pages. A short file is `InsufficientDataForPSF1`.
pub proof fn lemma_psf1_accepted_exactly_when(s: Seq<u8>)
    requires
        s.len() >= 4,
        s.len() <= usize::MAX,
        s[0] == 0x36 && s[1] == 0x04,
    ensures
        ({
            let count: int = if s[2] % 2 == 1 { 512 } else { 256 };
            let need = 4 + count * s[3];
            &&& (psf_font_spec(s) is Ok) <==> s.len() >= need
            &&& s.len() < need ==> psf_font_spec(s) == Err::<PsfFont, PsfParseError>(PsfParseError::InsufficientDataForPSF1)
            &&& s.len() >= need ==> {
                let f = psf_font_spec(s)->Ok_0;
                &&& f.header == PsfHeader::V1(Psf1Header { magic: 0x0436, font_mode: s[2], character_size: s[3] })
                &&& f.glyph_offset == 4
                &&& f.glyph_count == count
                &&& f.copy_len == need
                &&& f.page_count * 4096 >= need
                &&& f.page_count * 4096 < need + 4096
            }
        }),
{
    let mode = s[2];
    assert((mode & 1u8 != 0) == (mode % 2 == 1)) by (bit_vector);
    assert(le_u16(s, 0) == PSF1_MAGIC);
    let count: int = if s[2] % 2 == 1 { 512 } else { 256 };
    let cs = s[3] as int;
    assert(0 <= count * cs <= 512 * 255) by (nonlinear_arith)
        requires
            0 <= count <= 512,
            0 <= cs <= 255,
    ;
    crate::pages::lemma_pages_for_bounds(4 + count * cs);
}

/// Header rejections, stated over the file's bytes: fewer than 4 bytes is
/// `InsufficientDataForPSFHeader`; 4 or more bytes starting with neither
/// magic (`36 04` for PSF1, `72 b5 4a 86` for PSF2) is `InvalidPSFMagic` with
/// the first four bytes read as a little-endian `u32`; the PSF2 magic with
/// fewer than 32 bytes is `InsufficientDataForPSFHeader`.
pub proof fn lemma_psf_header_rejections(s: Seq<u8>)
    ensures
        s.len() < 4 ==> psf_font_spec(s) == Err::<PsfFont, PsfParseError>(PsfParseError::InsufficientDataForPSFHeader),
        s.len() >= 4 && !(s[0] == 0x36 && s[1] == 0x04) && !(s[0] == 0x72 && s[1] == 0xb5 && s[2] == 0x4a && s[3] == 0x86)
            ==> psf_font_spec(s) == Err::<PsfFont, PsfParseError>(PsfParseError::InvalidPSFMagic(
                (s[0] + 256 * s[1] + 65536 * s[2] + 16777216 * s[3]) as u32,
            )),
        4 <= s.len() < 32 && s[0] == 0x72 && s[1] == 0xb5 && s[2] == 0x4a && s[3] == 0x86
            ==> psf_font_spec(s) == Err::<PsfFont, PsfParseError>(PsfParseError::InsufficientDataForPSFHeader),
{
    if s.len() >= 4 {
        assert((le_u16(s, 0) == PSF1_MAGIC) == (s[0] == 0x36 && s[1] == 0x04));
        assert((le_u32(s, 0) == PSF2_MAGIC) == (s[0] == 0x72 && s[1] == 0xb5 && s[2] == 0x4a && s[3] == 0x86));
    }
}

/// Glyph geometry, stated over the header fields: a PSF1 glyph is 8 pixels
/// wide and `character_size` pixels high, one byte per row, `character_size`
/// bytes in all; a PSF2 glyph is `width` by `height` pixels, each row the width
/// rounded up to whole bytes, `glyph_size` bytes in all.
pub proof fn lemma_glyph_geometry(h: PsfHeader)
    ensures
        h matches PsfHeader::V1(h1) ==> spec_glyph_cell(h) == (8int, h1.character_size as int, 1int)
            && bytes_per_glyph(h) == h1.character_size,
        h matches PsfHeader::V2(h2) ==> spec_glyph_cell(h) == (h2.width as int, h2.height as int, (h2.width + 7) / 8)
            && bytes_per_glyph(h) == h2.glyph_size
            && ((h2.width + 7) / 8) * 8 >= h2.width
            && ((h2.width + 7) / 8) * 8 < h2.width + 8,
{
}

} // verus!
