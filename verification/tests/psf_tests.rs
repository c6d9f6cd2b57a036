use telos::error::PsfParseError;
use telos::psf::{glyph_cell, glyph_pixel, parse_psf_font, Psf1Header, Psf2Header, PsfFont, PsfHeader, PSF1_MAGIC, PSF2_MAGIC};

fn psf1(mode: u8, charsize: u8, glyph_bytes: usize) -> Vec<u8> {
    let mut v = vec![0x36, 0x04, mode, charsize];
    v.resize(4 + glyph_bytes, 0xaa);
    v
}

fn psf2(length: u32, glyph_size: u32, glyph_bytes: usize) -> Vec<u8> {
    let mut v = Vec::new();
    for x in [PSF2_MAGIC, 0, 32, 0, length, glyph_size, 16, 8] {
        v.extend_from_slice(&x.to_le_bytes());
    }
    v.resize(32 + glyph_bytes, 0x55);
    v
}

#[test]
fn psf1_font_with_256_glyphs() {
    let data = psf1(0, 16, 256 * 16);
    let font = parse_psf_font(&data).unwrap();
    assert_eq!(
        font,
        PsfFont {
            header: PsfHeader::V1(Psf1Header { magic: PSF1_MAGIC, font_mode: 0, character_size: 16 }),
            glyph_offset: 4,
            glyph_count: 256,
            copy_len: 4 + 4096,
            page_count: 2,
        }
    );
}

#[test]
fn psf1_font_with_512_glyphs() {
    let data = psf1(1, 8, 512 * 8 + 10);
    let font = parse_psf_font(&data).unwrap();
    assert_eq!(font.glyph_count, 512);
    assert_eq!(font.copy_len, 4 + 4096);
    assert_eq!(font.page_count, 2);
    let short = psf1(1, 8, 512 * 8 - 1);
    assert_eq!(parse_psf_font(&short), Err(PsfParseError::InsufficientDataForPSF1));
}

#[test]
fn psf2_font() {
    let data = psf2(128, 16, 128 * 16);
    let font = parse_psf_font(&data).unwrap();
    assert_eq!(
        font.header,
        PsfHeader::V2(Psf2Header {
            magic: PSF2_MAGIC,
            version: 0,
            header_size: 32,
            flags: 0,
            length: 128,
            glyph_size: 16,
            height: 16,
            width: 8
        })
    );
    assert_eq!(font.glyph_offset, 32);
    assert_eq!(font.glyph_count, 128);
    assert_eq!(font.copy_len, 32 + 2048);
    assert_eq!(font.page_count, 1);
    let short = psf2(128, 16, 128 * 16 - 1);
    assert_eq!(parse_psf_font(&short), Err(PsfParseError::InsufficientDataForPSF2));
}

#[test]
fn psf_header_errors() {
    assert_eq!(parse_psf_font(&[0x36, 0x04, 0]), Err(PsfParseError::InsufficientDataForPSFHeader));
    assert_eq!(parse_psf_font(&[]), Err(PsfParseError::InsufficientDataForPSFHeader));
    assert_eq!(parse_psf_font(&[1, 2, 3, 4, 5]), Err(PsfParseError::InvalidPSFMagic(0x0403_0201)));
    let truncated = psf2(1, 1, 0)[..20].to_vec();
    assert_eq!(parse_psf_font(&truncated), Err(PsfParseError::InsufficientDataForPSFHeader));
}

#[test]
fn psf2_glyph_table_larger_than_u32_is_rejected_without_wrapping() {
    // length * glyph_size = 2^32, which would wrap to 0 in 32-bit arithmetic.
    let data = psf2(0x10000, 0x10000, 16);
    assert_eq!(parse_psf_font(&data), Err(PsfParseError::InsufficientDataForPSF2));
    let data = psf2(0xffff_ffff, 0xffff_ffff, 0);
    assert_eq!(parse_psf_font(&data), Err(PsfParseError::InsufficientDataForPSF2));
    // A zero-sized glyph table is complete with the header alone.
    let font = parse_psf_font(&psf2(0, 16, 0)).unwrap();
    assert_eq!(font.copy_len, 32);
    assert_eq!(font.page_count, 1);
}

#[test]
fn glyph_pixels_are_addressed_inside_the_table() {
    let font = parse_psf_font(&psf1(0, 16, 256 * 16)).unwrap();
    assert_eq!(glyph_cell(&font), (8, 16, 1));
    assert_eq!(glyph_pixel(&font, 65, 0, 0), Some((65 * 16, 0x80)));
    assert_eq!(glyph_pixel(&font, 65, 7, 3), Some((65 * 16 + 3, 0x01)));
    assert_eq!(glyph_pixel(&font, 256, 0, 0), None);
    assert_eq!(glyph_pixel(&font, 0, 8, 0), None);
    assert_eq!(glyph_pixel(&font, 0, 0, 16), None);
    // A PSF2 header whose glyph size is too small for its cell: rows past the
    // glyph's bytes are not addressed.
    let font = parse_psf_font(&psf2(2, 4, 8)).unwrap();
    assert_eq!(glyph_cell(&font), (8, 16, 1));
    assert_eq!(glyph_pixel(&font, 1, 2, 3), Some((7, 0x20)));
    assert_eq!(glyph_pixel(&font, 1, 2, 4), None);
}
