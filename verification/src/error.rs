//! Errors the loader's verified logic reports.
use vstd::prelude::*;

verus! {

/// The error type of `goblin`'s parsers.
#[verifier::external_type_specification]
#[verifier::external_body]
pub struct ExGoblinError(goblin::error::Error);

/// Why a PSF font was rejected.
#[derive(Debug, Clone, Copy, PartialEq, Eq, Structural)]
pub enum PsfParseError {
    /// Insufficient font data for PSF header
    InsufficientDataForPSFHeader,
    /// Insufficient font data for PSF1 data
    InsufficientDataForPSF1,
    /// Insufficient font data for PSF2 data
    InsufficientDataForPSF2,
    /// Unrecognized PSF header magic
    InvalidPSFMagic(u32),
}

/// Why a kernel ELF was rejected.
#[derive(Debug, Clone, Copy, PartialEq, Eq, Structural)]
pub enum KernelLoadError {
    /// Kernel must be a little-endian x86-64 executable ELF
    InvalidFormat,
    /// Kernel ELF contains no loadable segments
    NoLoadableSegments,
    /// Kernel ELF contains an invalid load segment
    InvalidSegment,
    /// Kernel entry point is not in an executable load segment
    InvalidEntryPoint,
}

/// Errors of the loader's file-processing steps.
#[derive(Debug)]
pub enum LoaderError {
    /// The font file is not a usable PSF font.
    Psf(PsfParseError),
    /// `goblin` could not parse the kernel file as ELF.
    Goblin(goblin::error::Error),
    /// The kernel ELF is not loadable.
    KernelLoad(KernelLoadError),
}

} // verus!
