//! Boot protocol types and the verified decision logic of the Telos UEFI
//! loader: kernel ELF validation and placement, PSF font validation, kernel
//! stack sizing, framebuffer format selection and log-level handling.

pub mod elf;
pub mod error;
pub mod framebuffer;
pub mod log_level;
pub mod memory;
pub mod pages;
pub mod psf;
pub mod stack;

