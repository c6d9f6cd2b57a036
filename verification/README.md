# telos

The verified core of the Telos x86-64 UEFI boot loader and its boot protocol.

- `src/` (Verus): boot-protocol types (`memory`), page arithmetic (`pages`),
  kernel ELF validation and placement (`elf`, with `goblin` parsing the file),
  PSF font validation (`psf`), kernel stack sizing (`stack`), framebuffer
  pixel-format choice (`framebuffer`), log levels and colors (`log_level`),
  and the error types (`error`).
- `app/`: the UEFI program around it: reading files, talking to the graphics
  output protocol, allocating pages, copying segments and glyphs, the logger
  and text console, and the kernel's entry.
- `tests/`: tests of the library on concrete inputs.
