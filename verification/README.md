# lemoncake

The logic of the Lemoncake hobby x86_64 kernel and its boot stage, written
in Verus: the functions in `src/` carry contracts that Verus proves. The
few calls into other code — std's string conversions, goblin's ELF parser
and zune-png's decoder — stand behind small
wrappers marked `#[verifier::external_body]`, whose contracts are assumed,
not proved; each says in its doc comment what it claims.

- `src/` — the verified library: the formats the kernel reads (Base64,
  USTAR, ELF load plans, PNG pixels, PSF fonts, MCFG, the kernel-image
  header), its system-call interface, its
  filesystems (FAT directory records, SFS, SHFS headers, an ext2 block
  device), the decisions of its device drivers (PCI, AHCI, IDE, NVMe,
  RTL8139, I/O and local APIC registers), its framebuffer and text
  terminals, and its command shells.
- `tests/` — tests on concrete values, run against the compiled library.
- `app/` — the hardware around the library: port and memory-mapped I/O,
  the drivers' loops that perform what the library decides, the keyboard
  shell, and the QEMU launcher.
