//! Verified core logic of the Lemoncake hobby kernel: the data formats it
//! parses (Base64, USTAR archives, SFS, FAT directory records, PSF fonts, ELF
//! load layouts), its device-record decoding (PCI, AHCI, NVMe, I/O APIC) and
//! the state of its text terminals and command registry.
pub mod acpi;
pub mod apic;
pub mod base64;
pub mod boot;
pub mod bytes;
pub mod commandline;
pub mod disks;
pub mod display;
pub mod drivers;
pub mod elf;
pub mod font;
pub mod framebuffer;
pub mod memory;
pub mod png;
pub mod fs;
pub mod pci;
pub mod sleep;
pub mod syscall;
pub mod text;

use vstd::prelude::*;

verus! {

/// The kernel's version.
pub const LEMONCAKE_VER: &'static str = "25m3";

/// Renders a boolean as `"yes"` or `"no"`.
pub fn bool_to_yn(var: bool) -> (res: String)
    ensures
        res@ == (if var { "yes"@ } else { "no"@ }),
{
    match var {
        true => String::from_str("yes"),
        false => String::from_str("no"),
    }
}

} // verus!
