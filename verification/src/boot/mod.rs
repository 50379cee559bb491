//! The boot-stage code: its PCI scan, AHCI records, ACPI root pointer,
//! kernel-image header, text terminal and shell.
pub mod acpi;
pub mod ahci;
pub mod command_line;
pub mod display;
pub mod kernel_booting;
pub mod pci;
