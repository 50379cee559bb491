use lemoncake::boot::acpi::{RsdpV1, RsdpV2, RSDP};
use lemoncake::boot::kernel_booting::{has_kernel_magic, KernelHeader};
use lemoncake::acpi::{ecam_frames, ecam_size, parse_mcfg, McfgEntry, McfgError};
use lemoncake::commandline::{edit_line, plan_shutdown, prompt, KeyEffect, ShutdownPlan};
use lemoncake::drivers::rtl8139::{interrupt_work, io_base, PacketError, Rtl8139};
use lemoncake::memory::{nth_usable_frame, page_table_indices, BootInfoFrameAllocator, MemoryRegion};
use lemoncake::pci::{
    aligned_offset, bar_size, config_address, decode_bar, ecam_offset, field_u16, field_u8,
    merge_u16, merge_u8, PCIDevice,
};
use std::cell::RefCell;

#[test]
fn frames_from_the_memory_map() {
    let regions = vec![
        MemoryRegion { base: 0x1000, length: 0x2000, usable: true },
        MemoryRegion { base: 0x10_0000, length: 0x5000, usable: false },
        MemoryRegion { base: 0x20_0800, length: 0x1001, usable: true },
    ];
    assert_eq!(nth_usable_frame(&regions, 0), Some(0x1000));
    assert_eq!(nth_usable_frame(&regions, 1), Some(0x2000));
    // The third region starts mid-frame: its frames are aligned down.
    assert_eq!(nth_usable_frame(&regions, 2), Some(0x20_0000));
    assert_eq!(nth_usable_frame(&regions, 3), Some(0x20_1000));
    assert_eq!(nth_usable_frame(&regions, 4), None);
    let mut a = BootInfoFrameAllocator::init(regions);
    assert_eq!(a.allocate_frame(), Some(0x1000));
    assert_eq!(a.allocate_frame(), Some(0x2000));
    assert_eq!(a.allocate_frame(), Some(0x20_0000));
}

#[test]
fn pci_config_helpers() {
    assert_eq!(config_address(1, 2, 3, 0x17), 0x8001_1314);
    assert_eq!(ecam_offset(1, 2, 3, 0x10), 0x10_0000 + 0x1_0000 + 0x3000 + 0x10);
    assert_eq!(aligned_offset(0x0E), 0x0C);
    assert_eq!(field_u16(0xAABB_CCDD, 2), 0xAABB);
    assert_eq!(field_u8(0xAABB_CCDD, 1), 0xCC);
    assert_eq!(merge_u16(0xAABB_CCDD, 2, 0x1234), 0x1234_CCDD);
    assert_eq!(merge_u8(0xAABB_CCDD, 0, 0x11), 0xAABB_CC11);
    assert_eq!(decode_bar(0xFEB0_0004), (0xFEB0_0004, true, true));
    assert_eq!(decode_bar(0x0000_C001), (0x0000_C001, false, false));
    assert_eq!(bar_size(0xFFFF_F000, 0, true, false), Some(0x1000));
    assert_eq!(bar_size(0xFFFF_FF01, 0, false, false), Some(0x100));
    assert_eq!(bar_size(0xFFFF_C004, 0xFFFF_FFFF, true, true), Some(0x4000));
    assert_eq!(bar_size(0, 0, true, false), None);
}

#[test]
fn pci_bars_through_config_reads() {
    let dev = PCIDevice::new(0x8086, 0x1234, 1, 6, 0, 3, 0);
    let regs = RefCell::new(vec![0u32; 64]);
    regs.borrow_mut()[4] = 0xFEB0_000C; // BAR 0: 64-bit prefetchable memory
    regs.borrow_mut()[5] = 0x0000_0001; // its high half
    regs.borrow_mut()[2] = 0x0106_0100;
    regs.borrow_mut()[1] = 0x0000_0000;
    let read = |o: u16| -> u32 { regs.borrow()[(o / 4) as usize] };
    assert_eq!(dev.read_bar(0, &read), Some((0xFEB0_000C, true, true)));
    assert_eq!(dev.read_bar(6, &read), None);
    assert_eq!(dev.bar_address(0, &read), Some(0x1_FEB0_0000));
    assert_eq!(dev.prog_if(&read), 0x01);
    // Size probe: the device answers all-ones writes with its size mask.
    let sized = RefCell::new(vec![0u32; 64]);
    sized.borrow_mut()[4] = 0xFEB0_0000;
    let read2 = |o: u16| -> u32 { sized.borrow()[(o / 4) as usize] };
    let write2 = |o: u16, v: u32| {
        let i = (o / 4) as usize;
        sized.borrow_mut()[i] = if v == 0xFFFF_FFFF && i == 4 { 0xFFFF_C000 } else { v };
    };
    assert_eq!(dev.probe_bar_size(0, &read2, &write2), Some(0x4000));
    assert_eq!(sized.borrow()[4], 0xFEB0_0000); // restored
    // Bus mastering: the command register keeps what is written.
    let cmd = RefCell::new(0u16);
    let r16 = |_o: u16| -> u16 { *cmd.borrow() };
    let w16 = |_o: u16, v: u16| {
        *cmd.borrow_mut() = v;
    };
    assert!(dev.enable_bus_master(&r16, &w16));
    assert_eq!(*cmd.borrow(), 0x5);
}

#[test]
fn rtl8139_transmit_and_receive() {
    assert_eq!(io_base(0xC001), 0xC000);
    let mut nic = Rtl8139::new([1, 2, 3, 4, 5, 6], 0xC000, 11);
    let writes = RefCell::new(Vec::new());
    let free = |_p: u16| -> u32 { 1 << 13 };
    let busy = |_p: u16| -> u32 { 0 };
    let w = |p: u16, v: u32| writes.borrow_mut().push((p, v));
    assert_eq!(nic.transmit_packet(0xC000, 0x5000, 1793, &free, &w), Err(PacketError::TooLong));
    assert_eq!(nic.transmit_packet(0xC000, 0x5000, 60, &busy, &w), Err(PacketError::TXDescBusy));
    assert_eq!(nic.transmit_packet(0xC000, 0x5000, 60, &free, &w), Ok(()));
    assert_eq!(*writes.borrow(), vec![(0xC020, 0x5000), (0xC010, 60)]);
    assert_eq!(nic.transmit_packet(0xC000, 0x6000, 64, &free, &w), Ok(()));
    assert_eq!(writes.borrow()[2], (0xC024, 0x6000));
    // A good 12-byte frame (8 bytes of data and the CRC) at the ring's start.
    let mut ring = vec![0u8; 8202];
    ring[0] = 0x01;
    ring[2] = 12;
    for i in 0..8 {
        ring[4 + i] = 0xA0 + i as u8;
    }
    assert_eq!(nic.receive_packet(1, &ring), Err(PacketError::BufferEmpty));
    let p = nic.receive_packet(0, &ring).unwrap();
    assert_eq!(p, &[0xA0, 0xA1, 0xA2, 0xA3, 0xA4, 0xA5, 0xA6, 0xA7]);
    // The ring moves past header and frame, rounded to 4: (0 + 12 + 7) & !3.
    assert_eq!(nic.read_pointer(), 16 - 16);
    // A frame without the receive-OK bit is skipped.
    ring[16] = 0x00;
    ring[18] = 20;
    assert_eq!(nic.receive_packet(0, &ring), Err(PacketError::BadPacket));
    assert_eq!(nic.read_pointer(), 40 - 16);
    assert_eq!(interrupt_work(0x03), (true, true));
    assert_eq!(interrupt_work(0x04), (false, false));
}

#[test]
fn shell_line_editing() {
    let mut line = String::new();
    assert_eq!(edit_line(&mut line, 'l'), KeyEffect::Echoed('l'));
    assert_eq!(edit_line(&mut line, 's'), KeyEffect::Echoed('s'));
    assert_eq!(edit_line(&mut line, 'x'), KeyEffect::Echoed('x'));
    assert_eq!(edit_line(&mut line, '\u{7f}'), KeyEffect::Erased);
    assert_eq!(line, "ls");
    assert_eq!(edit_line(&mut line, '\n'), KeyEffect::Submitted);
    assert_eq!(line, "ls");
    let mut empty = String::new();
    assert_eq!(edit_line(&mut empty, '\u{7f}'), KeyEffect::Erased);
    assert_eq!(empty, "");
    assert_eq!(prompt(0), "[0] > ");
    assert_eq!(prompt(-1), "[-1] > ");
    assert_eq!(prompt(127), "[127] > ");
}

fn mcfg(entries: &[(u64, u16, u8, u8)], extra: usize) -> Vec<u8> {
    let len = 44 + 16 * entries.len() + extra;
    let mut t = vec![0u8; 44];
    t[0..4].copy_from_slice(b"MCFG");
    t[4..8].copy_from_slice(&(len as u32).to_le_bytes());
    for &(base, seg, start, end) in entries {
        t.extend_from_slice(&base.to_le_bytes());
        t.extend_from_slice(&seg.to_le_bytes());
        t.push(start);
        t.push(end);
        t.extend_from_slice(&[0, 0, 0, 0]);
    }
    t.extend(std::iter::repeat(0u8).take(extra));
    t
}

#[test]
fn mcfg_segment_zero_entry() {
    let t = mcfg(&[(0xE000_0000, 1, 0, 0xFF), (0xB000_0000, 0, 0, 0x3F)], 0);
    let e = parse_mcfg(&t).unwrap();
    assert_eq!(e, McfgEntry { base_address: 0xB000_0000, pci_segment_group: 0, start_bus: 0, end_bus: 0x3F });
    assert_eq!(ecam_size(&e), 64 << 20);
    assert_eq!(parse_mcfg(&mcfg(&[], 0)), Err(McfgError::NoEntries));
    assert_eq!(parse_mcfg(&mcfg(&[(1, 0, 0, 0)], 3)), Err(McfgError::RaggedEntries));
    assert_eq!(parse_mcfg(&mcfg(&[(1, 2, 0, 0)], 0)), Err(McfgError::NoSegmentZero));
    assert_eq!(McfgError::NoSegmentZero.message(), "No MCFG entry for segment 0");
    let odd = McfgEntry { base_address: 0, pci_segment_group: 0, start_bus: 5, end_bus: 2 };
    assert_eq!(ecam_size(&odd), 1 << 20);
    assert_eq!(ecam_frames(0xB000_0800, 0x2000), (0xB000_0000, 3));
}

#[test]
fn page_table_indices_split_an_address() {
    assert_eq!(page_table_indices(0), (0, 0, 0, 0));
    let addr: u64 = (3u64 << 39) | (5u64 << 30) | (7u64 << 21) | (9u64 << 12) | 0x123;
    assert_eq!(page_table_indices(addr), (3, 5, 7, 9));
    assert_eq!(page_table_indices(0xffff_ffff_ffff_ffff), (511, 511, 511, 511));
}

#[test]
fn shutdown_plans() {
    let none: Vec<&str> = vec![];
    assert!(matches!(plan_shutdown(&none), (ShutdownPlan::Usage, 1)));
    let two: Vec<&str> = vec!["qemu", "now"];
    assert!(matches!(plan_shutdown(&two), (ShutdownPlan::Usage, 1)));
    let q: Vec<&str> = vec!["QEMU"];
    assert!(matches!(plan_shutdown(&q), (ShutdownPlan::PowerOff(0x604, 0x2000), 0)));
    let b: Vec<&str> = vec!["Old_Qemu"];
    assert!(matches!(plan_shutdown(&b), (ShutdownPlan::PowerOff(0xB004, 0x2000), 0)));
    let v: Vec<&str> = vec!["VirtualBox"];
    assert!(matches!(plan_shutdown(&v), (ShutdownPlan::PowerOff(0x4004, 0x3400), 0)));
    let bad: Vec<&str> = vec!["Hyper-V"];
    match plan_shutdown(&bad) {
        (ShutdownPlan::Invalid(t), 0) => assert_eq!(t, "hyper-v"),
        other => panic!("unexpected {:?}", other),
    }
}

fn rsdp_first() -> RsdpV1 {
    RsdpV1 { signature: "RSD PTR ", checksum_valid: true, oem_id: "BOCHS ", revision: 0, rsdt_address: 0x7fe_0000 }
}

fn rsdp_second() -> RsdpV2 {
    RsdpV2 {
        signature: "RSD PTR ",
        checksum_valid: false,
        oem_id: "QEMUQ ",
        revision: 2,
        xsdt_address: 0x7fe_1000,
        ext_checksum: 0x5a,
    }
}

#[test]
fn rsdp_prefers_the_extended_record() {
    let v1 = rsdp_first();
    let v2 = rsdp_second();
    let r = RSDP::new(Some(&v1), Some(&v2));
    assert_eq!(r.get_revision(), 2);
    assert_eq!(r.get_rsdt_addr(), 0x7fe_1000);
    assert_eq!(r.get_oem_id(), "QEMUQ ");
    assert_eq!(r.get_signature(), "RSD PTR ");
    assert!(!r.is_checksum_valid());
    assert_eq!(r.get_ext_checksum(), Ok(0x5a));
}

#[test]
fn rsdp_first_version_only() {
    let v1 = rsdp_first();
    let r = RSDP::new(Some(&v1), None);
    assert_eq!(r.get_revision(), 0);
    assert_eq!(r.get_rsdt_addr(), 0x7fe_0000);
    assert_eq!(r.get_oem_id(), "BOCHS ");
    assert!(r.is_checksum_valid());
    assert_eq!(r.get_ext_checksum(), Err("You're using RSDP, not XSDP!"));
}

#[test]
fn kernel_header_from_an_image() {
    let mut image: Vec<u8> = b"kb00t!".to_vec();
    image.extend_from_slice(&1u16.to_le_bytes());
    image.extend_from_slice(&24u64.to_le_bytes());
    image.extend_from_slice(&[0; 8]);
    image.extend_from_slice(&0x10_2030u64.to_le_bytes());
    assert!(has_kernel_magic(&image));
    let (h, info) = KernelHeader::from_memory(&image);
    assert_eq!(&h.magic, b"kb00t!");
    assert_eq!({ h.revision }, 1);
    assert_eq!({ h.entry_offset }, 24);
    assert_eq!(info, "");
    assert_eq!(h.get_entry(&image), 0x10_2030);

    image[6] = 2;
    let (h2, info2) = KernelHeader::from_memory(&image);
    assert_eq!({ h2.revision }, 2);
    assert_eq!(info2, "WARNING: Using kernel with a boot revision other than 1. Things may not work!");
    assert!(!has_kernel_magic(b"kb00t"));
    assert!(!has_kernel_magic(b"kboot!xx"));
}
