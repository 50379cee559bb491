use lemoncake::boot::ahci::{scan_for_ahci_devs, AHCIDevice};
use lemoncake::boot::pci::{pci_config_address, scan_pci_bus as boot_scan, PCIDevice as BootPci};
use lemoncake::disks::ahci::{is_ahci, scan_for_ahci_controllers, FisType};
use lemoncake::disks::nvme::{
    advance_cq_head, advance_sq_tail, check_bar_sz, completion_matches, get_next_cmd_id, is_nvme,
    rw_command, transfer_pages, NVMeController, NVMeError, NVME_IO_READ, NVME_IO_WRITE,
};
use lemoncake::drivers::ide::{
    atapi_eject_packet, atapi_read_packet, buffer_port, cache_flush_command, check_status,
    check_transfer, fmt_error, name_as_string, needs_hob, parse_identify, plan_ata_access, rw_port,
    ATA_CMD_READ_PIO, ATA_CMD_READ_PIO_EXT, ATA_CMD_WRITE_DMA,
};
use lemoncake::pci::{scan_pci_bus, PCIDevice};

/// A bus with an AHCI controller at 0/1/0 and a multi-function device at
/// 0/2 (functions 0 and 3); everything else reads as absent.
fn config_read(bus: u8, slot: u8, func: u8, off: u16) -> u32 {
    match (bus, slot, func, off) {
        (0, 1, 0, 0) => 0x2922_8086,
        (0, 1, 0, 8) => 0x0106_0102,
        (0, 1, 0, 0x0C) => 0,
        (0, 2, 0, 0) => 0x1111_1234,
        (0, 2, 0, 8) => 0x0C03_0000,
        (0, 2, 0, 0x0C) => 0x0080_0000,
        (0, 2, 3, 0) => 0x2222_1234,
        (0, 2, 3, 8) => 0x0108_0200,
        _ => 0xFFFF_FFFF,
    }
}

#[test]
fn pci_scan_lists_present_functions() {
    let devs = scan_pci_bus(&|b, s, f, o| config_read(b, s, f, o));
    let ids: Vec<(u8, u8, u32)> = devs.iter().map(|d| (d.slot, d.func, d.device_id)).collect();
    assert!(ids.contains(&(1, 0, 0x2922)));
    assert!(ids.contains(&(2, 0, 0x1111)));
    let ahci: Vec<&PCIDevice> = devs.iter().filter(|d| d.slot == 1).collect();
    assert_eq!(ahci[0].class_code, 0x01);
    assert_eq!(ahci[0].subclass, 0x06);
}

#[test]
fn nvme_and_ahci_recognition() {
    let nvme = PCIDevice::new(0x1234, 0x2222, 0x01, 0x08, 0, 2, 3);
    assert!(is_nvme(&nvme));
    let ahci = PCIDevice::new(0x8086, 0x2922, 0x01, 0x06, 0, 1, 0);
    assert!(is_ahci(&ahci));
    assert!(!is_nvme(&ahci));
    let found = scan_for_ahci_controllers(&|b, s, f, o| config_read(b, s, f, o));
    assert!(!found.is_empty());
    assert_eq!(FisType::FisTypeRegH2D.as_u8(), 0x27);
}

#[test]
fn boot_pci_addresses_and_scan() {
    assert_eq!(pci_config_address(1, 2, 3, 0x0F), 0x8001_130C);
    let read = |b: u8, d: u8, f: u8, o: u8| config_read(b, d, f, o as u16);
    let devs = boot_scan(&read);
    assert!(devs.iter().all(|d| d.vendor_id != 0xFFFF));
    let ahci = scan_for_ahci_devs(&read);
    assert!(ahci.iter().all(|d| !d.is_mounted));
    let dev = AHCIDevice::new(BootPci::new(0, 1, 0, 0x8086, 0x2922, 2, 1, 6, 1));
    assert!(!dev.is_mounted);
}

#[test]
fn nvme_bar_sizes() {
    assert_eq!(check_bar_sz(0x4000).ok(), Some(0x4000));
    assert!(check_bar_sz(0).is_err());
    assert!(check_bar_sz((1u64 << 48) + 1).is_err());
}

#[test]
fn nvme_queue_cursors() {
    assert_eq!(advance_sq_tail(0, 4), 1);
    assert_eq!(advance_sq_tail(3, 4), 0);
    assert_eq!(advance_cq_head(2, 1, 4), (3, 1));
    assert_eq!(advance_cq_head(3, 1, 4), (0, 0));
    // A full pass over a queue of four flips the phase and returns the head.
    let (mut h, mut p) = (1u16, 0u8);
    for _ in 0..4 {
        let (nh, np) = advance_cq_head(h, p, 4);
        h = nh;
        p = np;
    }
    assert_eq!((h, p), (1, 1));
    assert!(completion_matches(0x0001, 7, 1, 7));
    assert!(!completion_matches(0x0000, 7, 1, 7));
    assert!(!completion_matches(0x0001, 6, 1, 7));
}

#[test]
fn nvme_commands() {
    let c = rw_command(false, 1, 0x1_0000_0002, 8);
    assert_eq!(c.opcode, NVME_IO_READ);
    assert_eq!(c.cdw10, 2);
    assert_eq!(c.cdw11, 1);
    assert_eq!(c.cdw12, 7);
    assert_eq!(rw_command(true, 1, 0, 1).opcode, NVME_IO_WRITE);
    assert_eq!(transfer_pages(8, 512, 4096), 1);
    assert_eq!(transfer_pages(9, 512, 4096), 2);
    let mut ctrl = NVMeController {
        pci_dev: PCIDevice::new(0x1234, 0x2222, 1, 8, 0, 2, 3),
        stride: 0,
        page_sz: 4096,
        max_queue_entries: 64,
        num_io_queues: 0,
        enabled: false,
        active_namespaces: 0,
        next_cmd_id: 5,
    };
    assert_eq!(get_next_cmd_id(&mut ctrl).ok(), Some(6));
    assert_eq!(ctrl.next_cmd_id, 6);
    assert!(matches!(NVMeError::from_repr(1), Some(_)));
}

#[test]
fn ide_ports() {
    assert_eq!(rw_port(0x1F0, 0x07), Some(0x1F7));
    assert_eq!(rw_port(0x1F0, 0x09), Some(0x1F3));
    assert_eq!(rw_port(0x1F0, 0x0C), Some(0x1F2));
    assert_eq!(rw_port(0x1F0, 0x16), None);
    assert_eq!(buffer_port(0x1F0, 0x3F6, 0xC000, 0x0C), Some(0x3F8));
    assert_eq!(buffer_port(0x1F0, 0x3F6, 0xC000, 0x0E), Some(0xC000));
    assert!(needs_hob(0x08));
    assert!(!needs_hob(0x07));
}

#[test]
fn ide_status_and_errors() {
    assert_eq!(check_status(0x01), 2);
    assert_eq!(check_status(0x20), 1);
    assert_eq!(check_status(0x00), 3);
    assert_eq!(check_status(0x08), 0);
    assert_eq!(fmt_error(0, &|| 0).0, 0);
    assert_eq!(fmt_error(1, &|| 0), (19, vec!["Device fault"]));
    assert_eq!(fmt_error(2, &|| 0x05), (20, vec!["No Address Mark Found", "Command Aborted"]));
    assert_eq!(fmt_error(2, &|| 0x80), (13, vec!["Bad Sectors"]));
    assert_eq!(fmt_error(3, &|| 0), (23, vec!["Reads Nothing"]));
    assert_eq!(fmt_error(4, &|| 0), (8, vec!["Write Protected"]));
    assert_eq!(cache_flush_command(2), 0xEA);
    assert_eq!(cache_flush_command(1), 0xE7);
}

#[test]
fn ide_access_plans() {
    let p = plan_ata_access(0x1000_0001, 0, 1, 0, false);
    assert_eq!(p.lba_mode, 2);
    assert_eq!(p.lba_io, [1, 0, 0, 0x10, 0, 0]);
    assert_eq!(p.cmd, ATA_CMD_READ_PIO_EXT);
    assert_eq!(p.hddevsel, 0xF0);
    let q = plan_ata_access(0x0123_4567, 0x200, 0, 1, true);
    assert_eq!(q.lba_mode, 1);
    assert_eq!(q.lba_io, [0x67, 0x45, 0x23, 0, 0, 0]);
    assert_eq!(q.head, 1);
    assert_eq!(q.hddevsel, 0xE1);
    assert_eq!(q.cmd, ATA_CMD_WRITE_DMA);
    // CHS: lba 1000 = sector 56 (1000 % 63 + 1), head 15, cylinder 0.
    let r = plan_ata_access(1000, 0, 0, 0, false);
    assert_eq!(r.lba_mode, 0);
    assert_eq!(r.lba_io[0], 56);
    assert_eq!(r.head, 15);
    assert_eq!(r.cmd, ATA_CMD_READ_PIO);
}

#[test]
fn ide_packets_and_checks() {
    let p = atapi_read_packet(0x0403_0201, 2);
    assert_eq!(p, [0xA8, 0, 0x01, 0x03, 0x02, 0x01, 0, 0, 0, 2, 0, 0]);
    assert_eq!(atapi_eject_packet()[0], 0x1B);
    assert_eq!(check_transfer(4, true, true, 0, 1, 10), 1);
    assert_eq!(check_transfer(0, false, true, 0, 1, 10), 1);
    assert_eq!(check_transfer(0, true, true, 9, 2, 10), 2);
    assert_eq!(check_transfer(0, true, false, 9, 2, 10), 0);
    assert_eq!(check_transfer(0, true, true, 8, 2, 10), 0);
}

#[test]
fn ide_identify_data() {
    let mut buf = [0u8; 512];
    buf[0] = 0x40;
    buf[98] = 0x00;
    buf[99] = 0x02;
    buf[164..168].copy_from_slice(&(1u32 << 26).to_le_bytes());
    buf[200..204].copy_from_slice(&1234u32.to_le_bytes());
    buf[120..124].copy_from_slice(&99u32.to_le_bytes());
    buf[54..58].copy_from_slice(b"BAAB");
    let id = parse_identify(&buf);
    assert_eq!(id.sig, 0x40);
    assert_eq!(id.capabilities, 0x200);
    assert_eq!(id.sz, 1234);
    assert_eq!(&id.model[..4], b"ABBA");
    assert_eq!(id.model[40], 0);
    let mut model = [0u8; 41];
    model[..3].copy_from_slice(b"QEM");
    let s = name_as_string(model);
    assert_eq!(s.chars().count(), 41);
    assert!(s.starts_with("QEM\0"));
}
