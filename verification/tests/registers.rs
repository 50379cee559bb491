use lemoncake::boot::ahci::{
    check_type as boot_check_type, find_cmdslot as boot_find_cmdslot, lowest_free_slot,
    start_cmd, stop_cmd, FisRegH2DFlags, HBACMDHeaderByte0, HBAPRDTEntry, HBAPRDTEntryFlags,
    HBAPort,
};
use lemoncake::boot::display::{Buffer, Pixel, TTYColors, TTY};
use lemoncake::disks::nvme::{
    is_completion_successful, parse_lba_fmt, Lbaf, NVMeCompletion, NVMeError, NVMeIDNs,
    NVMeNamespace,
};
use lemoncake::drivers::ustar::USTarFile;
use lemoncake::elf::Process;

fn port(cmd: u32, ssts: u32, sig: u32, sact: u32, ci: u32) -> HBAPort {
    HBAPort {
        clb: 0,
        clbu: 0,
        fb: 0,
        fbu: 0,
        is: 0,
        ie: 0,
        cmd,
        rsv0: 0,
        tfd: 0,
        sig,
        ssts,
        sctl: 0,
        serr: 0,
        sact,
        ci,
        sntf: 0,
        fbs: 0,
        rsv1: [0; 11],
        vendor: [0; 4],
    }
}

#[test]
fn fis_and_header_bits() {
    let mut f = FisRegH2DFlags(0x05);
    f.set_c(true);
    assert_eq!(f.0, 0x85);
    f.set_c(false);
    assert_eq!(f.0, 0x05);

    let mut h = HBACMDHeaderByte0(0xff);
    h.set_cfl(5);
    assert_eq!(h.0, 0xe5);
    assert_eq!(h.with_w(false).0, 0xa5);
    assert_eq!(HBACMDHeaderByte0(0).with_w(true).0, 0x40);
}

#[test]
fn prdt_entry_bits() {
    let mut fl = HBAPRDTEntryFlags(0x8000_0000);
    fl.set_dbc(0x1ff);
    assert_eq!(fl.0, 0x8000_01ff);
    assert_eq!(fl.dbc(), 0x1ff);
    let mut e = HBAPRDTEntry { dba: 0x1000, dbau: 0, rsv0: 0, flags: HBAPRDTEntryFlags(0) };
    e.set_dbc(0x3fe);
    assert_eq!(e.flags.0, 0x3fe);
    // The flag lands on bit 0 of the byte count.
    e.set_i(true);
    assert_eq!(e.flags.0, 0x3ff);
    e.set_i(false);
    assert_eq!(e.flags.0, 0x3fe);
    assert_eq!(e.dba, 0x1000);
}

#[test]
fn boot_port_engine_and_slots() {
    let sata = port(0, 0x113, 0x0000_0101, 0, 0);
    assert_eq!(boot_check_type(&sata), 1);
    let atapi = port(0, 0x113, 0xEB14_0101, 0, 0);
    assert_eq!(boot_check_type(&atapi), 4);
    let absent = port(0, 0x0, 0xEB14_0101, 0, 0);
    assert_eq!(boot_check_type(&absent), 0);

    let mut p = port(0x0000_0100, 0x113, 0x101, 0, 0);
    start_cmd(&mut p);
    assert_eq!(p.cmd, 0x0000_0111);
    stop_cmd(&mut p);
    assert_eq!(p.cmd, 0x0000_0100);

    let mut busy = port(0, 0x113, 0x101, 0b0101, 0b0010);
    assert_eq!(boot_find_cmdslot(&mut busy), Some(3));
    // The search runs as many steps as the mask's value: a full mask ends
    // past the last slot, an empty one finds nothing.
    let mut full = port(0, 0x113, 0x101, u32::MAX, 0);
    assert_eq!(boot_find_cmdslot(&mut full), Some(32));
    assert_eq!(lowest_free_slot(0), None);
    assert_eq!(lowest_free_slot(0xffff_fffe), Some(0));
    assert_eq!(lowest_free_slot(0x7fff_ffff), Some(31));
}

#[test]
fn tty_colours_and_clearing() {
    let b = TTYColors::bonw();
    assert_eq!(b.foreground, (0, 0, 0));
    assert_eq!(b.background, (255, 255, 255));
    let y = TTYColors::wony();
    assert_eq!(y.foreground, (255, 255, 255));
    assert_eq!(y.background, (255, 255, 0));
    let mut tty = TTY::new();
    tty.set_colors(y);
    let mut buf = Buffer::new(4, 3);
    tty.clear_buf(&mut buf);
    assert_eq!(buf.get_pxl(0, 0), Some(Pixel { red: 255, green: 255, blue: 0 }));
    assert_eq!(buf.get_pxl(3, 2), Some(Pixel { red: 255, green: 255, blue: 0 }));
}

fn completion(stat: u16) -> NVMeCompletion {
    NVMeCompletion { result: 0, rsv0: 0, sq_head: 0, sq_id: 0, cmd_id: 1, stat }
}

#[test]
fn completion_status() {
    assert!(is_completion_successful(&completion(0)).is_ok());
    assert!(is_completion_successful(&completion(1)).is_ok());
    // status code 2, type 3: a timeout.
    assert!(matches!(
        is_completion_successful(&completion((3 << 9) | (2 << 1))),
        Err(NVMeError::Timeout)
    ));
    assert!(matches!(
        is_completion_successful(&completion((6 << 9) | (0x81 << 1))),
        Err(NVMeError::DeviceError)
    ));
}

fn namespace(flbasz: u8, nlbaf: u8) -> NVMeNamespace {
    let mut lbaf = [Lbaf { ms: 0, lbads: 9, rp: 0 }; 16];
    lbaf[1] = Lbaf { ms: 0, lbads: 12, rp: 0 };
    NVMeNamespace {
        nsid: 1,
        sz: 0x1000,
        lba_sz: 0,
        lba_shift: 0,
        valid: true,
        ns_data: NVMeIDNs { nssz: 0x1000, nscap: 0x1000, nsuse: 0, nlbaf, flbasz, lbaf },
    }
}

#[test]
fn namespace_block_size() {
    let mut ns = namespace(0x11, 2);
    assert!(parse_lba_fmt(&mut ns).is_ok());
    assert_eq!(ns.lba_sz, 4096);
    assert_eq!(ns.lba_shift, 12);
    let mut ns = namespace(0x03, 2);
    assert!(parse_lba_fmt(&mut ns).is_ok());
    assert_eq!(ns.lba_sz, 512);
    assert_eq!(ns.lba_shift, 9);
}

static TAR_DATA: [u8; 8] = *b"abcdefgh";

#[test]
fn archive_file_tail() {
    let f = USTarFile::new("a.txt", &TAR_DATA, 6);
    // The tail stops one byte short of the recorded size.
    assert_eq!(f.read_to_end(2), b"cde");
    assert_eq!(f.read_to_end(5), b"");
    assert_eq!(f.read_all(), b"abcdefgh");
}

static PROGRAM: [u8; 4] = [0x7f, b'E', b'L', b'F'];

#[test]
fn process_stack_address() {
    let mut p = Process::new(&PROGRAM);
    assert_eq!(p.stack_addr(), None);
    p.set_stack_addr(0x7000_0000);
    assert_eq!(p.stack_addr(), Some(0x7000_0000));
    assert_eq!(p.entrypoint(), None);
}
