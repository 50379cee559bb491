//! AHCI structures of the boot stage: the FIS layouts, the HBA register
//! blocks, command headers and tables, and the decisions taken on them
//! (device type of a port, free command slot, command engine start/stop).
use crate::boot::pci::{boot_scan_result, scan_pci_bus, PCIDevice};
use vstd::prelude::*;

verus! {

pub const SATA_SIG_ATA: u32 = 0x00000101;

pub const SATA_SIG_ATAPI: u32 = 0xEB140101;

pub const SATA_SIG_SEMB: u32 = 0xC33C0101;

pub const SATA_SIG_PM: u32 = 0x96690101;

pub const AHCI_BASE: u32 = 0x400000;

pub const AHCI_DEV_NULL: u8 = 0;

pub const AHCI_DEV_SATA: u8 = 1;

pub const AHCI_DEV_SEMB: u8 = 2;

pub const AHCI_DEV_PM: u8 = 3;

pub const AHCI_DEV_SATAPI: u8 = 4;

pub const HBA_PORT_IPM_ACTIVE: u8 = 1;

pub const HBA_PORT_DET_PRESENT: u8 = 3;

pub const HBA_PXCMD_ST: u32 = 0x0001;

pub const HBA_PXCMD_FRE: u32 = 0x0010;

pub const HBA_PXCMD_FR: u32 = 0x4000;

pub const HBA_PXCMD_CR: u32 = 0x8000;

pub const HBA_PXIS_TFES: u32 = 0x40000000;

pub const ATA_DEV_BUSY: u8 = 0x80;

pub const ATA_DEV_DRQ: u8 = 0x08;

pub const ATA_CMD_READ_DMA_EX: u8 = 0x25;

pub const CMD_SLOTS: usize = 32;

/// FIS types; on the wire: RegH2D 0x27, RegD2H 0x34, DMA activate 0x39,
/// DMA setup 0x41, Data 0x46, BIST 0x58, PIO setup 0x5F, device bits 0xA1.
pub enum FISType {
    FISTypeRegH2D,
    FISTypeRegD2H,
    FISTypeDMAACT,
    FISTypeDMASetup,
    FISTypeData,
    FisTypeBist,
    FISTypePIOSetup,
    FISTypeDevBits,
}

/// Port multiplier port (bits 0-3), reserved (4-6), command/control (7).
#[derive(Debug, Clone, Copy)]
pub struct FisRegH2DFlags(pub u8);

impl FisRegH2DFlags {
    /// Sets or clears the command/control bit (bit 7).
    pub fn set_c(&mut self, value: bool)
        ensures
            final(self).0 == (if value {
                old(self).0 | 0x80
            } else {
                old(self).0 & 0x7F
            }),
    {
        if value {
            self.0 = self.0 | 0x80;
        } else {
            self.0 = self.0 & 0x7F;
        }
    }
}

#[derive(Debug, Clone, Copy)]
pub struct FISRegH2D {
    pub fis_type: u8,
    pub flags: FisRegH2DFlags,
    pub command: u8,
    pub featurel: u8,
    pub lba0: u8,
    pub lba1: u8,
    pub lba2: u8,
    pub device: u8,
    pub lba3: u8,
    pub lba4: u8,
    pub lba5: u8,
    pub featureh: u8,
    pub countl: u8,
    pub counth: u8,
    pub icc: u8,
    pub control: u8,
    pub rsv1: [u8; 4],
}

/// Port multiplier port (bits 0-3), reserved (4-5), interrupt (6), reserved (7).
#[derive(Debug, Clone, Copy)]
pub struct FisRegD2HFlags(pub u8);

#[derive(Debug, Clone, Copy)]
pub struct FISRegD2H {
    pub fis_type: u8,
    pub flags: FisRegD2HFlags,
    pub status: u8,
    pub error: u8,
    pub lba0: u8,
    pub lba1: u8,
    pub lba2: u8,
    pub device: u8,
    pub lba3: u8,
    pub lba4: u8,
    pub lba5: u8,
    pub rsv2: u8,
    pub countl: u8,
    pub counth: u8,
    pub rsv3: [u8; 2],
    pub rsv4: [u8; 4],
}

/// Port multiplier port (bits 0-3), reserved (4), direction (5),
/// interrupt (6), auto-activate (7).
#[derive(Debug, Clone, Copy)]
pub struct FISDMASetupFlags(pub u8);

#[derive(Debug, Clone, Copy)]
pub struct FISDMASetup {
    pub fis_type: u8,
    pub flags: FISDMASetupFlags,
    pub rsved: [u8; 2],
    pub dma_buffer_id: u64,
    pub rsvd: u32,
    pub dma_buf_offset: u32,
    pub transfer_count: u32,
    pub resvd: u32,
}

/// Port multiplier port (bits 0-3), reserved (4-7).
#[derive(Debug, Clone, Copy)]
pub struct FisDataFlags(pub u8);

#[derive(Debug, Clone, Copy)]
pub struct FISData {
    pub fis_type: u8,
    pub flags: FisDataFlags,
    pub rsv1: [u8; 2],
    pub data: [u32; 1],
}

/// Port multiplier port (bits 0-3), reserved (4), direction (5),
/// interrupt (6), reserved (7).
#[derive(Debug, Clone, Copy)]
pub struct FISPIOSetupFlags(pub u8);

#[derive(Debug, Clone, Copy)]
pub struct FISPIOSetup {
    pub fis_type: u8,
    pub flags: FISPIOSetupFlags,
    pub status: u8,
    pub error: u8,
    pub lba0: u8,
    pub lba1: u8,
    pub lba2: u8,
    pub device: u8,
    pub lba3: u8,
    pub lba4: u8,
    pub lba5: u8,
    pub rsv2: u8,
    pub countl: u8,
    pub counth: u8,
    pub rsv3: u8,
    pub e_status: u8,
    pub tc: u16,
    pub rsv4: [u8; 2],
}

pub struct FISDevBits;

/// The registers of one HBA port.
pub struct HBAPort {
    pub clb: u32,
    pub clbu: u32,
    pub fb: u32,
    pub fbu: u32,
    pub is: u32,
    pub ie: u32,
    pub cmd: u32,
    pub rsv0: u32,
    pub tfd: u32,
    pub sig: u32,
    pub ssts: u32,
    pub sctl: u32,
    pub serr: u32,
    pub sact: u32,
    pub ci: u32,
    pub sntf: u32,
    pub fbs: u32,
    pub rsv1: [u32; 11],
    pub vendor: [u32; 4],
}

/// The generic host control registers followed by the first port.
pub struct HBAMem {
    pub cap: u32,
    pub ghc: u32,
    pub is: u32,
    pub pi: u32,
    pub vs: u32,
    pub ccc_ctl: u32,
    pub ccc_pts: u32,
    pub em_loc: u32,
    pub em_ctl: u32,
    pub cap2: u32,
    pub bohc: u32,
    pub rsv: [u8; 116],
    pub vendor: [u8; 96],
    pub ports: [HBAPort; 1],
}

/// The received-FIS area of a port.
pub struct HBAFIS {
    pub dsfis: FISDMASetup,
    pub pad0: [u8; 4],
    pub psfis: FISPIOSetup,
    pub pad1: [u8; 12],
    pub rfis: FISRegD2H,
    pub pad2: [u8; 4],
    pub sdbfis: FISDevBits,
    pub ufis: [u8; 64],
    pub rsv: [u8; 96],
}

/// Command FIS length in dwords (bits 0-4), ATAPI (5), write (6),
/// prefetchable (7).
#[derive(Debug, Clone, Copy)]
pub struct HBACMDHeaderByte0(pub u8);

impl HBACMDHeaderByte0 {
    /// Sets the command FIS length (five bits).
    pub fn set_cfl(&mut self, value: u8)
        requires
            value < 32,
        ensures
            final(self).0 == (old(self).0 & 0xE0) | value,
    {
        self.0 = (self.0 & 0xE0) | value;
    }

    /// A copy with the write bit (bit 6) set or cleared.
    pub fn with_w(self, value: bool) -> (res: Self)
        ensures
            res.0 == (if value {
                self.0 | 0x40
            } else {
                self.0 & 0xBF
            }),
    {
        if value {
            HBACMDHeaderByte0(self.0 | 0x40)
        } else {
            HBACMDHeaderByte0(self.0 & 0xBF)
        }
    }
}

/// Reset (bit 0), BIST (1), clear busy (2), reserved (3), port multiplier
/// port (4-7).
#[derive(Debug, Clone, Copy)]
pub struct HBACMDHeaderByte1(pub u8);

#[derive(Debug, Clone, Copy)]
pub struct HBACMDHeader {
    pub byte0: HBACMDHeaderByte0,
    pub byte1: HBACMDHeaderByte1,
    pub prdtl: u16,
    pub prdbc: u32,
    pub ctba: u32,
    pub ctbau: u32,
    pub rsv1: [u32; 4],
}

/// Byte count (bits 0-21), reserved (22-30), interrupt on completion (31).
#[derive(Debug, Clone, Copy)]
pub struct HBAPRDTEntryFlags(pub u32);

impl HBAPRDTEntryFlags {
    /// The byte count field (bits 0-21).
    pub fn dbc(&self) -> (res: u32)
        ensures
            res == self.0 & 0x3F_FFFF,
            res < 0x40_0000,
    {
        let v = self.0;
        assert(v & 0x3F_FFFF < 0x40_0000) by (bit_vector);
        v & 0x3F_FFFF
    }

    /// Replaces the byte count field (bits 0-21); the value must fit in it.
    pub fn set_dbc(&mut self, value: u32)
        requires
            value < 0x40_0000,
        ensures
            final(self).0 == (old(self).0 & 0xFFC0_0000) | value,
    {
        self.0 = (self.0 & 0xFFC0_0000) | value;
    }
}

#[derive(Debug, Clone, Copy)]
pub struct HBAPRDTEntry {
    pub dba: u32,
    pub dbau: u32,
    pub rsv0: u32,
    pub flags: HBAPRDTEntryFlags,
}

impl HBAPRDTEntry {
    /// Replaces the byte count of this entry.
    pub fn set_dbc(&mut self, value: u32)
        requires
            value < 0x40_0000,
        ensures
            final(self).flags.0 == (old(self).flags.0 & 0xFFC0_0000) | value,
            final(self).dba == old(self).dba,
            final(self).dbau == old(self).dbau,
            final(self).rsv0 == old(self).rsv0,
    {
        self.flags.set_dbc(value);
    }

    /// Sets or clears bit 0 of the byte count (not the interrupt bit).
    pub fn set_i(&mut self, flag: bool)
        ensures
            final(self).flags.0 == (old(self).flags.0 & 0xFFC0_0000) | (if flag {
                (old(self).flags.0 & 0x3F_FFFF) | 1
            } else {
                (old(self).flags.0 & 0x3F_FFFF) & !1u32
            }),
            final(self).dba == old(self).dba,
            final(self).dbau == old(self).dbau,
            final(self).rsv0 == old(self).rsv0,
    {
        let mut x = self.flags.dbc();
        if flag {
            x |= 1;
            let ghost y = self.flags.0 & 0x3F_FFFF;
            assert(y < 0x40_0000 ==> y | 1 < 0x40_0000) by (bit_vector);
            self.set_dbc(x);
        } else {
            x &= !1;
            let ghost y = self.flags.0 & 0x3F_FFFF;
            assert(y < 0x40_0000 ==> y & !1u32 < 0x40_0000) by (bit_vector);
            self.set_dbc(x);
        }
    }
}

/// A command table with its first physical region descriptor.
pub struct HBACMDTBL {
    pub cfis: [u8; 64],
    pub acmd: [u8; 16],
    pub rsv: [u8; 48],
    pub prdt_entry: [HBAPRDTEntry; 1],
}

/// What kind of device sits on a port: none unless the device is present
/// (DET = 3) and active (IPM = 1); otherwise by its signature, which must be
/// one of the four known ones.
pub open spec fn port_device_type(ssts: u32, sig: u32) -> u8 {
    if ssts & 0x0F != 3 || (ssts >> 8) & 0x0F != 1 {
        AHCI_DEV_NULL
    } else if sig == SATA_SIG_ATAPI {
        AHCI_DEV_SATAPI
    } else if sig == SATA_SIG_SEMB {
        AHCI_DEV_SEMB
    } else if sig == SATA_SIG_PM {
        AHCI_DEV_PM
    } else {
        AHCI_DEV_SATA
    }
}

pub open spec fn known_signature(sig: u32) -> bool {
    sig == SATA_SIG_ATA || sig == SATA_SIG_ATAPI || sig == SATA_SIG_SEMB || sig == SATA_SIG_PM
}

/// Classifies the device on a port.
pub fn check_type(port: &HBAPort) -> (res: u8)
    requires
        port.ssts & 0x0F == 3 && (port.ssts >> 8) & 0x0F == 1 ==> known_signature(port.sig),
    ensures
        res == port_device_type(port.ssts, port.sig),
{
    let ssts = port.ssts;
    let ipm: u8 = ((ssts >> 8) & 0x0F) as u8;
    let det: u8 = (ssts & 0x0F) as u8;
    assert((ssts >> 8) & 0x0F < 16 && ssts & 0x0F < 16) by (bit_vector);
    if det != HBA_PORT_DET_PRESENT {
        return AHCI_DEV_NULL;
    }
    if ipm != HBA_PORT_IPM_ACTIVE {
        return AHCI_DEV_NULL;
    }
    let sig = port.sig;
    if sig == SATA_SIG_ATAPI {
        AHCI_DEV_SATAPI
    } else if sig == SATA_SIG_SEMB {
        AHCI_DEV_SEMB
    } else if sig == SATA_SIG_PM {
        AHCI_DEV_PM
    } else {
        AHCI_DEV_SATA
    }
}

/// Starts the command engine: the command list must not be running (CR
/// clear, or the wait never ends); then sets FRE and ST.
pub fn start_cmd(port: &mut HBAPort)
    requires
        old(port).cmd & HBA_PXCMD_CR == 0,
    ensures
        final(port).cmd == old(port).cmd | HBA_PXCMD_FRE | HBA_PXCMD_ST,
        final(port).ci == old(port).ci,
        final(port).sact == old(port).sact,
{
    while port.cmd & HBA_PXCMD_CR != 0
        invariant
            port.cmd & HBA_PXCMD_CR == 0,
        decreases 0nat,
    {
    }
    port.cmd |= HBA_PXCMD_FRE;
    port.cmd |= HBA_PXCMD_ST;
}

/// Stops the command engine: clears ST and FRE, then waits for FR and CR
/// to read clear (which they must already be, or the wait never ends).
pub fn stop_cmd(port: &mut HBAPort)
    requires
        old(port).cmd & HBA_PXCMD_FR == 0,
        old(port).cmd & HBA_PXCMD_CR == 0,
    ensures
        final(port).cmd == old(port).cmd & !HBA_PXCMD_ST & !HBA_PXCMD_FRE,
        final(port).ci == old(port).ci,
        final(port).sact == old(port).sact,
{
    port.cmd &= !HBA_PXCMD_ST;
    port.cmd &= !HBA_PXCMD_FRE;
    let ghost c = old(port).cmd;
    assert(c & 0x4000 == 0 && c & 0x8000 == 0 ==> (c & !1u32 & !0x10u32) & 0x4000 == 0 && (c
        & !1u32 & !0x10u32) & 0x8000 == 0) by (bit_vector);
    loop
        invariant
            port.cmd & HBA_PXCMD_FR == 0,
            port.cmd & HBA_PXCMD_CR == 0,
            port.cmd == old(port).cmd & !HBA_PXCMD_ST & !HBA_PXCMD_FRE,
            port.ci == old(port).ci,
            port.sact == old(port).sact,
        decreases 0nat,
    {
        if port.cmd & HBA_PXCMD_FR != 0 {
            continue;
        }
        if port.cmd & HBA_PXCMD_CR != 0 {
            continue;
        }
        break;
    }
}

/// Bit `j` of `x`.
pub open spec fn bit_of(x: u32, j: int) -> u32 {
    (x >> (j as u32)) & 1
}

/// Index of the lowest clear bit of `x` at or above `k` (32 if none).
pub open spec fn first_clear_bit_from(x: u32, k: int) -> int
    decreases 32 - k,
{
    if k >= 32 || k < 0 {
        32
    } else if bit_of(x, k) == 0 {
        k
    } else {
        first_clear_bit_from(x, k + 1)
    }
}

/// The free command slot that `find_cmdslot` reports for the busy mask
/// `slots`: the lowest clear bit, provided its index is below the numeric
/// value of the mask (the search runs only that many steps).
pub open spec fn free_slot(slots: u32) -> Option<u32> {
    let k = first_clear_bit_from(slots, 0);
    if k < slots {
        Some(k as u32)
    } else {
        None
    }
}

proof fn lemma_first_clear_bit_from(x: u32, k: int)
    requires
        0 <= k <= 32,
    ensures
        k <= first_clear_bit_from(x, k) <= 32,
        forall|j: int| k <= j < first_clear_bit_from(x, k) ==> #[trigger] bit_of(x, j) == 1,
        first_clear_bit_from(x, k) < 32 ==> bit_of(x, first_clear_bit_from(x, k)) == 0,
    decreases 32 - k,
{
    if k < 32 && bit_of(x, k) != 0 {
        lemma_first_clear_bit_from(x, k + 1);
        let kk = k as u32;
        assert((x >> kk) & 1 != 0 ==> (x >> kk) & 1 == 1) by (bit_vector);
    }
}

/// Finds a command slot that is neither active nor issued.
pub fn find_cmdslot(port: &mut HBAPort) -> (res: Option<u32>)
    ensures
        res == free_slot(old(port).sact | old(port).ci),
        *final(port) == *old(port),
{
    lowest_free_slot(port.sact | port.ci)
}

/// The search for a free slot in the busy mask `x`: walks the mask bit by
/// bit for as many steps as its value.
pub fn lowest_free_slot(x: u32) -> (res: Option<u32>)
    ensures
        res == free_slot(x),
{
    let mut slots: u32 = x;
    proof {
        lemma_first_clear_bit_from(x, 0);
        assert(x >> 0u32 == x) by (bit_vector);
    }
    let n = slots;
    let mut i: u32 = 0;
    while i < n
        invariant
            x == n,
            i <= 32,
            i <= n,
            first_clear_bit_from(x, 0) >= i,
            i < 32 ==> slots == x >> i,
            i == 32 ==> slots == 0,
            forall|j: int| 0 <= j < first_clear_bit_from(x, 0) ==> #[trigger] bit_of(x, j) == 1,
            first_clear_bit_from(x, 0) <= 32,
            first_clear_bit_from(x, 0) < 32 ==> bit_of(x, first_clear_bit_from(x, 0)) == 0,
        decreases n - i,
    {
        if (slots & 1) == 0 {
            proof {
                if i < 32 {
                    assert(bit_of(x, i as int) == (x >> i) & 1);
                    if (i as int) < first_clear_bit_from(x, 0) {
                        assert(bit_of(x, i as int) == 1);
                    }
                }
                assert(first_clear_bit_from(x, 0) == i as int);
                assert(free_slot(x) == Some(i));
            }
            return Some(i);
        }
        proof {
            assert(slots == 0 ==> slots & 1 == 0) by (bit_vector);
            assert(i < 32);
            assert(bit_of(x, i as int) == (x >> i) & 1);
            let b = (x >> i) & 1;
            assert(b != 0 ==> b == 1) by (bit_vector)
                requires
                    b == (x >> i) & 1,
            ;
        }
        slots >>= 1;
        proof {
            let ii = i;
            assert(ii < 31 ==> (x >> ii) >> 1u32 == x >> ((ii + 1) as u32)) by (bit_vector);
            assert(ii == 31 ==> (x >> ii) >> 1u32 == 0) by (bit_vector);
        }
        i += 1;
    }
    None
}

pub struct AHCIDevice {
    pub pci_device: PCIDevice,
    pub is_mounted: bool,
}

impl AHCIDevice {
    pub fn new(pci_device: PCIDevice) -> (res: Self)
        ensures
            res.pci_device == pci_device,
            !res.is_mounted,
    {
        Self { pci_device, is_mounted: false }
    }
}

/// The AHCI class: mass storage, SATA, AHCI programming interface.
pub open spec fn ahci_function(d: PCIDevice) -> bool {
    d.class_id == 1 && d.subclass == 6 && d.prog_if == 1
}

/// The AHCI controllers (class 1, subclass 6, programming interface 1)
/// among the devices of a PCI scan, none of them mounted.
pub fn scan_for_ahci_devs<F: Fn(u8, u8, u8, u8) -> u32>(pci_config_read: &F) -> (res: Vec<
    AHCIDevice,
>)
    requires
        forall|b: u8, d: u8, f: u8, o: u8| pci_config_read.requires((b, d, f, o)),
    ensures
        exists|all: Seq<PCIDevice>|
            boot_scan_result(pci_config_read, all) && res@.map_values(|a: AHCIDevice| a.pci_device)
                == all.filter(|d: PCIDevice| ahci_function(d)),
        forall|i: int|
            0 <= i < res@.len() ==> (#[trigger] res@[i]).pci_device.class_id == 1
                && res@[i].pci_device.subclass == 6 && res@[i].pci_device.prog_if == 1
                && !res@[i].is_mounted && res@[i].pci_device.vendor_id != 0xFFFF,
{
    let mut devs = scan_pci_bus(pci_config_read);
    let ghost all = devs@;
    let ghost mut k: int = 0;
    let mut res: Vec<AHCIDevice> = Vec::new();
    while devs.len() > 0
        invariant
            0 <= k <= all.len(),
            devs@ == all.subrange(k, all.len() as int),
            boot_scan_result(pci_config_read, all),
            res@.map_values(|a: AHCIDevice| a.pci_device) == all.take(k).filter(
                |d: PCIDevice| ahci_function(d),
            ),
            forall|j: int| 0 <= j < devs@.len() ==> (#[trigger] devs@[j]).vendor_id != 0xFFFF,
            forall|i: int|
                0 <= i < res@.len() ==> (#[trigger] res@[i]).pci_device.class_id == 1
                    && res@[i].pci_device.subclass == 6 && res@[i].pci_device.prog_if == 1
                    && !res@[i].is_mounted && res@[i].pci_device.vendor_id != 0xFFFF,
        decreases devs@.len(),
    {
        let ghost before = res@;
        let d = devs.remove(0);
        proof {
            assert(d == all[k]);
            assert(all.take(k + 1).drop_last() =~= all.take(k));
            reveal(Seq::filter);
            k = k + 1;
        }
        assert(d.vendor_id != 0xFFFF);
        if d.class_id == 0x1 && d.subclass == 0x6 && d.prog_if == 0x1 {
            res.push(AHCIDevice::new(d));
            assert(res@.map_values(|a: AHCIDevice| a.pci_device) =~= before.map_values(
                |a: AHCIDevice| a.pci_device,
            ).push(all[k - 1]));
        }
        assert(devs@ =~= all.subrange(k, all.len() as int));
    }
    assert(all.take(k) =~= all);
    res
}

} // verus!
