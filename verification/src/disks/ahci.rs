//! AHCI controllers as the kernel finds them on the PCI bus, the frame
//! information structure (FIS) type codes, and what the kernel's driver
//! programs into a controller: where each port's command structures live,
//! which ports it keeps, which command slot it takes, and the command it
//! issues for a DMA transfer.
use crate::boot::ahci::{free_slot, lowest_free_slot, port_device_type};
use crate::pci::{scan_pci_bus, scan_result, PCIDevice};
use vstd::prelude::*;

verus! {

pub enum FisType {
    FisTypeRegH2D,
    FisTypeRegD2H,
    FisTypeDmaAct,
    FisTypeDmaSetup,
    FisTypeData,
    FisTypeBist,
    FisTypePioSetup,
    FisTypeDevBits,
}

/// The code each FIS type is sent as.
pub open spec fn fis_type_code(t: FisType) -> u8 {
    match t {
        FisType::FisTypeRegH2D => 0x27,
        FisType::FisTypeRegD2H => 0x34,
        FisType::FisTypeDmaAct => 0x39,
        FisType::FisTypeDmaSetup => 0x41,
        FisType::FisTypeData => 0x46,
        FisType::FisTypeBist => 0x58,
        FisType::FisTypePioSetup => 0x5F,
        FisType::FisTypeDevBits => 0xA1,
    }
}

impl FisType {
    pub fn as_u8(self) -> (res: u8)
        ensures
            res == fis_type_code(self),
    {
        match self {
            FisType::FisTypeRegH2D => 0x27,
            FisType::FisTypeRegD2H => 0x34,
            FisType::FisTypeDmaAct => 0x39,
            FisType::FisTypeDmaSetup => 0x41,
            FisType::FisTypeData => 0x46,
            FisType::FisTypeBist => 0x58,
            FisType::FisTypePioSetup => 0x5F,
            FisType::FisTypeDevBits => 0xA1,
        }
    }
}

/// The AHCI class: mass storage, SATA subclass.
pub open spec fn ahci_class(d: PCIDevice) -> bool {
    d.class_code == 0x01 && d.subclass == 0x06
}

/// Whether a PCI device is an AHCI controller (mass storage, SATA subclass).
pub fn is_ahci(device: &PCIDevice) -> (res: bool)
    ensures
        res == (device.class_code == 0x01 && device.subclass == 0x06),
{
    device.class_code == 0x01 && device.subclass == 0x06
}

/// The AHCI controllers among the devices that a scan of the PCI bus finds,
/// in scan order.
pub fn scan_for_ahci_controllers<F: Fn(u8, u8, u8, u16) -> u32>(read_config32: &F) -> (res: Vec<
    PCIDevice,
>)
    requires
        forall|b: u8, s: u8, f: u8, o: u16| read_config32.requires((b, s, f, o)),
    ensures
        exists|all: Seq<PCIDevice>|
            scan_result(read_config32, all) && res@ == all.filter(|d: PCIDevice| ahci_class(d)),
        forall|i: int|
            0 <= i < res@.len() ==> (#[trigger] res@[i]).class_code == 0x01 && res@[i].subclass
                == 0x06 && res@[i].vendor_id != 0xFFFF,
{
    let mut devices: Vec<PCIDevice> = Vec::new();
    let scanned = scan_pci_bus(read_config32);
    let mut i: usize = 0;
    while i < scanned.len()
        invariant
            i <= scanned@.len(),
            forall|j: int| 0 <= j < scanned@.len() ==> (#[trigger] scanned@[j]).vendor_id != 0xFFFF,
            forall|j: int|
                0 <= j < devices@.len() ==> (#[trigger] devices@[j]).class_code == 0x01
                    && devices@[j].subclass == 0x06 && devices@[j].vendor_id != 0xFFFF,
            devices@ == scanned@.take(i as int).filter(|d: PCIDevice| ahci_class(d)),
        decreases scanned@.len() - i,
    {
        let device = scanned[i];
        proof {
            assert(scanned@.take(i + 1).drop_last() =~= scanned@.take(i as int));
            reveal(Seq::filter);
        }
        if is_ahci(&device) {
            devices.push(device);
        }
        i = i + 1;
    }
    assert(scanned@.take(scanned@.len() as int) =~= scanned@);
    devices
}

/// Where the driver puts the command lists, received-FIS areas and command
/// tables of the ports.
pub const AHCI_BASE: u32 = 0x40_0000;

/// The task-file-error bit of a port's interrupt status, as the kernel's
/// driver tests it.
pub const HBA_PXIS_TFES: u32 = 0x01;

pub const ATA_DEV_BUSY: u32 = 0x80;

pub const ATA_DEV_DRQ: u32 = 0x08;

pub const ATA_CMD_READ_DMA_EX: u8 = 0x25;

pub const ATA_CMD_WRITE_DMA_EX: u8 = 0x35;

/// The kind of device on a port, from its SATA status and signature: 0 (no
/// device) unless present and active, else 4 for ATAPI, 2 for an enclosure
/// bridge, 3 for a port multiplier and 1 otherwise.
pub fn check_type(ssts: u32, sig: u32) -> (res: u32)
    ensures
        res == port_device_type(ssts, sig) as u32,
{
    let ipm = (ssts >> 8) & 0x0F;
    let det = ssts & 0x0F;
    if det != 3 || ipm != 1 {
        return 0;
    }
    if sig == 0xEB14_0101 {
        4
    } else if sig == 0xC33C_0101 {
        2
    } else if sig == 0x9669_0101 {
        3
    } else {
        1
    }
}

/// What the port probe reports from port `i` on: it walks the implemented
/// mask only while the bits it meets are set (the mask moves on only past a
/// set bit), for at most 31 ports; each port gives its kind and number, or
/// nothing for a port with no device.
pub open spec fn probe_from(pi: u32, types: Seq<u32>, i: int) -> Seq<Option<(u32, usize)>>
    decreases 31 - i,
{
    if i >= 31 || i < 0 || pi & 1 == 0 {
        Seq::empty()
    } else {
        let dt = types[i];
        let entry = if 1 <= dt <= 4 {
            Some((dt, i as usize))
        } else {
            None
        };
        seq![entry] + probe_from(pi >> 1u32, types, i + 1)
    }
}

/// The port probe: for the ports that the implemented-port mask `pi`
/// reaches, the kind of device found, from `types` (the kind of each of
/// the 32 ports).
pub fn probe_port(pi: u32, types: &[u32; 32]) -> (res: Vec<Option<(u32, usize)>>)
    ensures
        res@ == probe_from(pi, types@, 0),
{
    let mut ret: Vec<Option<(u32, usize)>> = Vec::new();
    let mut p = pi;
    let mut i: usize = 0;
    while i < 31
        invariant
            i <= 31,
            types@.len() == 32,
            ret@ + probe_from(p, types@, i as int) == probe_from(pi, types@, 0),
        decreases 31 - i,
    {
        if p & 1 != 0 {
            let dt = types[i];
            let entry = if 1 <= dt && dt <= 4 {
                Some((dt, i))
            } else {
                None
            };
            assert(probe_from(p, types@, i as int) == seq![entry] + probe_from(p >> 1u32, types@, i + 1));
            assert(ret@.push(entry) + probe_from(p >> 1u32, types@, i + 1) =~= ret@ + probe_from(p, types@, i as int));
            ret.push(entry);
            p = p >> 1;
        } else {
            assert(probe_from(p, types@, i as int) =~= Seq::empty());
            assert(probe_from(p, types@, i + 1) =~= Seq::empty());
        }
        i = i + 1;
    }
    assert(probe_from(p, types@, 31) =~= Seq::empty());
    assert(ret@ + Seq::<Option<(u32, usize)>>::empty() =~= ret@);
    ret
}

/// The ports a controller keeps, from port `i` on: those whose bit is set
/// in the implemented mask and that have a device, with their kinds.
pub open spec fn usable_from(pi: u32, types: Seq<u32>, i: int) -> Seq<(usize, u32)>
    decreases 32 - i,
{
    if i >= 32 || i < 0 {
        Seq::empty()
    } else {
        let rest = usable_from(pi >> 1u32, types, i + 1);
        if pi & 1 != 0 && types[i] != 0 {
            seq![(i as usize, types[i])] + rest
        } else {
            rest
        }
    }
}

/// The ports a controller uses: each implemented port (bit set in `pi`)
/// with a device on it, as port number and kind, in port order.
pub fn usable_ports(pi: u32, types: &[u32; 32]) -> (res: Vec<(usize, u32)>)
    ensures
        res@ == usable_from(pi, types@, 0),
{
    let mut ports: Vec<(usize, u32)> = Vec::new();
    let mut p = pi;
    let mut i: usize = 0;
    while i < 32
        invariant
            i <= 32,
            types@.len() == 32,
            ports@ + usable_from(p, types@, i as int) == usable_from(pi, types@, 0),
        decreases 32 - i,
    {
        let rest = Ghost(usable_from(p >> 1u32, types@, i + 1));
        if p & 1 != 0 && types[i] != 0 {
            assert(ports@.push((i, types@[i as int])) + rest@ =~= ports@ + (seq![(i, types@[i as int])] + rest@));
            ports.push((i, types[i]));
        }
        p = p >> 1;
        i = i + 1;
    }
    assert(ports@ + Seq::<(usize, u32)>::empty() =~= ports@);
    ports
}

/// Where port `pn`'s structures go: its command list, its received-FIS
/// area, and the command table of each of its 32 slots.
pub struct PortLayout {
    pub clb: u32,
    pub fb: u32,
    pub ctba: Vec<u32>,
}

/// The addresses a port is rebased to: the command list at 1 KiB per port,
/// the FIS areas after 32 command lists at 256 bytes per port, and the
/// command tables after 40 KiB at 8 KiB per port and 256 bytes per slot.
pub fn port_layout(pn: u32) -> (res: PortLayout)
    requires
        pn < 32,
    ensures
        res.clb == AHCI_BASE + pn * 1024,
        res.fb == AHCI_BASE + 32 * 1024 + pn * 256,
        res.ctba@.len() == 32,
        forall|i: int| 0 <= i < 32 ==> #[trigger] res.ctba@[i] == AHCI_BASE + 40 * 1024 + pn * 8192 + i * 256,
{
    let mut ctba: Vec<u32> = Vec::new();
    let mut i: u32 = 0;
    while i < 32
        invariant
            pn < 32,
            i <= 32,
            ctba@.len() == i,
            forall|k: int| 0 <= k < i ==> #[trigger] ctba@[k] == AHCI_BASE + 40 * 1024 + pn * 8192 + k * 256,
        decreases 32 - i,
    {
        ctba.push(AHCI_BASE + 40 * 1024 + pn * 8192 + i * 256);
        i = i + 1;
    }
    PortLayout { clb: AHCI_BASE + pn * 1024, fb: AHCI_BASE + 32 * 1024 + pn * 256, ctba }
}

/// The command slot the driver takes: the lowest slot neither active nor
/// issued, found within as many steps as the busy mask's value, else -1.
pub fn find_cmdslot(sact: u32, ci: u32) -> (res: i32)
    ensures
        res == (match free_slot(sact | ci) {
            Some(k) => k as i32,
            None => -1i32,
        }),
{
    match lowest_free_slot(sact | ci) {
        Some(k) => k as i32,
        None => -1,
    }
}

/// One physical region of a DMA transfer: its address, the byte count
/// minus one handed to the descriptor, and whether it interrupts.
#[derive(Debug, Clone, Copy)]
pub struct PrdtEntry {
    pub dba: u32,
    pub dbc: u32,
    pub interrupt: bool,
}

/// The register host-to-device FIS of a DMA command.
#[derive(Debug, Clone, Copy)]
pub struct DmaFis {
    pub fis_type: u8,
    /// The command (not control) bit.
    pub c: bool,
    pub cmd: u8,
    pub lba: [u8; 6],
    pub device: u8,
    pub countl: u8,
    pub counth: u8,
}

/// What the driver writes into a command header and its table for a DMA
/// transfer.
pub struct DmaCommand {
    /// The command-FIS length handed to the header (the FIS's size in bytes).
    pub cfl: u8,
    pub write: bool,
    pub prdtl: u16,
    pub prdt: Vec<PrdtEntry>,
    pub fis: DmaFis,
}

/// The number of region descriptors for `count` sectors: one per 16.
pub open spec fn prdt_len(count: u32) -> int {
    (count - 1) / 16 + 1
}

/// The sectors left for the last region.
pub open spec fn last_region_sectors(count: u32) -> int {
    count - 16 * (prdt_len(count) - 1)
}

/// The command for a DMA transfer of `count` sectors at the 48-bit address
/// `starth:startl` through the buffer at `buf`: full regions of 8 KiB with
/// no interrupt, then the rest with one; a READ/WRITE DMA EXT FIS in LBA
/// mode. The count fields take what is left for the last region: a read
/// puts its high byte in the low count field and leaves the high one clear,
/// a write puts its two bytes in order.
pub open spec fn dma_command_matches(c: DmaCommand, write: bool, startl: u32, starth: u32, count: u32, buf: u32) -> bool {
    let n = prdt_len(count);
    let rem = last_region_sectors(count);
    &&& c.cfl == 20
    &&& c.write == write
    &&& c.prdtl == n
    &&& c.prdt@.len() == n
    &&& forall|i: int| 0 <= i < n - 1 ==> #[trigger] c.prdt@[i] == (PrdtEntry {
        dba: ((buf + 4096 * i) % 0x1_0000_0000) as u32,
        dbc: 8191,
        interrupt: false,
    })
    &&& c.prdt@[n - 1] == (PrdtEntry {
        dba: ((buf + 4096 * (n - 1)) % 0x1_0000_0000) as u32,
        dbc: (rem * 512 - 1) as u32,
        interrupt: true,
    })
    &&& c.fis.fis_type == 0x27
    &&& c.fis.c
    &&& c.fis.cmd == (if write { ATA_CMD_WRITE_DMA_EX } else { ATA_CMD_READ_DMA_EX })
    &&& c.fis.lba@ == seq![
        (startl % 256) as u8,
        ((startl / 256) % 256) as u8,
        ((startl / 0x1_0000) % 256) as u8,
        (startl / 0x100_0000) as u8,
        (starth % 256) as u8,
        ((starth / 256) % 256) as u8,
    ]
    &&& c.fis.device == 0x40
    &&& c.fis.countl == (if write { rem % 256 } else { (rem / 256) % 256 }) as u8
    &&& c.fis.counth == (if write { (rem / 256) % 256 } else { 0 }) as u8
}

/// Builds the DMA command for a transfer of `count` sectors (at least one,
/// and few enough that the descriptor count fits 16 bits).
pub fn dma_command(write: bool, startl: u32, starth: u32, count: u32, buf: u32) -> (res: DmaCommand)
    requires
        1 <= count <= 16 * 0xFFFF,
    ensures
        dma_command_matches(res, write, startl, starth, count, buf),
{
    let prdtl: u16 = ((count - 1) / 16 + 1) as u16;
    let mut prdt: Vec<PrdtEntry> = Vec::new();
    let mut addr: u32 = buf;
    let mut remaining: u32 = count;
    let mut i: u16 = 0;
    while i < prdtl - 1
        invariant
            prdtl == prdt_len(count),
            1 <= count <= 16 * 0xFFFF,
            i < prdtl,
            prdt@.len() == i,
            remaining == count - 16 * i,
            addr == (buf + 4096 * i) % 0x1_0000_0000,
            forall|k: int| 0 <= k < i ==> #[trigger] prdt@[k] == (PrdtEntry {
                dba: ((buf + 4096 * k) % 0x1_0000_0000) as u32,
                dbc: 8191,
                interrupt: false,
            }),
        decreases prdtl - 1 - i,
    {
        prdt.push(PrdtEntry { dba: addr, dbc: 8191, interrupt: false });
        proof {
            vstd::arithmetic::div_mod::lemma_add_mod_noop(buf + 4096 * i, 4096, 0x1_0000_0000);
            vstd::arithmetic::div_mod::lemma_mod_twice(4096, 0x1_0000_0000);
        }
        addr = addr.wrapping_add(4096);
        remaining = remaining - 16;
        i = i + 1;
    }
    assert(1 <= remaining <= 16);
    prdt.push(PrdtEntry { dba: addr, dbc: remaining * 512 - 1, interrupt: true });
    let lba = [
        (startl % 256) as u8,
        ((startl / 256) % 256) as u8,
        ((startl / 0x1_0000) % 256) as u8,
        (startl / 0x100_0000) as u8,
        (starth % 256) as u8,
        ((starth / 256) % 256) as u8,
    ];
    let fis = DmaFis {
        fis_type: 0x27,
        c: true,
        cmd: if write {
            ATA_CMD_WRITE_DMA_EX
        } else {
            ATA_CMD_READ_DMA_EX
        },
        lba,
        device: 0x40,
        countl: if write {
            (remaining % 256) as u8
        } else {
            ((remaining / 256) % 256) as u8
        },
        counth: if write {
            ((remaining / 256) % 256) as u8
        } else {
            0
        },
    };
    let res = DmaCommand { cfl: 20, write, prdtl, prdt, fis };
    assert(res.fis.lba@ =~= seq![
        (startl % 256) as u8,
        ((startl / 256) % 256) as u8,
        ((startl / 0x1_0000) % 256) as u8,
        (startl / 0x100_0000) as u8,
        (starth % 256) as u8,
        ((starth / 256) % 256) as u8,
    ]);
    res
}

/// Whether a port may take a command: neither busy nor requesting data.
pub fn port_idle(tfd: u32) -> (res: bool)
    ensures
        res == (tfd & (ATA_DEV_BUSY | ATA_DEV_DRQ) == 0),
{
    tfd & (ATA_DEV_BUSY | ATA_DEV_DRQ) == 0
}

/// Where an issued command stands.
#[derive(Debug, Clone, Copy, PartialEq, Eq, Structural)]
pub enum CommandState {
    Running,
    Done,
    Failed,
}

/// Where the command in `slot` stands from the port's command-issue and
/// interrupt-status registers: failed once a task-file error shows, done
/// once the slot's issue bit clears without one, running otherwise.
pub fn command_state(ci: u32, is: u32, slot: u32) -> (res: CommandState)
    requires
        slot < 32,
    ensures
        res == (if is & HBA_PXIS_TFES != 0 {
            CommandState::Failed
        } else if ci & (1u32 << slot) == 0 {
            CommandState::Done
        } else {
            CommandState::Running
        }),
{
    if ci & (1u32 << slot) == 0 {
        if is & HBA_PXIS_TFES != 0 {
            CommandState::Failed
        } else {
            CommandState::Done
        }
    } else if is & HBA_PXIS_TFES != 0 {
        CommandState::Failed
    } else {
        CommandState::Running
    }
}


/// A one-region DMA command as the simpler AHCI driver issues it in slot 0:
/// the header flags (0x80, plus 0x40 for a write), one region of `sectors`
/// sectors whose byte count is given with its lowest bit set, and the FIS.
pub struct SingleCommand {
    pub flags: u8,
    pub prdtl: u16,
    pub dba: u32,
    pub dbc: u32,
    pub fis: DmaFis,
}

/// Builds the simpler driver's command for `sectors` sectors at the 48-bit
/// address `start` through the buffer at `buf`.
pub fn single_region_command(write: bool, start: u64, sectors: u32, buf: u32) -> (res: SingleCommand)
    requires
        sectors * 512 <= u32::MAX,
    ensures
        res.flags == (if write { 0xC0u8 } else { 0x80u8 }),
        res.prdtl == 1,
        res.dba == buf,
        res.dbc == ((sectors * 512) as u32) | 1,
        res.fis.fis_type == 0x27,
        res.fis.c,
        res.fis.cmd == (if write { ATA_CMD_WRITE_DMA_EX } else { ATA_CMD_READ_DMA_EX }),
        res.fis.lba@ == seq![
            (start % 256) as u8,
            ((start / 256) % 256) as u8,
            ((start / 0x1_0000) % 256) as u8,
            ((start / 0x100_0000) % 256) as u8,
            ((start / 0x1_0000_0000) % 256) as u8,
            ((start / 0x100_0000_0000) % 256) as u8,
        ],
        res.fis.device == 0x40,
        res.fis.countl == (sectors % 256) as u8,
        res.fis.counth == ((sectors / 256) % 256) as u8,
{
    let lba = [
        (start % 256) as u8,
        ((start / 256) % 256) as u8,
        ((start / 0x1_0000) % 256) as u8,
        ((start / 0x100_0000) % 256) as u8,
        ((start / 0x1_0000_0000) % 256) as u8,
        ((start / 0x100_0000_0000) % 256) as u8,
    ];
    let fis = DmaFis {
        fis_type: 0x27,
        c: true,
        cmd: if write {
            ATA_CMD_WRITE_DMA_EX
        } else {
            ATA_CMD_READ_DMA_EX
        },
        lba,
        device: 0x40,
        countl: (sectors % 256) as u8,
        counth: ((sectors / 256) % 256) as u8,
    };
    let res = SingleCommand {
        flags: if write {
            0xC0
        } else {
            0x80
        },
        prdtl: 1,
        dba: buf,
        dbc: (sectors * 512) | 1,
        fis,
    };
    assert(res.fis.lba@ =~= seq![
        (start % 256) as u8,
        ((start / 256) % 256) as u8,
        ((start / 0x1_0000) % 256) as u8,
        ((start / 0x100_0000) % 256) as u8,
        ((start / 0x1_0000_0000) % 256) as u8,
        ((start / 0x100_0000_0000) % 256) as u8,
    ]);
    res
}

} // verus!
