//! PCI devices as the boot stage sees them, read through the legacy
//! configuration ports by a function the caller hands in.
use vstd::prelude::*;

verus! {

pub const PCI_CONFIG_ADDR: u16 = 0xCF8;

pub const PCI_CONFIG_DATA: u16 = 0xCFC;

pub struct PCIDevice {
    pub bus: u8,
    pub device: u8,
    pub func: u8,
    pub vendor_id: u16,
    pub device_id: u16,
    pub rev: u8,
    pub prog_if: u8,
    pub subclass: u8,
    pub class_id: u8,
}

impl PCIDevice {
    pub fn new(
        bus: u8,
        device: u8,
        func: u8,
        vendor_id: u16,
        device_id: u16,
        rev: u8,
        prog_if: u8,
        subclass: u8,
        class_id: u8,
    ) -> (res: Self)
        ensures
            res == (PCIDevice {
                bus,
                device,
                func,
                vendor_id,
                device_id,
                rev,
                prog_if,
                subclass,
                class_id,
            }),
    {
        Self { bus, device, func, vendor_id, device_id, rev, prog_if, class_id, subclass }
    }
}

/// The value written to the address port to select a configuration
/// register: enable bit, bus, device, function and the dword-aligned offset.
pub fn pci_config_address(bus: u8, device: u8, func: u8, offset: u8) -> (addr: u32)
    requires
        device < 32,
        func < 8,
    ensures
        addr == 0x8000_0000u32 + (bus as u32) * 0x10000 + (device as u32) * 0x800 + (func as u32)
            * 0x100 + ((offset as u32) & 0xFC),
{
    let addr: u32 = (1u32 << 31) | ((bus as u32) << 16) | ((device as u32) << 11) | ((func as u32)
        << 8) | ((offset as u32) & 0xFC);
    let (b, d, f, o) = (bus as u32, device as u32, func as u32, offset as u32);
    assert((1u32 << 31) | (b << 16) | (d << 11) | (f << 8) | (o & 0xFC) == 0x8000_0000u32 + b
        * 0x10000 + d * 0x800 + f * 0x100 + (o & 0xFC)) by (bit_vector)
        requires
            b < 256,
            d < 32,
            f < 8,
            o < 256,
    ;
    addr
}

/// Whether `d` is what some answers of `read` show: the vendor id from the
/// low half of a read of offset 0, the device id from the high half of
/// another read of it, and revision, programming interface, subclass and
/// class from the bytes of a read of offset 8.
pub open spec fn reads_show<F: Fn(u8, u8, u8, u8) -> u32>(read: &F, d: PCIDevice) -> bool {
    exists|v0: u32, v1: u32, r: u32|
        read.ensures((d.bus, d.device, d.func, 0u8), v0) && read.ensures((d.bus, d.device, d.func, 0u8), v1)
            && read.ensures((d.bus, d.device, d.func, 8u8), r) && d.vendor_id == v0 as u16
            && d.device_id == (v1 >> 16u32) as u16 && d.rev == (r & 0xFF) as u8 && d.prog_if == ((r
            >> 8u32) & 0xFF) as u8 && d.subclass == ((r >> 16u32) & 0xFF) as u8 && d.class_id == (r
            >> 24u32) as u8
}

/// Whether `devs` lists the function at `(b, d, f)`, or a read of its
/// first word showed vendor 0xFFFF (nothing there).
pub open spec fn scan_covers<F: Fn(u8, u8, u8, u8) -> u32>(read: &F, devs: Seq<PCIDevice>, b: u8, d: u8, f: u8) -> bool {
    (exists|i: int| 0 <= i < devs.len() && devs[i].bus == b && devs[i].device == d && devs[i].func == f)
        || (exists|v: u32| read.ensures((b, d, f, 0u8), v) && v as u16 == 0xFFFF)
}

proof fn lemma_covers_push<F: Fn(u8, u8, u8, u8) -> u32>(read: &F, devs: Seq<PCIDevice>, x: PCIDevice, b: u8, d: u8, f: u8)
    requires
        scan_covers(read, devs, b, d, f),
    ensures
        scan_covers(read, devs.push(x), b, d, f),
{
    if exists|i: int| 0 <= i < devs.len() && devs[i].bus == b && devs[i].device == d && devs[i].func == f {
        let i = choose|i: int| 0 <= i < devs.len() && devs[i].bus == b && devs[i].device == d && devs[i].func == f;
        assert(devs.push(x)[i] == devs[i]);
    }
}

/// What a scan with the reads `read` gives: the devices the reads show,
/// none with vendor 0xFFFF, in bus/device/function order, and every
/// function listed or shown absent.
pub open spec fn boot_scan_result<F: Fn(u8, u8, u8, u8) -> u32>(read: &F, devs: Seq<PCIDevice>) -> bool {
    &&& forall|i: int|
        0 <= i < devs.len() ==> (#[trigger] devs[i]).vendor_id != 0xFFFF && devs[i].device < 32
            && devs[i].func < 8
    &&& forall|i: int| 0 <= i < devs.len() ==> reads_show(read, #[trigger] devs[i])
    &&& forall|i: int, j: int|
        0 <= i < j < devs.len() ==> (#[trigger] devs[i]).bus < (#[trigger] devs[j]).bus || (
        devs[i].bus == devs[j].bus && devs[i].device < devs[j].device) || (devs[i].bus
            == devs[j].bus && devs[i].device == devs[j].device && devs[i].func < devs[j].func)
    &&& forall|b: u8, d: u8, f: u8| d < 32 && f < 8 ==> #[trigger] scan_covers(read, devs, b, d, f)
}

/// Visits every bus, device and function and lists those whose vendor id
/// is not 0xFFFF, in bus/device/function order.
pub fn scan_pci_bus<F: Fn(u8, u8, u8, u8) -> u32>(pci_config_read: &F) -> (res: Vec<PCIDevice>)
    requires
        forall|b: u8, d: u8, f: u8, o: u8| pci_config_read.requires((b, d, f, o)),
    ensures
        forall|i: int|
            0 <= i < res@.len() ==> (#[trigger] res@[i]).vendor_id != 0xFFFF && res@[i].device < 32
                && res@[i].func < 8,
        forall|i: int| 0 <= i < res@.len() ==> reads_show(pci_config_read, #[trigger] res@[i]),
        forall|b: u8, d: u8, f: u8|
            d < 32 && f < 8 ==> #[trigger] scan_covers(pci_config_read, res@, b, d, f),
        boot_scan_result(pci_config_read, res@),
        forall|i: int, j: int|
            0 <= i < j < res@.len() ==> (#[trigger] res@[i]).bus < (#[trigger] res@[j]).bus || (
            res@[i].bus == res@[j].bus && res@[i].device < res@[j].device) || (res@[i].bus
                == res@[j].bus && res@[i].device == res@[j].device && res@[i].func < res@[j].func),
{
    let mut res: Vec<PCIDevice> = Vec::new();
    let mut bus: u16 = 0;
    while bus <= 255
        invariant
            bus <= 256,
            forall|b: u8, d: u8, f: u8, o: u8| pci_config_read.requires((b, d, f, o)),
            forall|i: int| 0 <= i < res@.len() ==> reads_show(pci_config_read, #[trigger] res@[i]),
            forall|b2: u8, d: u8, f: u8|
                b2 < bus && d < 32 && f < 8 ==> #[trigger] scan_covers(pci_config_read, res@, b2, d, f),
            forall|i: int|
                0 <= i < res@.len() ==> (#[trigger] res@[i]).vendor_id != 0xFFFF && res@[i].device
                    < 32 && res@[i].func < 8 && res@[i].bus < bus,
            forall|i: int, j: int|
                0 <= i < j < res@.len() ==> (#[trigger] res@[i]).bus < (#[trigger] res@[j]).bus || (
                res@[i].bus == res@[j].bus && res@[i].device < res@[j].device) || (res@[i].bus
                    == res@[j].bus && res@[i].device == res@[j].device && res@[i].func
                    < res@[j].func),
        decreases 256 - bus,
    {
        let b = bus as u8;
        let mut device: u8 = 0;
        while device < 32
            invariant
                b == bus,
                bus <= 255,
                device <= 32,
                forall|b: u8, d: u8, f: u8, o: u8| pci_config_read.requires((b, d, f, o)),
                forall|i: int| 0 <= i < res@.len() ==> reads_show(pci_config_read, #[trigger] res@[i]),
                forall|b2: u8, d: u8, f: u8|
                    (b2 < b || (b2 == b && d < device)) && d < 32 && f < 8 ==> #[trigger] scan_covers(
                        pci_config_read,
                        res@,
                        b2,
                        d,
                        f,
                    ),
                forall|i: int|
                    0 <= i < res@.len() ==> (#[trigger] res@[i]).vendor_id != 0xFFFF
                        && res@[i].device < 32 && res@[i].func < 8 && (res@[i].bus < b || (
                    res@[i].bus == b && res@[i].device < device)),
                forall|i: int, j: int|
                    0 <= i < j < res@.len() ==> (#[trigger] res@[i]).bus < (#[trigger] res@[j]).bus
                        || (res@[i].bus == res@[j].bus && res@[i].device < res@[j].device) || (
                    res@[i].bus == res@[j].bus && res@[i].device == res@[j].device
                        && res@[i].func < res@[j].func),
            decreases 32 - device,
        {
            let mut function: u8 = 0;
            while function < 8
                invariant
                    b == bus,
                    bus <= 255,
                    device < 32,
                    function <= 8,
                    forall|b: u8, d: u8, f: u8, o: u8| pci_config_read.requires((b, d, f, o)),
                    forall|i: int| 0 <= i < res@.len() ==> reads_show(pci_config_read, #[trigger] res@[i]),
                    forall|b2: u8, d: u8, f: u8|
                        (b2 < b || (b2 == b && d < device) || (b2 == b && d == device && f < function))
                            && d < 32 && f < 8 ==> #[trigger] scan_covers(pci_config_read, res@, b2, d, f),
                    forall|i: int|
                        0 <= i < res@.len() ==> (#[trigger] res@[i]).vendor_id != 0xFFFF
                            && res@[i].device < 32 && res@[i].func < 8 && (res@[i].bus < b || (
                        res@[i].bus == b && res@[i].device < device) || (res@[i].bus == b
                            && res@[i].device == device && res@[i].func < function)),
                    forall|i: int, j: int|
                        0 <= i < j < res@.len() ==> (#[trigger] res@[i]).bus < (
                        #[trigger] res@[j]).bus || (res@[i].bus == res@[j].bus && res@[i].device
                            < res@[j].device) || (res@[i].bus == res@[j].bus && res@[i].device
                            == res@[j].device && res@[i].func < res@[j].func),
                decreases 8 - function,
            {
                let v0 = pci_config_read(b, device, function, 0);
                let vendor_id = v0 as u16;
                if vendor_id == 0xFFFF {
                    assert(scan_covers(pci_config_read, res@, b, device, function));
                    function = function + 1;
                    continue;
                }
                let v1 = pci_config_read(b, device, function, 0);
                let device_id = (v1 >> 16) as u16;
                let reg = pci_config_read(b, device, function, 0x08);
                let rev = (reg & 0xFF) as u8;
                let prog_if = ((reg >> 8) & 0xFF) as u8;
                let subclass = ((reg >> 16) & 0xFF) as u8;
                let class = (reg >> 24) as u8;
                let ghost before = res@;
                res.push(
                    PCIDevice::new(
                        b,
                        device,
                        function,
                        vendor_id,
                        device_id,
                        rev,
                        prog_if,
                        subclass,
                        class,
                    ),
                );
                assert(reads_show(pci_config_read, res@[before.len() as int]));
                assert forall|b2: u8, d: u8, f: u8|
                    (b2 < b || (b2 == b && d < device) || (b2 == b && d == device && f <= function))
                        && d < 32 && f < 8 implies #[trigger] scan_covers(pci_config_read, res@, b2, d, f) by {
                    if b2 == b && d == device && f == function {
                        assert(res@[before.len() as int].bus == b2);
                    } else {
                        lemma_covers_push(pci_config_read, before, res@[before.len() as int], b2, d, f);
                    }
                }
                assert forall|i: int, j: int| 0 <= i < j < res@.len() implies (
                #[trigger] res@[i]).bus < (#[trigger] res@[j]).bus || (res@[i].bus == res@[j].bus
                    && res@[i].device < res@[j].device) || (res@[i].bus == res@[j].bus
                    && res@[i].device == res@[j].device && res@[i].func < res@[j].func) by {
                    assert(res@[i] == before[i]);
                    if j < before.len() {
                        assert(res@[j] == before[j]);
                        assert(before[i].bus < before[j].bus || (before[i].bus == before[j].bus
                            && before[i].device < before[j].device) || (before[i].bus
                            == before[j].bus && before[i].device == before[j].device
                            && before[i].func < before[j].func));
                    }
                }
                function = function + 1;
            }
            device = device + 1;
        }
        bus = bus + 1;
    }
    res
}

} // verus!
