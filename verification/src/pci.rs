//! PCI devices as the kernel sees them, and the scan of the configuration
//! space. Configuration registers are read through a function the caller
//! hands in (port I/O or ECAM), so the decoding here holds whatever the
//! hardware answers.
use vstd::prelude::*;

verus! {

#[derive(Debug, Copy, Clone)]
pub struct PCIDevice {
    pub vendor_id: u32,
    pub device_id: u32,
    pub class_code: u32,
    pub subclass: u32,
    pub bus: u8,
    pub slot: u8,
    pub func: u8,
}

/// The device described by the vendor/device word (offset 0) and the class
/// word (offset 8) of a function's configuration space, if one is present.
pub open spec fn device_from_words(bus: u8, slot: u8, func: u8, vendor_device: u32, class_reg: u32) -> Option<PCIDevice> {
    if vendor_device & 0xFFFF == 0xFFFF {
        None
    } else {
        Some(
            PCIDevice {
                vendor_id: vendor_device & 0xFFFF,
                device_id: (vendor_device >> 16) & 0xFFFF,
                class_code: (class_reg >> 24) & 0xFF,
                subclass: (class_reg >> 16) & 0xFF,
                bus,
                slot,
                func,
            },
        )
    }
}

/// Whether `d` is what some answers of `read` show at its bus, slot and
/// function: a vendor/device word at offset 0 and a class word at offset 8
/// that decode to `d`.
pub open spec fn read_shows<F: Fn(u8, u8, u8, u16) -> u32>(read: &F, d: PCIDevice) -> bool {
    exists|vd: u32, cr: u32|
        read.ensures((d.bus, d.slot, d.func, 0u16), vd) && read.ensures((d.bus, d.slot, d.func, 8u16), cr)
            && device_from_words(d.bus, d.slot, d.func, vd, cr) == Some(d)
}

/// Whether a read of function `f`'s first word showed no device there.
pub open spec fn shows_absent<F: Fn(u8, u8, u8, u16) -> u32>(read: &F, b: u8, s: u8, f: u8) -> bool {
    exists|vd: u32| read.ensures((b, s, f, 0u16), vd) && vd & 0xFFFF == 0xFFFF
}

/// Whether a read of the slot's function 0 showed it single-function
/// (bit 7 of its first word clear).
pub open spec fn shows_single<F: Fn(u8, u8, u8, u16) -> u32>(read: &F, b: u8, s: u8) -> bool {
    exists|w: u32| read.ensures((b, s, 0u8, 0u16), w) && w & 0x80 == 0
}

/// Whether `devs` lists a device at bus `b`, slot `s`, function `f`.
pub open spec fn lists(devs: Seq<PCIDevice>, b: u8, s: u8, f: u8) -> bool {
    exists|i: int| 0 <= i < devs.len() && devs[i].bus == b && devs[i].slot == s && devs[i].func == f
}

/// Why a scan's result holds or lacks the function at `(b, s, f)`: it is
/// listed, or its read showed nothing there, or it lies past function 0 of
/// a single-function slot.
pub open spec fn accounted<F: Fn(u8, u8, u8, u16) -> u32>(read: &F, devs: Seq<PCIDevice>, b: u8, s: u8, f: u8) -> bool {
    lists(devs, b, s, f) || shows_absent(read, b, s, f) || (f > 0 && shows_single(read, b, s))
}

proof fn lemma_accounted_push<F: Fn(u8, u8, u8, u16) -> u32>(read: &F, devs: Seq<PCIDevice>, d: PCIDevice, b: u8, s: u8, f: u8)
    requires
        accounted(read, devs, b, s, f),
    ensures
        accounted(read, devs.push(d), b, s, f),
{
    if lists(devs, b, s, f) {
        let i = choose|i: int| 0 <= i < devs.len() && devs[i].bus == b && devs[i].slot == s && devs[i].func == f;
        assert(devs.push(d)[i] == devs[i]);
    }
}

/// Whether `(b1, s1, f1)` comes strictly before `(b2, s2, f2)`.
pub open spec fn bsf_before(b1: u8, s1: u8, f1: u8, b2: u8, s2: u8, f2: u8) -> bool {
    b1 < b2 || (b1 == b2 && s1 < s2) || (b1 == b2 && s1 == s2 && f1 < f2)
}

/// What a scan of the bus with the reads `read` gives: devices that the
/// reads show, in bus/slot/function order, with every function accounted
/// for.
pub open spec fn scan_result<F: Fn(u8, u8, u8, u16) -> u32>(read: &F, devs: Seq<PCIDevice>) -> bool {
    &&& forall|i: int| 0 <= i < devs.len() ==> read_shows(read, #[trigger] devs[i])
    &&& forall|i: int|
        0 <= i < devs.len() ==> (#[trigger] devs[i]).vendor_id != 0xFFFF && devs[i].slot < 32
            && devs[i].func < 8
    &&& forall|i: int, j: int|
        0 <= i < j < devs.len() ==> bsf_before(
            #[trigger] devs[i].bus,
            devs[i].slot,
            devs[i].func,
            #[trigger] devs[j].bus,
            devs[j].slot,
            devs[j].func,
        )
    &&& forall|b: u8, s: u8, f: u8| s < 32 && f < 8 ==> #[trigger] accounted(read, devs, b, s, f)
}

impl PCIDevice {
    pub fn new(
        vendor_id: u32,
        device_id: u32,
        class_code: u32,
        subclass: u32,
        bus: u8,
        slot: u8,
        func: u8,
    ) -> (res: Self)
        ensures
            res == (PCIDevice { vendor_id, device_id, class_code, subclass, bus, slot, func }),
    {
        Self { vendor_id, device_id, class_code, subclass, bus, slot, func }
    }

    /// Reads the function at bus/slot/func: `None` when the vendor id reads
    /// as 0xFFFF (nothing there), otherwise the device its registers
    /// describe.
    pub fn from_bsf<F: Fn(u8, u8, u8, u16) -> u32>(
        read_config32: &F,
        bus: u8,
        slot: u8,
        func: u8,
    ) -> (res: Option<Self>)
        requires
            forall|b: u8, s: u8, f: u8, o: u16| read_config32.requires((b, s, f, o)),
        ensures
            exists|vd: u32, cr: u32|
                read_config32.ensures((bus, slot, func, 0u16), vd) && (vd & 0xFFFF == 0xFFFF
                    || read_config32.ensures((bus, slot, func, 8u16), cr)) && res
                    == device_from_words(bus, slot, func, vd, cr),
            res matches Some(d) ==> d.bus == bus && d.slot == slot && d.func == func
                && d.vendor_id < 0xFFFF && read_shows(read_config32, d),
            res is None ==> shows_absent(read_config32, bus, slot, func),
    {
        let vendor_device = read_config32(bus, slot, func, 0x0);
        assert((vendor_device & 0xFFFF) as u16 as u32 == vendor_device & 0xFFFF) by (bit_vector);
        assert(vendor_device & 0xFFFF <= 0xFFFF) by (bit_vector);
        assert(((vendor_device >> 16) & 0xFFFF) as u16 as u32 == (vendor_device >> 16) & 0xFFFF)
            by (bit_vector);
        let vendor_id = (vendor_device & 0xFFFF) as u16;
        if vendor_id == 0xFFFF {
            assert(device_from_words(bus, slot, func, vendor_device, 0) is None);
            return None;
        }
        let device_id = ((vendor_device >> 16) & 0xFFFF) as u16;
        let class_reg = read_config32(bus, slot, func, 0x8);
        let class_code = (class_reg >> 24) & 0xFF;
        let subclass = (class_reg >> 16) & 0xFF;
        let res = Some(
            Self::new(vendor_id as u32, device_id as u32, class_code, subclass, bus, slot, func),
        );
        assert(res == device_from_words(bus, slot, func, vendor_device, class_reg));
        assert(read_shows(read_config32, res.unwrap()));
        res
    }
}

/// Scans every bus, slot and function. A slot whose function 0 is present
/// but not multi-function (bit 7 of its first word clear) is not searched
/// further. Devices come out in bus/slot/function order.
pub fn scan_pci_bus<F: Fn(u8, u8, u8, u16) -> u32>(read_config32: &F) -> (res: Vec<PCIDevice>)
    requires
        forall|b: u8, s: u8, f: u8, o: u16| read_config32.requires((b, s, f, o)),
    ensures
        forall|i: int| 0 <= i < res@.len() ==> read_shows(read_config32, #[trigger] res@[i]),
        forall|b: u8, s: u8, f: u8|
            s < 32 && f < 8 ==> #[trigger] accounted(read_config32, res@, b, s, f),
        scan_result(read_config32, res@),
        forall|i: int|
            0 <= i < res@.len() ==> (#[trigger] res@[i]).vendor_id != 0xFFFF && res@[i].slot < 32
                && res@[i].func < 8 && res@[i].vendor_id <= 0xFFFF,
        forall|i: int, j: int|
            0 <= i < j < res@.len() ==> bsf_before(
                #[trigger] res@[i].bus,
                res@[i].slot,
                res@[i].func,
                #[trigger] res@[j].bus,
                res@[j].slot,
                res@[j].func,
            ),
{
    let mut devices: Vec<PCIDevice> = Vec::new();
    let mut bus: u16 = 0;
    while bus <= 255
        invariant
            bus <= 256,
            forall|b: u8, s: u8, f: u8, o: u16| read_config32.requires((b, s, f, o)),
            forall|i: int| 0 <= i < devices@.len() ==> read_shows(read_config32, #[trigger] devices@[i]),
            forall|b2: u8, s: u8, f: u8|
                b2 < bus && s < 32 && f < 8 ==> #[trigger] accounted(read_config32, devices@, b2, s, f),
            forall|i: int|
                0 <= i < devices@.len() ==> (#[trigger] devices@[i]).vendor_id != 0xFFFF
                    && devices@[i].slot < 32 && devices@[i].func < 8 && devices@[i].vendor_id
                    <= 0xFFFF && devices@[i].bus < bus,
            forall|i: int, j: int|
                0 <= i < j < devices@.len() ==> bsf_before(
                    #[trigger] devices@[i].bus,
                    devices@[i].slot,
                    devices@[i].func,
                    #[trigger] devices@[j].bus,
                    devices@[j].slot,
                    devices@[j].func,
                ),
        decreases 256 - bus,
    {
        let b = bus as u8;
        let mut slot: u8 = 0;
        while slot < 32
            invariant
                bus <= 255,
                b == bus,
                slot <= 32,
                forall|b: u8, s: u8, f: u8, o: u16| read_config32.requires((b, s, f, o)),
            forall|i: int| 0 <= i < devices@.len() ==> read_shows(read_config32, #[trigger] devices@[i]),
            forall|b2: u8, s: u8, f: u8|
                (b2 < b || (b2 == b && s < slot)) && s < 32 && f < 8 ==> #[trigger] accounted(
                    read_config32,
                    devices@,
                    b2,
                    s,
                    f,
                ),
                forall|i: int|
                    0 <= i < devices@.len() ==> (#[trigger] devices@[i]).vendor_id != 0xFFFF
                        && devices@[i].slot < 32 && devices@[i].func < 8
                        && devices@[i].vendor_id <= 0xFFFF && (devices@[i].bus < b || (
                    devices@[i].bus == b && devices@[i].slot < slot)),
                forall|i: int, j: int|
                    0 <= i < j < devices@.len() ==> bsf_before(
                        #[trigger] devices@[i].bus,
                        devices@[i].slot,
                        devices@[i].func,
                        #[trigger] devices@[j].bus,
                        devices@[j].slot,
                        devices@[j].func,
                    ),
            decreases 32 - slot,
        {
            let mut func: u8 = 0;
            while func < 8
                invariant_except_break
                    forall|b2: u8, s: u8, f: u8|
                        (b2 < b || (b2 == b && s < slot) || (b2 == b && s == slot && f < func)) && s
                            < 32 && f < 8 ==> #[trigger] accounted(read_config32, devices@, b2, s, f),
                    forall|i: int|
                        0 <= i < devices@.len() ==> (#[trigger] devices@[i]).bus < b || (
                        devices@[i].bus == b && devices@[i].slot < slot) || (devices@[i].bus
                            == b && devices@[i].slot == slot && devices@[i].func < func),
                invariant
                    bus <= 255,
                    b == bus,
                    slot < 32,
                    func <= 8,
                    forall|b: u8, s: u8, f: u8, o: u16| read_config32.requires((b, s, f, o)),
            forall|i: int| 0 <= i < devices@.len() ==> read_shows(read_config32, #[trigger] devices@[i]),
                    forall|i: int|
                        0 <= i < devices@.len() ==> (#[trigger] devices@[i]).vendor_id != 0xFFFF
                            && devices@[i].slot < 32 && devices@[i].func < 8
                            && devices@[i].vendor_id <= 0xFFFF && (devices@[i].bus < b || (
                        devices@[i].bus == b && devices@[i].slot <= slot)),
                    forall|i: int, j: int|
                        0 <= i < j < devices@.len() ==> bsf_before(
                            #[trigger] devices@[i].bus,
                            devices@[i].slot,
                            devices@[i].func,
                            #[trigger] devices@[j].bus,
                            devices@[j].slot,
                            devices@[j].func,
                        ),
                ensures
                    forall|i: int| 0 <= i < devices@.len() ==> read_shows(read_config32, #[trigger] devices@[i]),
                    forall|b2: u8, s: u8, f: u8|
                        (b2 < b || (b2 == b && s <= slot)) && s < 32 && f < 8 ==> #[trigger] accounted(
                            read_config32,
                            devices@,
                            b2,
                            s,
                            f,
                        ),
                    forall|i: int|
                        0 <= i < devices@.len() ==> (#[trigger] devices@[i]).vendor_id != 0xFFFF
                            && devices@[i].slot < 32 && devices@[i].func < 8
                            && devices@[i].vendor_id <= 0xFFFF && (devices@[i].bus < b || (
                        devices@[i].bus == b && devices@[i].slot <= slot)),
                    forall|i: int, j: int|
                        0 <= i < j < devices@.len() ==> bsf_before(
                            #[trigger] devices@[i].bus,
                            devices@[i].slot,
                            devices@[i].func,
                            #[trigger] devices@[j].bus,
                            devices@[j].slot,
                            devices@[j].func,
                        ),
                decreases 8 - func,
            {
                let found = PCIDevice::from_bsf(read_config32, b, slot, func);
                if let Some(dev) = found {
                    let ghost before = devices@;
                    devices.push(dev);
                    assert forall|b2: u8, s: u8, f: u8|
                        (b2 < b || (b2 == b && s < slot) || (b2 == b && s == slot && f <= func)) && s
                            < 32 && f < 8 implies #[trigger] accounted(read_config32, devices@, b2, s, f) by {
                        if b2 == b && s == slot && f == func {
                            assert(devices@[before.len() as int] == dev);
                            assert(lists(devices@, b2, s, f));
                        } else {
                            lemma_accounted_push(read_config32, before, dev, b2, s, f);
                        }
                    }
                    assert forall|i: int, j: int| 0 <= i < j < devices@.len() implies bsf_before(
                        #[trigger] devices@[i].bus,
                        devices@[i].slot,
                        devices@[i].func,
                        #[trigger] devices@[j].bus,
                        devices@[j].slot,
                        devices@[j].func,
                    ) by {
                        if j == before.len() {
                            assert(devices@[i] == before[i]);
                            let x = before[i];
                            assert(x.bus < b || (x.bus == b && x.slot < slot) || (x.bus == b
                                && x.slot == slot && x.func < func));
                            assert(devices@[j] == dev);
                        } else {
                            assert(devices@[i] == before[i] && devices@[j] == before[j]);
                            assert(bsf_before(
                                before[i].bus,
                                before[i].slot,
                                before[i].func,
                                before[j].bus,
                                before[j].slot,
                                before[j].func,
                            ));
                        }
                    }
                    if func == 0 {
                        let w = read_config32(b, slot, 0, 0x0);
                        if (w & 0x80) == 0 {
                            assert(shows_single(read_config32, b, slot));
                            break;
                        }
                    }
                } else {
                    assert(shows_absent(read_config32, b, slot, func));
                }
                func = func + 1;
            }
            slot = slot + 1;
        }
        bus = bus + 1;
    }
    devices
}


pub const PCI_CMD_OFFSET: u16 = 0x04;

pub const PCI_CMD_BUS_MASTER: u16 = 4;

pub const PCI_CMD_MEMORY_ENABLE: u16 = 1;

/// The word written to the legacy configuration-address port for a
/// register: the enable bit, bus, slot, function and the dword-aligned
/// offset.
pub open spec fn config_address_spec(bus: u8, slot: u8, func: u8, offset: u16) -> u32 {
    0x8000_0000u32 | ((bus as u32) << 16u32) | ((slot as u32) << 11u32) | ((func as u32) << 8u32) | ((
    offset as u32) & 0xFC)
}

pub fn config_address(bus: u8, slot: u8, func: u8, offset: u16) -> (res: u32)
    ensures
        res == config_address_spec(bus, slot, func, offset),
{
    0x8000_0000u32 | ((bus as u32) << 16u32) | ((slot as u32) << 11u32) | ((func as u32) << 8u32) | ((
    offset as u32) & 0xFC)
}

/// Where a register lies in the memory-mapped (ECAM) configuration space,
/// from its base: 1 MiB per bus, 32 KiB per slot, 4 KiB per function.
pub fn ecam_offset(bus: u8, slot: u8, func: u8, offset: u16) -> (res: usize)
    ensures
        res == bus * 0x10_0000 + slot * 0x8000 + func * 0x1000 + offset,
{
    bus as usize * 0x10_0000 + slot as usize * 0x8000 + func as usize * 0x1000 + offset as usize
}

/// The dword holding a register: its offset rounded down to 4.
pub fn aligned_offset(offset: u16) -> (res: u16)
    ensures
        res == offset - offset % 4,
{
    offset - offset % 4
}

/// The bit position of a register within its dword.
pub open spec fn byte_shift(offset: u16) -> u32 {
    ((offset % 4) * 8) as u32
}

/// The 16 bits at `offset` within the dword read at its aligned offset.
pub fn field_u16(dword: u32, offset: u16) -> (res: u16)
    ensures
        res == (dword >> byte_shift(offset)) as u16,
{
    (dword >> (((offset % 4) * 8) as u32)) as u16
}

/// The byte at `offset` within the dword read at its aligned offset.
pub fn field_u8(dword: u32, offset: u16) -> (res: u8)
    ensures
        res == (dword >> byte_shift(offset)) as u8,
{
    (dword >> (((offset % 4) * 8) as u32)) as u8
}

/// The dword to write back when 16 bits at `offset` change: the other bits
/// kept, the field replaced.
pub fn merge_u16(old: u32, offset: u16, value: u16) -> (res: u32)
    ensures
        res == (old & !(0xFFFFu32 << byte_shift(offset))) | ((value as u32) << byte_shift(offset)),
{
    let shift = ((offset % 4) * 8) as u32;
    (old & !(0xFFFFu32 << shift)) | ((value as u32) << shift)
}

/// The dword to write back when the byte at `offset` changes.
pub fn merge_u8(old: u32, offset: u16, value: u8) -> (res: u32)
    ensures
        res == (old & !(0xFFu32 << byte_shift(offset))) | ((value as u32) << byte_shift(offset)),
{
    let shift = ((offset % 4) * 8) as u32;
    (old & !(0xFFu32 << shift)) | ((value as u32) << shift)
}

/// A base address register's raw value, whether it maps memory (bit 0
/// clear), and whether that memory BAR is 64 bits wide (type 2).
pub open spec fn decode_bar_spec(low: u32) -> (u32, bool, bool) {
    (low, low & 1 == 0, low & 1 == 0 && (low >> 1u32) & 3 == 2)
}

pub fn decode_bar(low: u32) -> (res: (u32, bool, bool))
    ensures
        res == decode_bar_spec(low),
{
    (low, low & 1 == 0, low & 1 == 0 && (low >> 1u32) & 3 == 2)
}

/// The address a BAR points at: an I/O BAR without its two flag bits, a
/// memory BAR without its four, a 64-bit one with the next register as its
/// high half.
pub open spec fn bar_base_spec(low: u32, high: u32) -> u64 {
    let (_, is_mem, is_64) = decode_bar_spec(low);
    if !is_mem {
        (low & 0xFFFF_FFFC) as u64
    } else if is_64 {
        ((high as u64) << 32u64) | ((low & 0xFFFF_FFF0) as u64)
    } else {
        (low & 0xFFFF_FFF0) as u64
    }
}

/// The size a BAR decodes, from the values read back after writing all
/// ones (`masked_high` only matters for a 64-bit BAR): the two's
/// complement of the address mask, or nothing when the mask is empty.
pub open spec fn bar_size_spec(masked_low: u32, masked_high: u32, is_mem: bool, is_64: bool) -> Option<u64> {
    if !is_mem {
        let mask = masked_low & 0xFFFF_FFFC;
        if mask == 0 {
            None
        } else {
            Some((!mask).wrapping_add(1) as u64)
        }
    } else if is_64 {
        let full = ((masked_high as u64) << 32u64) | ((masked_low & 0xFFFF_FFF0) as u64);
        if full == 0 {
            None
        } else {
            Some((!full).wrapping_add(1))
        }
    } else {
        let mask = masked_low & 0xFFFF_FFF0;
        if mask == 0 {
            None
        } else {
            Some((!mask).wrapping_add(1) as u64)
        }
    }
}

pub fn bar_size(masked_low: u32, masked_high: u32, is_mem: bool, is_64: bool) -> (res: Option<u64>)
    ensures
        res == bar_size_spec(masked_low, masked_high, is_mem, is_64),
{
    if !is_mem {
        let mask = masked_low & 0xFFFF_FFFC;
        if mask == 0 {
            None
        } else {
            Some((!mask).wrapping_add(1) as u64)
        }
    } else if is_64 {
        let full = ((masked_high as u64) << 32u64) | ((masked_low & 0xFFFF_FFF0) as u64);
        if full == 0 {
            None
        } else {
            Some((!full).wrapping_add(1))
        }
    } else {
        let mask = masked_low & 0xFFFF_FFF0;
        if mask == 0 {
            None
        } else {
            Some((!mask).wrapping_add(1) as u64)
        }
    }
}

/// The configuration offset of BAR `bar`.
pub open spec fn bar_offset(bar: u8) -> u16 {
    (0x10 + bar * 4) as u16
}

/// Configuration offset of the high half of a 64-bit BAR.
pub open spec fn bar_high_offset(bar: u8) -> u16 {
    (bar_offset(bar) + 4) as u16
}

impl PCIDevice {
    /// Reads BAR `bar` (0 to 5) through `read_config` (this device's
    /// configuration reads by offset) and decodes it.
    pub fn read_bar<F: Fn(u16) -> u32>(&self, bar: u8, read_config: &F) -> (res: Option<(u32, bool, bool)>)
        requires
            forall|o: u16| read_config.requires((o,)),
        ensures
            bar > 5 ==> res is None,
            bar <= 5 ==> exists|low: u32|
                read_config.ensures((bar_offset(bar),), low) && res == Some(decode_bar_spec(low)),
    {
        if bar > 5 {
            return None;
        }
        let offset = 0x10 + (bar as u16) * 4;
        let low = read_config(offset);
        Some(decode_bar(low))
    }

    /// The address BAR `bar` points at; a 64-bit memory BAR takes the next
    /// register as its high half.
    pub fn bar_address<F: Fn(u16) -> u32>(&self, bar: u8, read_config: &F) -> (res: Option<u64>)
        requires
            forall|o: u16| read_config.requires((o,)),
        ensures
            bar > 5 ==> res is None,
            bar <= 5 ==> exists|low: u32, high: u32|
                read_config.ensures((bar_offset(bar),), low) && (decode_bar_spec(low).2
                    ==> read_config.ensures((bar_high_offset(bar),), high)) && res == Some(
                    bar_base_spec(low, high),
                ),
    {
        let (low, is_mem, is_64) = match self.read_bar(bar, read_config) {
            Some(v) => v,
            None => {
                return None;
            },
        };
        if !is_mem {
            let r = Some((low & 0xFFFF_FFFC) as u64);
            assert(r == Some(bar_base_spec(low, 0)));
            r
        } else if is_64 {
            let high = read_config(0x10 + (bar as u16) * 4 + 4);
            let r = Some(((high as u64) << 32u64) | ((low & 0xFFFF_FFF0) as u64));
            assert(r == Some(bar_base_spec(low, high)));
            r
        } else {
            let r = Some((low & 0xFFFF_FFF0) as u64);
            assert(r == Some(bar_base_spec(low, 0)));
            r
        }
    }

    /// The size of BAR `bar`: writes all ones to it (and, for a 64-bit
    /// BAR, to its high half), reads the masks back, restores the earlier
    /// values, and decodes the size.
    pub fn probe_bar_size<F: Fn(u16) -> u32, W: Fn(u16, u32)>(&self, bar: u8, read_config: &F, write_config: &W) -> (res: Option<u64>)
        requires
            forall|o: u16| read_config.requires((o,)),
            forall|o: u16, v: u32| write_config.requires((o, v)),
        ensures
            bar > 5 ==> res is None,
            bar <= 5 ==> exists|orig_low: u32, masked_low: u32, low: u32|
                read_config.ensures((bar_offset(bar),), orig_low) && write_config.ensures(
                    (bar_offset(bar), 0xFFFF_FFFFu32),
                    (),
                ) && read_config.ensures((bar_offset(bar),), masked_low) && write_config.ensures(
                    (bar_offset(bar), orig_low),
                    (),
                ) && read_config.ensures((bar_offset(bar),), low) && if decode_bar_spec(low).1
                    && decode_bar_spec(low).2 {
                    exists|orig_high: u32, masked_high: u32|
                        read_config.ensures((bar_high_offset(bar),), orig_high) && write_config.ensures(
                            (bar_high_offset(bar), 0xFFFF_FFFFu32),
                            (),
                        ) && read_config.ensures((bar_high_offset(bar),), masked_high)
                            && write_config.ensures((bar_high_offset(bar), orig_high), ())
                            && res == bar_size_spec(masked_low, masked_high, true, true)
                } else {
                    res == bar_size_spec(masked_low, 0, decode_bar_spec(low).1, decode_bar_spec(low).2)
                },
    {
        if bar > 5 {
            return None;
        }
        let offset = 0x10 + (bar as u16) * 4;
        let orig_low = read_config(offset);
        write_config(offset, 0xFFFF_FFFF);
        let masked_low = read_config(offset);
        write_config(offset, orig_low);
        assert(offset == bar_offset(bar));
        let rb = self.read_bar(bar, read_config);
        let ghost low = choose|low: u32|
            read_config.ensures((bar_offset(bar),), low) && rb == Some(decode_bar_spec(low));
        let (_saved, is_mem, is_64) = match rb {
            Some(v) => v,
            None => {
                return None;
            },
        };
        assert(decode_bar_spec(low) == (_saved, is_mem, is_64));
        if is_mem && is_64 {
            assert(offset + 4 == bar_high_offset(bar));
            let orig_high = read_config(offset + 4);
            write_config(offset + 4, 0xFFFF_FFFF);
            let masked_high = read_config(offset + 4);
            write_config(offset + 4, orig_high);
            let r = bar_size(masked_low, masked_high, is_mem, is_64);
            assert(read_config.ensures((bar_high_offset(bar),), orig_high) && write_config.ensures(
                (bar_high_offset(bar), 0xFFFF_FFFFu32),
                (),
            ) && read_config.ensures((bar_high_offset(bar),), masked_high) && write_config.ensures(
                (bar_high_offset(bar), orig_high),
                (),
            ) && r == bar_size_spec(masked_low, masked_high, true, true));
            r
        } else {
            let r = bar_size(masked_low, 0, is_mem, is_64);
            assert(r == bar_size_spec(masked_low, 0, decode_bar_spec(low).1, decode_bar_spec(low).2));
            r
        }
    }

    /// The programming interface byte (bits 8 to 15 of the class word).
    pub fn prog_if<F: Fn(u16) -> u32>(&self, read_config: &F) -> (res: u8)
        requires
            forall|o: u16| read_config.requires((o,)),
        ensures
            exists|w: u32| read_config.ensures((8u16,), w) && res == ((w >> 8u32) & 0xFF) as u8,
    {
        let w = read_config(0x08);
        ((w >> 8u32) & 0xFF) as u8
    }

    /// Turns on memory decoding and bus mastering in the command register
    /// (read, set both bits, write back) and reports whether the bus-master
    /// bit then reads as set.
    pub fn enable_bus_master<F: Fn(u16) -> u16, W: Fn(u16, u16)>(&self, read_u16: &F, write_u16: &W) -> (res: bool)
        requires
            forall|o: u16| read_u16.requires((o,)),
            forall|o: u16, v: u16| write_u16.requires((o, v)),
        ensures
            exists|cmd: u16, verify: u16|
                read_u16.ensures((PCI_CMD_OFFSET,), cmd) && write_u16.ensures(
                    (PCI_CMD_OFFSET, cmd | PCI_CMD_MEMORY_ENABLE | PCI_CMD_BUS_MASTER),
                    (),
                ) && read_u16.ensures((PCI_CMD_OFFSET,), verify) && res == (verify & PCI_CMD_BUS_MASTER != 0),
    {
        let first = read_u16(PCI_CMD_OFFSET);
        let mut cmd = first | PCI_CMD_MEMORY_ENABLE;
        cmd = cmd | PCI_CMD_BUS_MASTER;
        write_u16(PCI_CMD_OFFSET, cmd);
        let verify = read_u16(PCI_CMD_OFFSET);
        verify & PCI_CMD_BUS_MASTER != 0
    }
}

} // verus!
