//! The IDE (PATA) controller's logic: how registers map to I/O ports, how an
//! access is programmed (addressing mode, register values, command), what
//! the IDENTIFY data says, and how error codes are reported. The port
//! traffic itself is done by the caller.
use crate::bytes::{le16, le32, read_le16, read_le32};
use crate::text::char_to_string;
use crate::drivers::ide_session::IdeDrive;
use vstd::prelude::*;

verus! {

/// Status register: busy.
pub const ATA_SR_BSY: u8 = 0x80;
/// Status register: drive write fault.
pub const ATA_SR_DF: u8 = 0x20;
/// Status register: data request ready.
pub const ATA_SR_DRQ: u8 = 0x08;
/// Status register: error.
pub const ATA_SR_ERR: u8 = 0x01;

pub const ATA_CMD_READ_PIO: u8 = 0x20;
pub const ATA_CMD_READ_PIO_EXT: u8 = 0x24;
pub const ATA_CMD_READ_DMA: u8 = 0xC8;
pub const ATA_CMD_READ_DMA_EXT: u8 = 0x25;
pub const ATA_CMD_WRITE_PIO: u8 = 0x30;
pub const ATA_CMD_WRITE_PIO_EXT: u8 = 0x34;
pub const ATA_CMD_WRITE_DMA: u8 = 0xCA;
pub const ATA_CMD_WRITE_DMA_EXT: u8 = 0x35;
pub const ATA_CMD_CACHE_FLUSH: u8 = 0xE7;
pub const ATA_CMD_CACHE_FLUSH_EXT: u8 = 0xEA;
pub const ATAPI_CMD_READ: u8 = 0xA8;
pub const ATAPI_CMD_EJECT: u8 = 0x1B;

/// The I/O port a register is read or written through by `ide_read` and
/// `ide_write`: every range is taken relative to the channel's base.
pub open spec fn rw_port_spec(base: u16, reg: u8) -> Option<u16> {
    if reg < 0x08 {
        Some((base + reg) as u16)
    } else if reg < 0x0C {
        Some((base + reg - 0x06) as u16)
    } else if reg < 0x0E {
        Some((base + reg - 0x0A) as u16)
    } else if reg < 0x16 {
        Some((base + reg - 0x0E) as u16)
    } else {
        None
    }
}

pub fn rw_port(base: u16, reg: u8) -> (res: Option<u16>)
    requires
        base + 0x15 <= u16::MAX,
    ensures
        res == rw_port_spec(base, reg),
{
    if reg < 0x08 {
        Some(base + reg as u16)
    } else if reg < 0x0C {
        Some(base + reg as u16 - 0x06)
    } else if reg < 0x0E {
        Some(base + reg as u16 - 0x0A)
    } else if reg < 0x16 {
        Some(base + reg as u16 - 0x0E)
    } else {
        None
    }
}

/// The port `ide_read_buffer` reads a register's data from: command-block
/// registers from the base, control registers from the control port, bus
/// master registers from the bus-master base.
pub open spec fn buffer_port_spec(base: u16, ctrl: u16, bmide: u16, reg: u8) -> Option<u16> {
    if reg < 0x08 {
        Some((base + reg) as u16)
    } else if reg < 0x0C {
        Some((base + reg - 0x06) as u16)
    } else if reg < 0x0E {
        Some((ctrl + reg - 0x0A) as u16)
    } else if reg < 0x16 {
        Some((bmide + reg - 0x0E) as u16)
    } else {
        None
    }
}

pub fn buffer_port(base: u16, ctrl: u16, bmide: u16, reg: u8) -> (res: Option<u16>)
    requires
        base + 0x0B <= u16::MAX,
        ctrl + 0x0D <= u16::MAX,
        bmide + 0x15 <= u16::MAX,
    ensures
        res == buffer_port_spec(base, ctrl, bmide, reg),
{
    if reg < 0x08 {
        Some(base + reg as u16)
    } else if reg < 0x0C {
        Some(base + reg as u16 - 0x06)
    } else if reg < 0x0E {
        Some(ctrl + reg as u16 - 0x0A)
    } else if reg < 0x16 {
        Some(bmide + reg as u16 - 0x0E)
    } else {
        None
    }
}

/// Whether a register sits in the high (LBA48) bank, which needs the HOB
/// bit set in the control register around the access.
pub fn needs_hob(reg: u8) -> (res: bool)
    ensures
        res == (0x07 < reg < 0x0C),
{
    reg > 0x07 && reg < 0x0C
}

/// What a status value says after polling with the advanced check: 2 for an
/// error, 1 for a device fault, 3 when no data is requested, else 0.
pub open spec fn poll_result(state: u8) -> u8 {
    if state & ATA_SR_ERR != 0 {
        2
    } else if state & ATA_SR_DF != 0 {
        1
    } else if state & ATA_SR_DRQ == 0 {
        3
    } else {
        0
    }
}

pub fn check_status(state: u8) -> (res: u8)
    ensures
        res == poll_result(state),
{
    if state & ATA_SR_ERR != 0 {
        return 2;
    }
    if state & ATA_SR_DF != 0 {
        return 1;
    }
    if state & ATA_SR_DRQ == 0 {
        return 3;
    }
    0
}

/// The code and the messages for an error register value after a failed
/// command (error 2): each set bit, from bit 0 up, logs its message and the
/// last one's code is kept.
pub open spec fn register_error(st: u8) -> (u8, Seq<Seq<char>>) {
    let m0: (u8, Seq<Seq<char>>) = (0, Seq::empty());
    let m1 = if st & 0x01 != 0 { (7u8, m0.1.push("No Address Mark Found"@)) } else { m0 };
    let m2 = if st & 0x02 != 0 { (3u8, m1.1.push("No Media or Media Error"@)) } else { m1 };
    let m3 = if st & 0x04 != 0 { (20u8, m2.1.push("Command Aborted"@)) } else { m2 };
    let m4 = if st & 0x08 != 0 { (3u8, m3.1.push("No Media or Media Error"@)) } else { m3 };
    let m5 = if st & 0x10 != 0 { (21u8, m4.1.push("ID mark not Found"@)) } else { m4 };
    let m6 = if st & 0x20 != 0 { (3u8, m5.1.push("No Media or Media Error"@)) } else { m5 };
    let m7 = if st & 0x40 != 0 { (22u8, m6.1.push("Uncorrectable Data Error"@)) } else { m6 };
    if st & 0x80 != 0 { (13u8, m7.1.push("Bad Sectors"@)) } else { m7 }
}

/// The code and messages `fmt_error` gives for a driver error code; `st` is
/// the error register, read only for error 2.
pub open spec fn error_report(err: u8, st: u8) -> (u8, Seq<Seq<char>>) {
    if err == 0 {
        (0, Seq::empty())
    } else if err == 1 {
        (19, seq!["Device fault"@])
    } else if err == 2 {
        register_error(st)
    } else if err == 3 {
        (23, seq!["Reads Nothing"@])
    } else if err == 4 {
        (8, seq!["Write Protected"@])
    } else {
        (0, Seq::empty())
    }
}

pub open spec fn strs(v: Seq<&'static str>) -> Seq<Seq<char>> {
    v.map_values(|s: &'static str| s@)
}

fn note_bit(st: u8, bit: u8, code: u8, msg: &'static str, ret: &mut u8, msgs: &mut Vec<&'static str>)
    ensures
        st & bit != 0 ==> *final(ret) == code && strs(final(msgs)@) == strs(old(msgs)@).push(msg@),
        st & bit == 0 ==> *final(ret) == *old(ret) && final(msgs)@ == old(msgs)@,
{
    if st & bit != 0 {
        *ret = code;
        msgs.push(msg);
        assert(strs(msgs@) =~= strs(old(msgs)@).push(msg@));
    }
}

/// Turns a driver error code into the code reported to callers, with the
/// messages to log. For error 2 the device's error register is read through
/// `read_error_register`.
pub fn fmt_error<F: Fn() -> u8>(err: u8, read_error_register: &F) -> (res: (u8, Vec<&'static str>))
    requires
        read_error_register.requires(()),
    ensures
        err != 2 ==> res.0 == error_report(err, 0).0 && strs(res.1@) == error_report(err, 0).1,
        err == 2 ==> exists|st: u8|
            #![trigger error_report(err, st)]
            read_error_register.ensures((), st) && res.0 == error_report(err, st).0 && strs(res.1@)
                == error_report(err, st).1,
{
    let mut msgs: Vec<&'static str> = Vec::new();
    if err == 0 {
        assert(strs(msgs@) =~= Seq::<Seq<char>>::empty());
        return (0, msgs);
    }
    if err == 1 {
        msgs.push("Device fault");
        assert(strs(msgs@) =~= seq!["Device fault"@]);
        return (19, msgs);
    }
    if err == 2 {
        let st = read_error_register();
        let mut ret = 0u8;
        assert(strs(msgs@) =~= Seq::<Seq<char>>::empty());
        note_bit(st, 0x01, 7, "No Address Mark Found", &mut ret, &mut msgs);
        note_bit(st, 0x02, 3, "No Media or Media Error", &mut ret, &mut msgs);
        note_bit(st, 0x04, 20, "Command Aborted", &mut ret, &mut msgs);
        note_bit(st, 0x08, 3, "No Media or Media Error", &mut ret, &mut msgs);
        note_bit(st, 0x10, 21, "ID mark not Found", &mut ret, &mut msgs);
        note_bit(st, 0x20, 3, "No Media or Media Error", &mut ret, &mut msgs);
        note_bit(st, 0x40, 22, "Uncorrectable Data Error", &mut ret, &mut msgs);
        note_bit(st, 0x80, 13, "Bad Sectors", &mut ret, &mut msgs);
        assert(ret == error_report(err, st).0 && strs(msgs@) == error_report(err, st).1);
        return (ret, msgs);
    }
    if err == 3 {
        msgs.push("Reads Nothing");
        assert(strs(msgs@) =~= seq!["Reads Nothing"@]);
        return (23, msgs);
    }
    if err == 4 {
        msgs.push("Write Protected");
        assert(strs(msgs@) =~= seq!["Write Protected"@]);
        return (8, msgs);
    }
    assert(strs(msgs@) =~= Seq::<Seq<char>>::empty());
    (0, msgs)
}

/// The model name as characters, one per byte (NULs included).
pub open spec fn model_chars(n: Seq<u8>) -> Seq<char> {
    Seq::new(n.len(), |i: int| n[i] as char)
}

/// Turns the 41 model bytes into a string, each byte taken as a character.
pub fn name_as_string(n: [u8; 41]) -> (res: String)
    ensures
        res@ == model_chars(n@),
{
    let mut s = String::new();
    let mut i: usize = 0;
    while i < 41
        invariant
            i <= 41,
            s@ == model_chars(n@).take(i as int),
        decreases 41 - i,
    {
        let c = n[i] as char;
        let cs = char_to_string(c);
        s.append(cs.as_str());
        assert(model_chars(n@).take(i + 1) =~= model_chars(n@).take(i as int).push(c));
        i = i + 1;
    }
    assert(model_chars(n@).take(41) =~= model_chars(n@));
    s
}

/// How an ATA access is programmed.
#[derive(Debug, Clone, Copy)]
pub struct AtaPlan {
    /// 0: CHS, 1: LBA28, 2: LBA48.
    pub lba_mode: u8,
    pub lba_io: [u8; 6],
    pub head: u8,
    /// The value written to the drive/head select register.
    pub hddevsel: u8,
    /// The command byte.
    pub cmd: u8,
}

/// The command for an access mode, DMA or PIO, and direction (0 read).
pub open spec fn ata_command(lba_mode: u8, dma: bool, direction: u8) -> u8 {
    if direction == 0 {
        if dma {
            if lba_mode == 2 { ATA_CMD_READ_DMA_EXT } else { ATA_CMD_READ_DMA }
        } else {
            if lba_mode == 2 { ATA_CMD_READ_PIO_EXT } else { ATA_CMD_READ_PIO }
        }
    } else if direction == 1 {
        if dma {
            if lba_mode == 2 { ATA_CMD_WRITE_DMA_EXT } else { ATA_CMD_WRITE_DMA }
        } else {
            if lba_mode == 2 { ATA_CMD_WRITE_PIO_EXT } else { ATA_CMD_WRITE_PIO }
        }
    } else {
        0
    }
}

/// The plan for an access: LBA48 at or above 2^28, else LBA28 when the
/// drive supports LBA (capability bit 9), else cylinder/head/sector with 16
/// heads and 63 sectors per track.
pub open spec fn plan_matches(p: AtaPlan, lba: u32, capabilities: u16, childbit: u8, direction: u8, dma: bool) -> bool {
    &&& if lba >= 0x1000_0000 {
        &&& p.lba_mode == 2
        &&& p.lba_io@ == seq![(lba % 256) as u8, ((lba / 256) % 256) as u8, ((lba / 0x1_0000) % 256) as u8, (lba / 0x100_0000) as u8, 0u8, 0u8]
        &&& p.head == 0
    } else if capabilities & 0x200 != 0 {
        &&& p.lba_mode == 1
        &&& p.lba_io@ == seq![(lba % 256) as u8, ((lba / 256) % 256) as u8, ((lba / 0x1_0000) % 256) as u8, 0u8, 0u8, 0u8]
        &&& p.head == ((lba / 0x100_0000) % 16) as u8
    } else {
        let sect: int = lba % 63 + 1;
        let cyl = ((lba + 1 - sect) / 1008int) as u16;
        &&& p.lba_mode == 0
        &&& p.lba_io@ == seq![sect as u8, (cyl % 256) as u8, (cyl / 256) as u8, 0u8, 0u8, 0u8]
        &&& p.head == ((lba + 1 - sect) % 1008int / 63int) as u8
    }
    &&& p.hddevsel == ((if p.lba_mode == 0 { 0xA0u8 } else { 0xE0u8 }) | (childbit << 4u8) | p.head)
    &&& p.cmd == ata_command(p.lba_mode, dma, direction)
}

/// The command of a planned access: a sector at or above 2^28, beyond the
/// reach of 28-bit addressing, is read or written with the 48-bit (EXT)
/// command and LBA48 registers, and every sector below it with the 28-bit
/// command (PIO read 0x20, DMA read 0xC8, PIO write 0x30, DMA write 0xCA;
/// their EXT forms 0x24, 0x25, 0x34, 0x35); a direction other than read (0)
/// or write (1) gives no command. Below 2^28, 28-bit addressing is used
/// exactly when the drive reports LBA support (capability bit 9).
pub proof fn lemma_ata_plan_command(
    p: AtaPlan,
    lba: u32,
    capabilities: u16,
    childbit: u8,
    direction: u8,
    dma: bool,
)
    requires
        plan_matches(p, lba, capabilities, childbit, direction, dma),
    ensures
        (p.lba_mode == 2) <==> lba >= 0x1000_0000,
        direction == 0 && !dma ==> p.cmd == (if lba >= 0x1000_0000 { 0x24u8 } else { 0x20u8 }),
        direction == 0 && dma ==> p.cmd == (if lba >= 0x1000_0000 { 0x25u8 } else { 0xC8u8 }),
        direction == 1 && !dma ==> p.cmd == (if lba >= 0x1000_0000 { 0x34u8 } else { 0x30u8 }),
        direction == 1 && dma ==> p.cmd == (if lba >= 0x1000_0000 { 0x35u8 } else { 0xCAu8 }),
        direction > 1 ==> p.cmd == 0,
        lba < 0x1000_0000 ==> (p.lba_mode == 1 <==> (capabilities / 512) % 2 == 1),
{
    assert((capabilities & 0x200 != 0) == ((capabilities / 512) % 2 == 1)) by (bit_vector);
}

/// Works out the addressing mode, register values and command of an ATA
/// access to `lba` on a drive with the given capabilities.
pub fn plan_ata_access(lba: u32, capabilities: u16, childbit: u8, direction: u8, dma: bool) -> (res: AtaPlan)
    ensures
        plan_matches(res, lba, capabilities, childbit, direction, dma),
{
    let mut lba_io = [0u8; 6];
    let lba_mode: u8;
    let head: u8;
    if lba >= 0x1000_0000 {
        lba_mode = 2;
        lba_io[0] = (lba % 256) as u8;
        lba_io[1] = ((lba / 256) % 256) as u8;
        lba_io[2] = ((lba / 0x1_0000) % 256) as u8;
        lba_io[3] = (lba / 0x100_0000) as u8;
        head = 0;
    } else if capabilities & 0x200 != 0 {
        lba_mode = 1;
        lba_io[0] = (lba % 256) as u8;
        lba_io[1] = ((lba / 256) % 256) as u8;
        lba_io[2] = ((lba / 0x1_0000) % 256) as u8;
        head = ((lba / 0x100_0000) % 16) as u8;
    } else {
        lba_mode = 0;
        let sect = lba % 63 + 1;
        let cyl = ((lba + 1 - sect) / (16 * 63)) as u16;
        lba_io[0] = sect as u8;
        lba_io[1] = (cyl % 256) as u8;
        lba_io[2] = (cyl / 256) as u8;
        head = ((lba + 1 - sect) % (16 * 63) / 63) as u8;
    }
    let sel: u8 = if lba_mode == 0 {
        0xA0
    } else {
        0xE0
    };
    let cmd = if direction == 0 {
        if dma {
            if lba_mode == 2 { ATA_CMD_READ_DMA_EXT } else { ATA_CMD_READ_DMA }
        } else {
            if lba_mode == 2 { ATA_CMD_READ_PIO_EXT } else { ATA_CMD_READ_PIO }
        }
    } else if direction == 1 {
        if dma {
            if lba_mode == 2 { ATA_CMD_WRITE_DMA_EXT } else { ATA_CMD_WRITE_DMA }
        } else {
            if lba_mode == 2 { ATA_CMD_WRITE_PIO_EXT } else { ATA_CMD_WRITE_PIO }
        }
    } else {
        0
    };
    let res = AtaPlan { lba_mode, lba_io, head, hddevsel: sel | (childbit << 4u8) | head, cmd };
    assert(res.lba_io@ =~= lba_io@);
    proof {
        if lba >= 0x1000_0000 {
            assert(res.lba_io@ =~= seq![(lba % 256) as u8, ((lba / 256) % 256) as u8, ((lba / 0x1_0000) % 256) as u8, (lba / 0x100_0000) as u8, 0u8, 0u8]);
        } else if capabilities & 0x200 != 0 {
            assert(res.lba_io@ =~= seq![(lba % 256) as u8, ((lba / 256) % 256) as u8, ((lba / 0x1_0000) % 256) as u8, 0u8, 0u8, 0u8]);
        } else {
            let sect: int = lba % 63 + 1;
            let cyl = ((lba + 1 - sect) / 1008int) as u16;
            assert(res.lba_io@ =~= seq![sect as u8, (cyl % 256) as u8, (cyl / 256) as u8, 0u8, 0u8, 0u8]);
        }
    }
    res
}

/// The cache-flush command for an addressing mode.
pub fn cache_flush_command(lba_mode: u8) -> (res: u8)
    ensures
        res == (if lba_mode == 2 { ATA_CMD_CACHE_FLUSH_EXT } else { ATA_CMD_CACHE_FLUSH }),
{
    if lba_mode == 2 {
        ATA_CMD_CACHE_FLUSH_EXT
    } else {
        ATA_CMD_CACHE_FLUSH
    }
}

/// The 12-byte ATAPI packet that reads `numsects` sectors at `lba`. The
/// top address byte is taken from bit 26 on.
pub open spec fn read_packet_spec(lba: u32, numsects: u8) -> Seq<u8> {
    seq![
        ATAPI_CMD_READ, 0u8,
        ((lba / 0x400_0000) % 256) as u8,
        ((lba / 0x1_0000) % 256) as u8,
        ((lba / 256) % 256) as u8,
        (lba % 256) as u8,
        0u8, 0u8, 0u8, numsects, 0u8, 0u8,
    ]
}

pub fn atapi_read_packet(lba: u32, numsects: u8) -> (res: [u8; 12])
    ensures
        res@ == read_packet_spec(lba, numsects),
{
    let mut p = [0u8; 12];
    p[0] = ATAPI_CMD_READ;
    p[2] = ((lba / 0x400_0000) % 256) as u8;
    p[3] = ((lba / 0x1_0000) % 256) as u8;
    p[4] = ((lba / 256) % 256) as u8;
    p[5] = (lba % 256) as u8;
    p[9] = numsects;
    assert(p@ =~= read_packet_spec(lba, numsects));
    p
}

/// The 12-byte ATAPI packet that ejects the medium.
pub fn atapi_eject_packet() -> (res: [u8; 12])
    ensures
        res@ == seq![ATAPI_CMD_EJECT, 0u8, 0u8, 0u8, 0u8, 0u8, 0u8, 0u8, 0u8, 0u8, 0u8, 0u8],
{
    let mut p = [0u8; 12];
    p[0] = ATAPI_CMD_EJECT;
    assert(p@ =~= seq![ATAPI_CMD_EJECT, 0u8, 0u8, 0u8, 0u8, 0u8, 0u8, 0u8, 0u8, 0u8, 0u8, 0u8]);
    p
}

/// Why a sector transfer is refused before it starts: 1 for a drive number
/// above 3 or a slot with no drive, 2 for an ATA drive whose size the range
/// passes.
pub open spec fn transfer_refusal(drive: u8, present: bool, is_ata: bool, lba: u32, numsects: u8, size: u32) -> u8 {
    if drive > 3 || !present {
        1
    } else if lba + numsects > size && is_ata {
        2
    } else {
        0
    }
}

pub fn check_transfer(drive: u8, present: bool, is_ata: bool, lba: u32, numsects: u8, size: u32) -> (res: u8)
    requires
        drive > 3 || !present || lba + numsects <= u32::MAX,
    ensures
        res == transfer_refusal(drive, present, is_ata, lba, numsects, size),
{
    if drive > 3 || !present {
        1
    } else if lba + numsects as u32 > size && is_ata {
        2
    } else {
        0
    }
}

/// What IDENTIFY data says of a drive.
#[derive(Debug, Clone, Copy)]
pub struct IdeIdentity {
    pub sig: u16,
    pub capabilities: u16,
    pub cmdsets: u32,
    /// Addressable sectors (from the LBA48 field when command-set bit 26 is
    /// set).
    pub sz: u32,
    /// The model string with each byte pair swapped, NUL-terminated.
    pub model: [u8; 41],
}

/// `id` is what the IDENTIFY data `b` says.
pub open spec fn identity_matches(id: IdeIdentity, b: Seq<u8>) -> bool {
    &&& id.sig == le16(b, 0)
    &&& id.capabilities == le16(b, 98)
    &&& id.cmdsets == le32(b, 164)
    &&& id.sz == (if id.cmdsets & 0x400_0000 != 0 { le32(b, 200) } else { le32(b, 120) })
    &&& forall|k: int| 0 <= k < 20 ==> #[trigger] model_pair(id.model@, b, k)
    &&& id.model@[40] == 0
}

/// Model bytes `2k` and `2k + 1` are the IDENTIFY model bytes of word `k`,
/// swapped.
pub open spec fn model_pair(model: Seq<u8>, b: Seq<u8>, k: int) -> bool {
    model[2 * k] == b[54 + 2 * k + 1] && model[2 * k + 1] == b[54 + 2 * k]
}

/// Reads the drive description out of the first 512 bytes of IDENTIFY data.
pub fn parse_identify(buf: &[u8; 512]) -> (res: IdeIdentity)
    ensures
        identity_matches(res, buf@),
{
    let sig = read_le16(buf, 0);
    let capabilities = read_le16(buf, 98);
    let cmdsets = read_le32(buf, 164);
    let sz = if cmdsets & 0x400_0000 != 0 {
        read_le32(buf, 200)
    } else {
        read_le32(buf, 120)
    };
    let mut model = [0u8; 41];
    let mut k: usize = 0;
    while k < 20
        invariant
            k <= 20,
            model@[40] == 0,
            forall|m: int| 0 <= m < k ==> #[trigger] model_pair(model@, buf@, m),
        decreases 20 - k,
    {
        let kk = k * 2;
        let ghost before = model@;
        model[kk] = buf[54 + kk + 1];
        model[kk + 1] = buf[54 + kk];
        assert forall|m: int| 0 <= m < k + 1 implies #[trigger] model_pair(model@, buf@, m) by {
            if m < k {
                assert(model_pair(before, buf@, m));
            }
        }
        k = k + 1;
    }
    IdeIdentity { sig, capabilities, cmdsets, sz, model }
}

/// Where the IDENTIFY probe of the four drives (two channels, master and
/// slave) stands.
#[derive(Debug, Clone, Copy, PartialEq, Eq, Structural)]
pub enum IdeProbeStage {
    /// About to identify the current drive.
    Select,
    /// IDENTIFY was sent; the first status read tells whether a drive answers.
    FirstStatus,
    /// Waiting until the drive reports an error or has data.
    Polling,
    /// IDENTIFY failed; the signature registers tell whether it is ATAPI.
    Signature,
    /// The drive's 512 IDENTIFY bytes are being read.
    Data,
    /// Every drive has been probed.
    Done,
}

/// The probe's position: the channel and drive under way, the stage, and
/// whether the drive showed an ATAPI signature.
#[derive(Debug, Clone, Copy, PartialEq, Eq, Structural)]
pub struct IdeProbe {
    pub channel: u8,
    pub drive: u8,
    pub stage: IdeProbeStage,
    pub atapi: bool,
}

/// What the kernel does next for the probe.
#[derive(Debug, Clone, Copy, PartialEq, Eq, Structural)]
pub enum IdeProbeAction {
    /// Select the drive (`0xA0 | drive << 4` to the drive register), wait
    /// 1 ms, send IDENTIFY, wait 1 ms, and read the status register.
    Identify { channel: u8, drive: u8 },
    /// Read the status register again.
    ReadStatus,
    /// Read the LBA1 and LBA2 registers.
    ReadSignature,
    /// Send IDENTIFY PACKET, wait 1 ms, and read the 512 IDENTIFY bytes.
    IdentifyPacket,
    /// Read the 512 IDENTIFY bytes.
    ReadData,
    /// The probe is over.
    Finished,
}

/// What the kernel observed for the last action.
#[derive(Debug, Clone, Copy, PartialEq, Eq, Structural)]
pub enum IdeProbeEvent {
    /// The probe starts.
    Start,
    /// The status register read this.
    Status(u8),
    /// LBA1 and LBA2 read these.
    Signature(u8, u8),
    /// The IDENTIFY bytes were read (and the drive recorded).
    DataRead,
}

/// The probe at the start: channel 0, drive 0.
pub open spec fn probe_start() -> IdeProbe {
    IdeProbe { channel: 0, drive: 0, stage: IdeProbeStage::Select, atapi: false }
}

/// Moving on to the next drive (slave after master, then the next channel)
/// and identifying it, or finishing after the last.
pub open spec fn probe_advance(p: IdeProbe) -> (IdeProbe, IdeProbeAction) {
    let (c, d) = if p.drive == 0 { (p.channel as int, 1int) } else { (p.channel + 1, 0int) };
    if c >= 2 {
        (IdeProbe { channel: 2, drive: 0, stage: IdeProbeStage::Done, atapi: false }, IdeProbeAction::Finished)
    } else {
        (
            IdeProbe { channel: c as u8, drive: d as u8, stage: IdeProbeStage::FirstStatus, atapi: false },
            IdeProbeAction::Identify { channel: c as u8, drive: d as u8 },
        )
    }
}

/// Whether LBA1 and LBA2 carry an ATAPI signature (0x14, 0xEB or 0x69, 0x96).
pub open spec fn atapi_signature(lba1: u8, lba2: u8) -> bool {
    (lba1 == 0x14 && lba2 == 0xEB) || (lba1 == 0x69 && lba2 == 0x96)
}

/// The action a stage waits on, asked again when an event does not fit it.
pub open spec fn stage_action(p: IdeProbe) -> IdeProbeAction {
    match p.stage {
        IdeProbeStage::Select => IdeProbeAction::Identify { channel: p.channel, drive: p.drive },
        IdeProbeStage::FirstStatus => IdeProbeAction::ReadStatus,
        IdeProbeStage::Polling => IdeProbeAction::ReadStatus,
        IdeProbeStage::Signature => IdeProbeAction::ReadSignature,
        IdeProbeStage::Data => IdeProbeAction::ReadData,
        IdeProbeStage::Done => IdeProbeAction::Finished,
    }
}

/// One step of the probe. A first status of 0 means no drive: the probe
/// moves on. While polling, an error bit sends it to the signature, and a
/// clear busy bit with the data-request bit set to the data. An ATAPI
/// signature asks for IDENTIFY PACKET; any other moves on. Once the data is
/// read the probe moves on.
pub open spec fn probe_spec(p: IdeProbe, ev: IdeProbeEvent) -> (IdeProbe, IdeProbeAction) {
    match (p.stage, ev) {
        (IdeProbeStage::Select, IdeProbeEvent::Start) => if p.channel >= 2 {
            (IdeProbe { stage: IdeProbeStage::Done, ..p }, IdeProbeAction::Finished)
        } else {
            (
                IdeProbe { stage: IdeProbeStage::FirstStatus, atapi: false, ..p },
                IdeProbeAction::Identify { channel: p.channel, drive: p.drive },
            )
        },
        (IdeProbeStage::FirstStatus, IdeProbeEvent::Status(s)) => if s == 0 {
            probe_advance(p)
        } else {
            (IdeProbe { stage: IdeProbeStage::Polling, ..p }, IdeProbeAction::ReadStatus)
        },
        (IdeProbeStage::Polling, IdeProbeEvent::Status(s)) => if s & ATA_SR_ERR != 0 {
            (IdeProbe { stage: IdeProbeStage::Signature, ..p }, IdeProbeAction::ReadSignature)
        } else if s & ATA_SR_BSY == 0 && s & ATA_SR_DRQ != 0 {
            (IdeProbe { stage: IdeProbeStage::Data, ..p }, IdeProbeAction::ReadData)
        } else {
            (p, IdeProbeAction::ReadStatus)
        },
        (IdeProbeStage::Signature, IdeProbeEvent::Signature(l1, l2)) => if atapi_signature(l1, l2) {
            (IdeProbe { stage: IdeProbeStage::Data, atapi: true, ..p }, IdeProbeAction::IdentifyPacket)
        } else {
            probe_advance(p)
        },
        (IdeProbeStage::Data, IdeProbeEvent::DataRead) => probe_advance(p),
        _ => (p, stage_action(p)),
    }
}

/// A probe at channel 0, drive 0, not yet started.
pub fn probe_new() -> (res: IdeProbe)
    ensures
        res == probe_start(),
{
    IdeProbe { channel: 0, drive: 0, stage: IdeProbeStage::Select, atapi: false }
}

fn advance(p: &IdeProbe) -> (res: (IdeProbe, IdeProbeAction))
    requires
        p.channel <= 2,
    ensures
        res == probe_advance(*p),
{
    let (c, d): (u8, u8) = if p.drive == 0 {
        (p.channel, 1)
    } else {
        (p.channel + 1, 0)
    };
    if c >= 2 {
        (IdeProbe { channel: 2, drive: 0, stage: IdeProbeStage::Done, atapi: false }, IdeProbeAction::Finished)
    } else {
        (IdeProbe { channel: c, drive: d, stage: IdeProbeStage::FirstStatus, atapi: false }, IdeProbeAction::Identify { channel: c, drive: d })
    }
}

/// The next state and action of the probe after `ev` (see `probe_spec`).
pub fn ide_probe_step(p: &IdeProbe, ev: IdeProbeEvent) -> (res: (IdeProbe, IdeProbeAction))
    requires
        p.channel <= 2,
    ensures
        res == probe_spec(*p, ev),
        res.0.channel <= 2,
{
    let again = match p.stage {
        IdeProbeStage::Select => IdeProbeAction::Identify { channel: p.channel, drive: p.drive },
        IdeProbeStage::FirstStatus => IdeProbeAction::ReadStatus,
        IdeProbeStage::Polling => IdeProbeAction::ReadStatus,
        IdeProbeStage::Signature => IdeProbeAction::ReadSignature,
        IdeProbeStage::Data => IdeProbeAction::ReadData,
        IdeProbeStage::Done => IdeProbeAction::Finished,
    };
    match (p.stage, ev) {
        (IdeProbeStage::Select, IdeProbeEvent::Start) => {
            if p.channel >= 2 {
                (IdeProbe { stage: IdeProbeStage::Done, ..*p }, IdeProbeAction::Finished)
            } else {
                (IdeProbe { stage: IdeProbeStage::FirstStatus, atapi: false, ..*p }, IdeProbeAction::Identify { channel: p.channel, drive: p.drive })
            }
        },
        (IdeProbeStage::FirstStatus, IdeProbeEvent::Status(s)) => {
            if s == 0 {
                advance(p)
            } else {
                (IdeProbe { stage: IdeProbeStage::Polling, ..*p }, IdeProbeAction::ReadStatus)
            }
        },
        (IdeProbeStage::Polling, IdeProbeEvent::Status(s)) => {
            if s & ATA_SR_ERR != 0 {
                (IdeProbe { stage: IdeProbeStage::Signature, ..*p }, IdeProbeAction::ReadSignature)
            } else if s & ATA_SR_BSY == 0 && s & ATA_SR_DRQ != 0 {
                (IdeProbe { stage: IdeProbeStage::Data, ..*p }, IdeProbeAction::ReadData)
            } else {
                (*p, IdeProbeAction::ReadStatus)
            }
        },
        (IdeProbeStage::Signature, IdeProbeEvent::Signature(l1, l2)) => {
            if (l1 == 0x14 && l2 == 0xEB) || (l1 == 0x69 && l2 == 0x96) {
                (IdeProbe { stage: IdeProbeStage::Data, atapi: true, ..*p }, IdeProbeAction::IdentifyPacket)
            } else {
                advance(p)
            }
        },
        (IdeProbeStage::Data, IdeProbeEvent::DataRead) => advance(p),
        _ => (*p, again),
    }
}

/// The drive-table entry for a drive whose IDENTIFY bytes are `data`:
/// present, ATAPI (type 1) or ATA (type 0), with the capabilities and size
/// that the data gives.
pub fn probed_drive(channel: u8, drive: u8, atapi: bool, data: &[u8; 512]) -> (res: (IdeDrive, IdeIdentity))
    ensures
        identity_matches(res.1, data@),
        res.0 == (IdeDrive {
            present: true,
            typ: if atapi { 1u16 } else { 0u16 },
            channel,
            drive,
            capabilities: res.1.capabilities,
            size: res.1.sz,
        }),
{
    let id = parse_identify(data);
    let typ: u16 = if atapi {
        1
    } else {
        0
    };
    (IdeDrive { present: true, typ, channel, drive, capabilities: id.capabilities, size: id.sz }, id)
}

} // verus!
