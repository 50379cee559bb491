//! The interrupt controllers' register values: I/O APIC redirection-table
//! entries, decoded from and encoded to their 64-bit form and split over two
//! 32-bit registers, and the local APIC's interrupt-command register.
use vstd::prelude::*;

verus! {

#[derive(Clone, Debug)]
pub struct RedTbl {
    pub vector: u8,
    pub delivery_mode: u8,
    pub destination_mode: bool,
    pub delivery_status: bool,
    pub pin_polarity: bool,
    pub remote_irr: bool,
    pub trigger_mode: bool,
    pub mask: bool,
    pub destination: u8,
}

/// The entry that a register value describes: vector in bits 0-7, delivery
/// mode in bits 8-9, one flag in each of bits 10-15, destination in bits
/// 56-63.
pub open spec fn redtbl_decode(n: u64) -> RedTbl {
    RedTbl {
        vector: (n & 0xff) as u8,
        delivery_mode: ((n >> 8) & 0b11) as u8,
        destination_mode: (n >> 10) & 1 != 0,
        delivery_status: (n >> 11) & 1 != 0,
        pin_polarity: (n >> 12) & 1 != 0,
        remote_irr: (n >> 13) & 1 != 0,
        trigger_mode: (n >> 14) & 1 != 0,
        mask: (n >> 15) & 1 != 0,
        destination: (n >> 56) as u8,
    }
}

pub open spec fn flag(b: bool) -> u64 {
    if b {
        1
    } else {
        0
    }
}

/// The register value an entry is stored as: the fields shifted into place
/// and added up.
pub open spec fn redtbl_encode(t: RedTbl) -> int {
    ((t.destination as u64) << 56) + (t.vector as u64) + ((t.delivery_mode as u64) << 8) + (flag(
        t.destination_mode,
    ) << 10) + (flag(t.delivery_status) << 11) + (flag(t.pin_polarity) << 12) + (flag(
        t.remote_irr,
    ) << 13) + (flag(t.trigger_mode) << 14) + (flag(t.mask) << 15)
}

proof fn lemma_encode_fits(d: u64, v: u64, m: u64, f0: u64, f1: u64, f2: u64, f3: u64, f4: u64, f5: u64)
    requires
        d < 256,
        v < 256,
        m < 256,
        f0 < 2,
        f1 < 2,
        f2 < 2,
        f3 < 2,
        f4 < 2,
        f5 < 2,
    ensures
        (d << 56) as int + v + (m << 8) as int + (f0 << 10) as int + (f1 << 11) as int + (f2 << 12) as int + (f3 << 13) as int
            + (f4 << 14) as int + (f5 << 15) as int <= u64::MAX,
{
    assert(d << 56 <= 0xff00_0000_0000_0000) by (bit_vector)
        requires
            d < 256,
    ;
    assert(m << 8 <= 0xff00) by (bit_vector)
        requires
            m < 256,
    ;
    assert(f0 << 10 <= 1024 && f1 << 11 <= 2048 && f2 << 12 <= 4096 && f3 << 13 <= 8192 && f4
        << 14 <= 16384 && f5 << 15 <= 32768) by (bit_vector)
        requires
            f0 < 2,
            f1 < 2,
            f2 < 2,
            f3 < 2,
            f4 < 2,
            f5 < 2,
    ;
}

impl RedTbl {
    /// Decodes a redirection-table register value.
    pub fn new(n: u64) -> (res: Self)
        ensures
            res == redtbl_decode(n),
    {
        let mut c = n;
        let vector = (c & 0xff) as u8;
        c >>= 8;
        let delivery_mode = (c & 0b11) as u8;
        c >>= 2;
        let destination_mode = c & 0b1 != 0;
        c >>= 1;
        let delivery_status = c & 0b1 != 0;
        c >>= 1;
        let pin_polarity = c & 0b1 != 0;
        c >>= 1;
        let remote_irr = c & 0b1 != 0;
        c >>= 1;
        let trigger_mode = c & 0b1 != 0;
        c >>= 1;
        let mask = c & 0b1 != 0;
        let destination = (n >> 56) as u8;
        assert(((n >> 8) >> 2) == n >> 10 && (((n >> 8) >> 2) >> 1) == n >> 11 && ((((n >> 8)
            >> 2) >> 1) >> 1) == n >> 12 && (((((n >> 8) >> 2) >> 1) >> 1) >> 1) == n >> 13 && ((
        ((((n >> 8) >> 2) >> 1) >> 1) >> 1) >> 1) == n >> 14 && (((((((n >> 8) >> 2) >> 1) >> 1)
            >> 1) >> 1) >> 1) == n >> 15) by (bit_vector);
        Self {
            vector,
            delivery_mode,
            destination_mode,
            delivery_status,
            pin_polarity,
            remote_irr,
            trigger_mode,
            mask,
            destination,
        }
    }

    /// Encodes the entry as a register value.
    pub fn store(&self) -> (res: u64)
        ensures
            res == redtbl_encode(*self),
    {
        let dm: u64 = if self.destination_mode { 1 } else { 0 };
        let ds: u64 = if self.delivery_status { 1 } else { 0 };
        let pp: u64 = if self.pin_polarity { 1 } else { 0 };
        let ri: u64 = if self.remote_irr { 1 } else { 0 };
        let tm: u64 = if self.trigger_mode { 1 } else { 0 };
        let mk: u64 = if self.mask { 1 } else { 0 };
        proof {
            lemma_encode_fits(
                self.destination as u64,
                self.vector as u64,
                self.delivery_mode as u64,
                dm,
                ds,
                pp,
                ri,
                tm,
                mk,
            );
        }
        let mut r = 0_u64;
        r += (self.destination as u64) << 56;
        r += self.vector as u64;
        r += (self.delivery_mode as u64) << 8;
        r += dm << 10;
        r += ds << 11;
        r += pp << 12;
        r += ri << 13;
        r += tm << 14;
        r += mk << 15;
        r
    }
}

/// Storing a decoded register value gives back its bits 0-15 and 56-63 (the
/// bits in between are not part of an entry).
pub proof fn lemma_store_after_new(n: u64)
    ensures
        redtbl_encode(redtbl_decode(n)) == (n & 0xff00_0000_0000_ffff) as int,
{
    let t = redtbl_decode(n);
    let f0 = flag(t.destination_mode);
    let f1 = flag(t.delivery_status);
    let f2 = flag(t.pin_polarity);
    let f3 = flag(t.remote_irr);
    let f4 = flag(t.trigger_mode);
    let f5 = flag(t.mask);
    assert(f0 == (n >> 10) & 1 && f1 == (n >> 11) & 1 && f2 == (n >> 12) & 1 && f3 == (n >> 13)
        & 1 && f4 == (n >> 14) & 1 && f5 == (n >> 15) & 1) by (bit_vector)
        requires
            f0 == (if (n >> 10) & 1 != 0 { 1u64 } else { 0u64 }),
            f1 == (if (n >> 11) & 1 != 0 { 1u64 } else { 0u64 }),
            f2 == (if (n >> 12) & 1 != 0 { 1u64 } else { 0u64 }),
            f3 == (if (n >> 13) & 1 != 0 { 1u64 } else { 0u64 }),
            f4 == (if (n >> 14) & 1 != 0 { 1u64 } else { 0u64 }),
            f5 == (if (n >> 15) & 1 != 0 { 1u64 } else { 0u64 }),
    ;
    assert(((((n >> 56) as u8) as u64) << 56) + ((n & 0xff) as u8) as u64 + (((((n >> 8) & 3)
        as u8) as u64) << 8) + (((n >> 10) & 1) << 10) + (((n >> 11) & 1) << 11) + (((n >> 12)
        & 1) << 12) + (((n >> 13) & 1) << 13) + (((n >> 14) & 1) << 14) + (((n >> 15) & 1) << 15)
        == n & 0xff00_0000_0000_ffff) by (bit_vector);
}

/// Decoding a stored entry gives the same entry back, provided its delivery
/// mode fits the two bits it is stored in.
pub proof fn lemma_new_after_store(t: RedTbl)
    requires
        t.delivery_mode < 4,
    ensures
        redtbl_decode(redtbl_encode(t) as u64) == t,
{
    let d = t.destination as u64;
    let v = t.vector as u64;
    let m = t.delivery_mode as u64;
    let f0 = flag(t.destination_mode);
    let f1 = flag(t.delivery_status);
    let f2 = flag(t.pin_polarity);
    let f3 = flag(t.remote_irr);
    let f4 = flag(t.trigger_mode);
    let f5 = flag(t.mask);
    lemma_encode_fits(d, v, m, f0, f1, f2, f3, f4, f5);
    let w = redtbl_encode(t) as u64;
    assert(w == (d << 56) | v | (m << 8) | (f0 << 10) | (f1 << 11) | (f2 << 12) | (f3 << 13) | (f4
        << 14) | (f5 << 15)) by (bit_vector)
        requires
            d < 256,
            v < 256,
            m < 4,
            f0 < 2,
            f1 < 2,
            f2 < 2,
            f3 < 2,
            f4 < 2,
            f5 < 2,
            w == (d << 56) + v + (m << 8) + (f0 << 10) + (f1 << 11) + (f2 << 12) + (f3 << 13) + (
            f4 << 14) + (f5 << 15),
    ;
    assert((w & 0xff) == v && ((w >> 8) & 3) == m && (w >> 56) == d && (w >> 10) & 1 == f0 && (w
        >> 11) & 1 == f1 && (w >> 12) & 1 == f2 && (w >> 13) & 1 == f3 && (w >> 14) & 1 == f4 && (
    w >> 15) & 1 == f5) by (bit_vector)
        requires
            d < 256,
            v < 256,
            m < 4,
            f0 < 2,
            f1 < 2,
            f2 < 2,
            f3 < 2,
            f4 < 2,
            f5 < 2,
            w == (d << 56) | v | (m << 8) | (f0 << 10) | (f1 << 11) | (f2 << 12) | (f3 << 13) | (
            f4 << 14) | (f5 << 15),
    ;
}

/// Local APIC register offsets from its base.
pub const LAPIC_ID: u32 = 0x20;
pub const LAPIC_VERSION: u32 = 0x30;
pub const LAPIC_EOI: u32 = 0xB0;
pub const LAPIC_SPURIOUS: u32 = 0xF0;
pub const LAPIC_ESR: u32 = 0x280;
pub const LAPIC_ICR_LOW: u32 = 0x300;
pub const LAPIC_ICR_HIGH: u32 = 0x310;
pub const LAPIC_LVT_TIMER: u32 = 0x320;
pub const LAPIC_LVT_ERROR: u32 = 0x370;
pub const LAPIC_INIT_COUNT: u32 = 0x380;
pub const LAPIC_CUR_COUNT: u32 = 0x390;
pub const LAPIC_DIV_CONF: u32 = 0x3E0;

/// The delivery-pending bit of the low interrupt-command register.
pub const ICR_PENDING: u32 = 0x1000;

/// A 64-bit register value made of a low and a high 32-bit half.
pub open spec fn join_halves(low: int, high: int) -> int {
    high * 0x1_0000_0000 + low
}

/// What an I/O APIC entry write puts in the low register: the entry's
/// bits 0-15, with the rest of that register cleared.
pub open spec fn redtbl_low_word(v: u64) -> int {
    (v % 0x1_0000) as int
}

/// What an I/O APIC entry write puts in the high register: bits 32-63.
pub open spec fn upper_word(v: u64) -> int {
    (v / 0x1_0000_0000) as int
}

/// The low 32 bits of a value.
pub open spec fn lower_word(v: u64) -> int {
    (v % 0x1_0000_0000) as int
}

proof fn lemma_register_words(v: u64, lo: u32, hi: u32)
    by (bit_vector)
    ensures
        ((hi as u64) << 32u64) | (lo as u64) == hi * 0x1_0000_0000 + lo,
        ((hi as u64) << 32u64) + (lo as u64) == hi * 0x1_0000_0000 + lo,
        (v >> 32u64) as u32 == v / 0x1_0000_0000,
        v as u32 == v % 0x1_0000_0000,
        (v & 0xffff) as u32 == v % 0x1_0000,
        (v & 0xff00_0000_0000_ffff) % 0x1_0000_0000 == (v & 0xff00_0000_0000_ffff) % 0x1_0000,
{
}

/// The interrupt-command value the two ICR registers hold together.
pub fn icr_from_registers(low: u32, high: u32) -> (res: u64)
    ensures
        res == join_halves(low as int, high as int),
{
    proof {
        lemma_register_words(0, low, high);
    }
    ((high as u64) << 32u64) | (low as u64)
}

/// The values written to the high and the low ICR register (in that
/// order, the low write sends the interrupt) for a command.
pub fn icr_registers(value: u64) -> (res: (u32, u32))
    ensures
        res.0 == upper_word(value),
        res.1 == lower_word(value),
{
    proof {
        lemma_register_words(value, 0, 0);
    }
    ((value >> 32u64) as u32, value as u32)
}

/// Whether the low ICR register still shows an interrupt being delivered.
pub fn icr_pending(low: u32) -> (res: bool)
    ensures
        res == (low & ICR_PENDING == ICR_PENDING),
{
    low & ICR_PENDING == ICR_PENDING
}

/// The command for a fixed inter-processor interrupt with vector 0x40 to
/// the APIC `apic_id` (level asserted; the id goes to bits 56-63).
pub fn ipi_command(apic_id: usize) -> (res: u64)
    ensures
        res == 0x4040u64 | ((apic_id as u64) << 56u64),
{
    let icr: u64 = 0x4040;
    icr | ((apic_id as u64) << 56u64)
}

/// The command for a non-maskable interrupt to the APIC `apic_id`
/// (delivery mode 0b100, level asserted).
pub fn nmi_command(apic_id: u32) -> (res: u64)
    ensures
        res == ((apic_id as u64) << 56u64) | 0x4000u64 | 0x400u64,
{
    ((apic_id as u64) << 56u64) | 0x4000u64 | 0x400u64
}

/// The I/O APIC registers of redirection entry `index`: the low half's,
/// then the high half's.
pub fn redtbl_registers(index: u32) -> (res: (u32, u32))
    requires
        0x11 + 2 * index <= u32::MAX,
    ensures
        res.0 == 0x10 + 2 * index,
        res.1 == 0x10 + 2 * index + 1,
{
    (0x10 + 2 * index, 0x10 + 2 * index + 1)
}

/// The entry value read back from the low and high registers.
pub fn redtbl_from_registers(low: u32, high: u32) -> (res: u64)
    ensures
        res == join_halves(low as int, high as int),
{
    proof {
        lemma_register_words(0, low, high);
    }
    ((high as u64) << 32u64) + (low as u64)
}

/// The low and high register values written for an entry value.
pub fn redtbl_words(redtlb: u64) -> (res: (u32, u32))
    ensures
        res.0 == redtbl_low_word(redtlb),
        res.1 == upper_word(redtlb),
{
    proof {
        lemma_register_words(redtlb, 0, 0);
    }
    ((redtlb & 0xffff) as u32, (redtlb >> 32u64) as u32)
}

/// An interrupt command written as its two register values reads back as
/// the same command.
pub proof fn lemma_icr_write_read(value: u64)
    ensures
        join_halves(lower_word(value), upper_word(value)) == value,
{
}

/// A redirection entry stored as a register value and written as its two
/// register words reads back as the same value, which decodes to the same
/// entry (its delivery mode fitting the two bits it is stored in).
pub proof fn lemma_redtbl_write_read(t: RedTbl)
    requires
        t.delivery_mode < 4,
    ensures
        join_halves(redtbl_low_word(redtbl_encode(t) as u64), upper_word(redtbl_encode(t) as u64))
            == redtbl_encode(t),
        redtbl_decode(redtbl_encode(t) as u64) == t,
{
    let v = redtbl_encode(t) as u64;
    lemma_new_after_store(t);
    lemma_store_after_new(v);
    lemma_encode_fits(
        t.destination as u64,
        t.vector as u64,
        t.delivery_mode as u64,
        flag(t.destination_mode),
        flag(t.delivery_status),
        flag(t.pin_polarity),
        flag(t.remote_irr),
        flag(t.trigger_mode),
        flag(t.mask),
    );
    assert(v == v & 0xff00_0000_0000_ffff);
    lemma_register_words(v, 0, 0);
}

/// The local APIC timer set-up: divide configuration 0b1011 (divide by
/// one), periodic mode on vector 48, and the initial count used when the
/// processor reports no TSC frequency.
pub const LAPIC_TIMER_DIVIDE: u32 = 0b1011;
pub const LAPIC_TIMER_LVT: u32 = 0x2_0030;
pub const LAPIC_TIMER_DEFAULT_COUNT: u32 = 1_000_000;

/// The number of redirection entries set up on each I/O APIC.
pub const IOAPIC_LINES: u32 = 24;

/// The entry written back for interrupt line `line`: the entry read from
/// the register, decoded, given vector 50 + `line` (cut to a byte), and
/// stored again.
pub fn route_irq(entry: u64, line: u32) -> (res: u64)
    requires
        line <= u32::MAX - 50,
    ensures
        res == redtbl_encode(RedTbl { vector: ((50 + line) % 256) as u8, ..redtbl_decode(entry) }),
{
    let mut red = RedTbl::new(entry);
    red.vector = ((50 + line) % 256) as u8;
    red.store()
}

} // verus!
