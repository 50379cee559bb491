//! The RTL8139 network card's bookkeeping: which transmit descriptor comes
//! next, where the receive ring's next packet starts, and the read pointer
//! the card is told. Port traffic goes through functions the caller hands
//! in; received frames are read from the ring buffer the card fills.
use crate::bytes::{le16, read_le16};
use vstd::prelude::*;

verus! {

pub const PCI_VENDOR_ID: u32 = 0x10EC;

pub const PCI_DEVICE_ID: u32 = 0x8139;

/// The receive ring's size (the buffer has 16 bytes more, plus slack).
pub const RX_RING_SIZE: u16 = 8192;

/// The largest frame the card is handed for sending.
pub const MAX_TX_LEN: usize = 1792;

#[derive(Debug, Clone, Copy, PartialEq, Eq, Structural)]
pub enum PacketError {
    TXDescBusy,
    TooLong,
    BadPacket,
    BufferEmpty,
}

pub struct Rtl8139 {
    mac: [u8; 6],
    mar: [u8; 8],
    tsd: [u32; 4],
    tsad: [u32; 4],
    rbstart: u32,
    cmd: u8,
    imr: u16,
    isr: u16,
    tx_current: u8,
    rx_offset: u16,
    ioaddr: u16,
    irq: u8,
}

/// The card's state as the driver tracks it.
pub struct RtlView {
    pub mac: Seq<u8>,
    pub tx_current: u8,
    pub rx_offset: u16,
    pub ioaddr: u16,
    pub irq: u8,
}

impl View for Rtl8139 {
    type V = RtlView;

    closed spec fn view(&self) -> RtlView {
        RtlView {
            mac: self.mac@,
            tx_current: self.tx_current,
            rx_offset: self.rx_offset,
            ioaddr: self.ioaddr,
            irq: self.irq,
        }
    }
}

/// The I/O base from BAR 0: its low 16 bits without the two flag bits.
pub fn io_base(bar0: u32) -> (res: u16)
    ensures
        res == (bar0 as u16) & !3u16,
{
    (bar0 as u16) & !3u16
}

/// The ring offset after a frame of `length` bytes at `offset`: past its
/// 4-byte header, rounded up to a multiple of 4.
pub open spec fn next_offset(offset: u16, length: u16) -> u16 {
    ((offset + length + 7) as u16) & !3u16
}

impl Rtl8139 {
    pub closed spec fn wf(&self) -> bool {
        self.tx_current < 4
    }

    /// A card set up at I/O base `ioaddr` on interrupt line `irq`, with its
    /// MAC address; transmission starts at descriptor 0 and reception at
    /// the start of the ring.
    pub fn new(mac: [u8; 6], ioaddr: u16, irq: u8) -> (res: Self)
        ensures
            res.wf(),
            res@ == (RtlView { mac: mac@, tx_current: 0, rx_offset: 0, ioaddr, irq }),
    {
        Rtl8139 {
            mac,
            mar: [0; 8],
            tsd: [0; 4],
            tsad: [0; 4],
            rbstart: 0,
            cmd: 0,
            imr: 0,
            isr: 0,
            tx_current: 0,
            rx_offset: 0,
            ioaddr,
            irq,
        }
    }

    pub fn mac(&self) -> (res: [u8; 6])
        ensures
            res@ == self@.mac,
    {
        self.mac
    }

    pub fn ioaddr(&self) -> (res: u16)
        ensures
            res == self@.ioaddr,
    {
        self.ioaddr
    }

    /// Where the next frame starts in the receive ring.
    pub fn rx_offset(&self) -> (res: u16)
        ensures
            res == self@.rx_offset,
    {
        self.rx_offset
    }

    pub fn irq(&self) -> (res: u8)
        ensures
            res == self@.irq,
    {
        self.irq
    }

    /// Sends a frame of `len` bytes at physical address `addr` through the
    /// card at `ioaddr`: frames over 1792 bytes are refused; the current
    /// descriptor's status (read through `read32`) must show it free (bit
    /// 13), else the descriptor is busy; then the address and the length go
    /// to the descriptor's registers (through `write32`) and the next
    /// descriptor, round-robin over four, becomes current.
    pub fn transmit_packet<R: Fn(u16) -> u32, W: Fn(u16, u32)>(
        &mut self,
        ioaddr: u16,
        addr: u32,
        len: usize,
        read32: &R,
        write32: &W,
    ) -> (res: Result<(), PacketError>)
        requires
            old(self).wf(),
            len <= MAX_TX_LEN ==> ioaddr + 0x2C <= u16::MAX,
            forall|p: u16| read32.requires((p,)),
            forall|p: u16, v: u32| write32.requires((p, v)),
        ensures
            final(self).wf(),
            len > MAX_TX_LEN ==> res == Err::<(), PacketError>(PacketError::TooLong) && final(self)@ == old(self)@,
            len <= MAX_TX_LEN ==> exists|status: u32|
                read32.ensures(((ioaddr + 0x10 + 4 * old(self)@.tx_current) as u16,), status) && if status & 0x2000 == 0 {
                    res == Err::<(), PacketError>(PacketError::TXDescBusy) && final(self)@ == old(self)@
                } else {
                    res == Ok::<(), PacketError>(()) && final(self)@ == (RtlView {
                        tx_current: ((old(self)@.tx_current + 1) % 4) as u8,
                        ..old(self)@
                    }) && write32.ensures(((ioaddr + 0x20 + 4 * old(self)@.tx_current) as u16, addr), ())
                        && write32.ensures(((ioaddr + 0x10 + 4 * old(self)@.tx_current) as u16, len as u32), ())
                },
    {
        if len > MAX_TX_LEN {
            return Err(PacketError::TooLong);
        }
        let desc = self.tx_current as u16;
        let tsd_offset = 0x10 + desc * 4;
        let status = read32(ioaddr + tsd_offset);
        if status & 0x2000 == 0 {
            return Err(PacketError::TXDescBusy);
        }
        let tsad_offset = 0x20 + desc * 4;
        write32(ioaddr + tsad_offset, addr);
        write32(ioaddr + tsd_offset, len as u32);
        self.tx_current = (self.tx_current + 1) % 4;
        Ok(())
    }

    /// The value for the card's read-pointer register: 16 bytes before the
    /// current ring offset, wrapping to the end of the ring at 0.
    pub fn read_pointer(&self) -> (res: u16)
        requires
            !(0 < self@.rx_offset < 16),
        ensures
            res == (if self@.rx_offset == 0 {
                (RX_RING_SIZE - 16) as u16
            } else {
                (self@.rx_offset - 16) as u16
            }),
    {
        if self.rx_offset == 0 {
            RX_RING_SIZE - 0x10
        } else {
            self.rx_offset - 0x10
        }
    }

    /// Takes the next frame from the receive ring `rx` (the buffer the card
    /// fills), given the card's command register `cmd`: an empty ring (bit
    /// 0 of `cmd`) gives nothing; a frame whose header status lacks the
    /// receive-OK bit is skipped; otherwise the frame's data (its length
    /// less the 4-byte CRC) is returned. Either way the ring offset moves
    /// past the frame, and back to 0 when it reaches the end of the ring
    /// after a good frame. The caller then writes `read_pointer` to the
    /// card.
    pub fn receive_packet<'a>(&mut self, cmd: u8, rx: &'a [u8]) -> (res: Result<&'a [u8], PacketError>)
        requires
            old(self).wf(),
            cmd & 1 == 0 ==> ({
                let off = old(self)@.rx_offset as int;
                let length = le16(rx@, off + 2);
                &&& off + 4 <= rx@.len()
                &&& off + length + 7 <= u16::MAX
                &&& le16(rx@, off) % 2 == 1 ==> 4 <= length && off + length <= rx@.len()
            }),
        ensures
            final(self).wf(),
            final(self)@.mac == old(self)@.mac,
            final(self)@.tx_current == old(self)@.tx_current,
            final(self)@.ioaddr == old(self)@.ioaddr,
            final(self)@.irq == old(self)@.irq,
            cmd & 1 != 0 ==> res == Err::<&'a [u8], PacketError>(PacketError::BufferEmpty) && final(self)@ == old(self)@,
            cmd & 1 == 0 ==> ({
                let off = old(self)@.rx_offset as int;
                let status = le16(rx@, off);
                let length = le16(rx@, off + 2);
                let next = next_offset(off as u16, length as u16);
                if status % 2 == 0 {
                    res == Err::<&'a [u8], PacketError>(PacketError::BadPacket) && final(self)@.rx_offset == next
                } else {
                    &&& res matches Ok(p) && p@ == rx@.subrange(off + 4, off + length)
                    &&& final(self)@.rx_offset == if next >= RX_RING_SIZE { 0 } else { next }
                }
            }),
    {
        if cmd & 1 != 0 {
            return Err(PacketError::BufferEmpty);
        }
        let off = self.rx_offset as usize;
        let status = read_le16(rx, off);
        let length = read_le16(rx, off + 2);
        if status % 2 == 0 {
            self.rx_offset = (self.rx_offset + length + 4 + 3) & !3u16;
            return Err(PacketError::BadPacket);
        }
        let start = off + 4;
        let packet_length = (length - 4) as usize;
        let packet = vstd::slice::slice_subrange(rx, start, start + packet_length);
        self.rx_offset = (self.rx_offset + length + 4 + 3) & !3u16;
        if self.rx_offset >= RX_RING_SIZE {
            self.rx_offset = 0;
        }
        Ok(packet)
    }
}

/// What an interrupt status says to do: drain the receive ring (bit 0) and
/// report a receive error (bit 1); the status is acknowledged by writing it
/// back.
pub fn interrupt_work(isr: u16) -> (res: (bool, bool))
    ensures
        res == (isr & 1 != 0, isr & 2 != 0),
{
    (isr & 1 != 0, isr & 2 != 0)
}

} // verus!
