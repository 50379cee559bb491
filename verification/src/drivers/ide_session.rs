//! The IDE driver's transfers as scripts of channel operations: an ATA PIO
//! access, an ATAPI read and an ATAPI eject each become a fixed list of
//! register writes, waits, polls and data moves. A session hands the steps
//! out one at a time; the reply to a poll (or to a cache-flush wait) can
//! end the transfer early with a result code, as the driver does. The
//! caller performs each step on the hardware and reports back.
use crate::drivers::ide::{
    atapi_eject_packet, atapi_read_packet, plan_ata_access, plan_matches, read_packet_spec,
    rw_port, rw_port_spec, AtaPlan, ATAPI_CMD_EJECT, ATA_CMD_CACHE_FLUSH, ATA_CMD_CACHE_FLUSH_EXT,
};
use vstd::prelude::*;

verus! {

pub const ATA_REG_DATA: u8 = 0x00;
pub const ATA_REG_ERROR: u8 = 0x01;
pub const ATA_REG_FEATURES: u8 = 0x01;
pub const ATA_REG_SECCOUNT0: u8 = 0x02;
pub const ATA_REG_LBA0: u8 = 0x03;
pub const ATA_REG_LBA1: u8 = 0x04;
pub const ATA_REG_LBA2: u8 = 0x05;
pub const ATA_REG_HDDEVSEL: u8 = 0x06;
pub const ATA_REG_COMMAND: u8 = 0x07;
pub const ATA_REG_STATUS: u8 = 0x07;
pub const ATA_REG_SECCOUNT1: u8 = 0x08;
pub const ATA_REG_LBA3: u8 = 0x09;
pub const ATA_REG_LBA4: u8 = 0x0A;
pub const ATA_REG_LBA5: u8 = 0x0B;
pub const ATA_REG_CONTROL: u8 = 0x0C;
pub const ATA_REG_ALTSTATUS: u8 = 0x0C;
pub const ATA_CMD_PACKET: u8 = 0xA0;

/// What a poll's result does to the transfer.
#[derive(Debug, Clone, Copy, PartialEq, Eq, Structural)]
pub enum PollRule {
    /// The result is not looked at.
    Continue,
    /// A result of 0 ends the transfer with 0.
    EndIfZero,
    /// A nonzero result ends the transfer with that result.
    EndIfError,
    /// The transfer ends with the result, 3 (nothing to read) counting as 0.
    EndWithResult,
}

/// One operation on an IDE channel.
#[derive(Debug, Clone, Copy, PartialEq, Eq, Structural)]
pub enum IdeAction {
    /// Set the channel's interrupt-disable value and write it to the
    /// control register.
    SetNien { nien: u8 },
    /// Write `val` to register `reg` (with the high-order-byte bit set in
    /// the control register around writes to the LBA48 bank).
    Write { reg: u8, val: u8 },
    /// Read the alternate status register four times.
    Delay,
    /// Read the status register until it is no longer busy.
    WaitNotBusy,
    /// Read the status register until it is neither busy nor requesting
    /// data.
    WaitIdle,
    /// Poll the channel: the delay, the wait for not-busy, and with
    /// `advanced` the status check; the reply is the poll's result.
    Poll { advanced: bool, rule: PollRule },
    /// Send the session's 12-byte packet through the data register.
    SendPacket,
    /// Wait for the channel's interrupt.
    WaitIrq,
    /// Move `words` 16-bit words from the data register into the `index`th
    /// part (of that many words) of the buffer.
    ReadData { index: u8, words: u16 },
    /// Move `words` 16-bit words of the `index`th part of the buffer out
    /// through the data register.
    WriteData { index: u8, words: u16 },
    /// Read the status register until it is not busy, at most 100000
    /// times; the reply is 1 if it cleared in time, else 0.
    WaitFlush,
    /// The transfer is over with this result code.
    Finish { code: u8 },
}

/// The code a step's reply ends the transfer with, if it does.
pub open spec fn stop_code(a: IdeAction, reply: u8) -> Option<u8> {
    match a {
        IdeAction::Poll { rule, .. } => match rule {
            PollRule::Continue => None,
            PollRule::EndIfZero => if reply == 0 {
                Some(0u8)
            } else {
                None
            },
            PollRule::EndIfError => if reply != 0 {
                Some(reply)
            } else {
                None
            },
            PollRule::EndWithResult => Some(
                if reply == 3 {
                    0u8
                } else {
                    reply
                },
            ),
        },
        IdeAction::WaitFlush => if reply == 0 {
            Some(255u8)
        } else {
            None
        },
        IdeAction::Finish { code } => Some(code),
        _ => None,
    }
}

fn stop_code_exec(a: IdeAction, reply: u8) -> (res: Option<u8>)
    ensures
        res == stop_code(a, reply),
{
    match a {
        IdeAction::Poll { rule, .. } => match rule {
            PollRule::Continue => None,
            PollRule::EndIfZero => if reply == 0 {
                Some(0)
            } else {
                None
            },
            PollRule::EndIfError => if reply != 0 {
                Some(reply)
            } else {
                None
            },
            PollRule::EndWithResult => Some(
                if reply == 3 {
                    0
                } else {
                    reply
                },
            ),
        },
        IdeAction::WaitFlush => if reply == 0 {
            Some(255)
        } else {
            None
        },
        IdeAction::Finish { code } => Some(code),
        _ => None,
    }
}

/// The register programming of an ATA access: interrupts off (control 2),
/// wait for the drive, select it, the LBA48 high bytes when needed, the
/// count and low address bytes, then the command.
pub open spec fn ata_setup(p: AtaPlan, numsects: u8) -> Seq<IdeAction> {
    seq![
        IdeAction::SetNien { nien: 2 },
        IdeAction::WaitNotBusy,
        IdeAction::Write { reg: ATA_REG_HDDEVSEL, val: p.hddevsel },
    ] + (if p.lba_mode == 2 {
        seq![
            IdeAction::Write { reg: ATA_REG_SECCOUNT1, val: 0 },
            IdeAction::Write { reg: ATA_REG_LBA3, val: p.lba_io@[3] },
            IdeAction::Write { reg: ATA_REG_LBA4, val: p.lba_io@[4] },
            IdeAction::Write { reg: ATA_REG_LBA5, val: p.lba_io@[5] },
        ]
    } else {
        Seq::empty()
    }) + seq![
        IdeAction::Write { reg: ATA_REG_SECCOUNT0, val: numsects },
        IdeAction::Write { reg: ATA_REG_LBA0, val: p.lba_io@[0] },
        IdeAction::Write { reg: ATA_REG_LBA1, val: p.lba_io@[1] },
        IdeAction::Write { reg: ATA_REG_LBA2, val: p.lba_io@[2] },
        IdeAction::Write { reg: ATA_REG_COMMAND, val: p.cmd },
    ]
}

/// The per-sector part of an ATA PIO read: a poll with the status check,
/// where a result of 0 ends the access with 0, then 256 words in.
pub open spec fn ata_read_sectors(n: nat) -> Seq<IdeAction>
    decreases n,
{
    if n == 0 {
        Seq::empty()
    } else {
        ata_read_sectors((n - 1) as nat) + seq![
            IdeAction::Poll { advanced: true, rule: PollRule::EndIfZero },
            IdeAction::ReadData { index: (n - 1) as u8, words: 256 },
        ]
    }
}

/// The per-sector part of an ATA PIO write: a plain poll, then 256 words
/// out.
pub open spec fn ata_write_sectors(n: nat) -> Seq<IdeAction>
    decreases n,
{
    if n == 0 {
        Seq::empty()
    } else {
        ata_write_sectors((n - 1) as nat) + seq![
            IdeAction::Poll { advanced: false, rule: PollRule::Continue },
            IdeAction::WriteData { index: (n - 1) as u8, words: 256 },
        ]
    }
}

/// The whole ATA access for a plan: direction 0 reads, any other writes
/// and then flushes the drive's cache (a flush that does not finish in
/// time ends the access with 255) and polls once more.
pub open spec fn ata_script(direction: u8, p: AtaPlan, numsects: u8) -> Seq<IdeAction> {
    ata_setup(p, numsects) + if direction == 0 {
        ata_read_sectors(numsects as nat) + seq![IdeAction::Finish { code: 0 }]
    } else {
        ata_write_sectors(numsects as nat) + seq![
            IdeAction::Write {
                reg: ATA_REG_COMMAND,
                val: if p.lba_mode == 2 {
                    ATA_CMD_CACHE_FLUSH_EXT
                } else {
                    ATA_CMD_CACHE_FLUSH
                },
            },
            IdeAction::WaitFlush,
            IdeAction::Poll { advanced: false, rule: PollRule::Continue },
            IdeAction::Finish { code: 0 },
        ]
    }
}

/// The per-sector part of an ATAPI read: wait for the interrupt, a poll
/// with the status check whose error ends the read, then 1024 words in.
pub open spec fn atapi_read_sectors(n: nat) -> Seq<IdeAction>
    decreases n,
{
    if n == 0 {
        Seq::empty()
    } else {
        atapi_read_sectors((n - 1) as nat) + seq![
            IdeAction::WaitIrq,
            IdeAction::Poll { advanced: true, rule: PollRule::EndIfError },
            IdeAction::ReadData { index: (n - 1) as u8, words: 1024 },
        ]
    }
}

/// An ATAPI read on the drive `childbit` of a channel: interrupts on,
/// select, a delay, PIO mode with 2048-byte transfers, the PACKET command,
/// a poll, the packet, the sectors, then a wait for the drive to go idle.
pub open spec fn atapi_read_script(childbit: u8, numsects: u8) -> Seq<IdeAction> {
    seq![
        IdeAction::SetNien { nien: 0 },
        IdeAction::Write { reg: ATA_REG_HDDEVSEL, val: childbit << 4u8 },
        IdeAction::Delay,
        IdeAction::Write { reg: ATA_REG_FEATURES, val: 0 },
        IdeAction::Write { reg: ATA_REG_LBA1, val: 0 },
        IdeAction::Write { reg: ATA_REG_LBA2, val: 8 },
        IdeAction::Write { reg: ATA_REG_COMMAND, val: ATA_CMD_PACKET },
        IdeAction::Poll { advanced: true, rule: PollRule::EndIfError },
        IdeAction::SendPacket,
    ] + atapi_read_sectors(numsects as nat) + seq![
        IdeAction::WaitIrq,
        IdeAction::WaitIdle,
        IdeAction::Finish { code: 0 },
    ]
}

/// An ATAPI eject: select, a delay, the PACKET command, a poll, the eject
/// packet, the interrupt, and a last poll whose result ends it.
pub open spec fn atapi_eject_script(childbit: u8) -> Seq<IdeAction> {
    seq![
        IdeAction::SetNien { nien: 0 },
        IdeAction::Write { reg: ATA_REG_HDDEVSEL, val: childbit << 4u8 },
        IdeAction::Delay,
        IdeAction::Write { reg: ATA_REG_COMMAND, val: ATA_CMD_PACKET },
        IdeAction::Poll { advanced: true, rule: PollRule::EndIfError },
        IdeAction::SendPacket,
        IdeAction::WaitIrq,
        IdeAction::Poll { advanced: true, rule: PollRule::EndWithResult },
        IdeAction::Finish { code: 0 },
    ]
}

/// A transfer in progress.
pub struct IdeSession {
    script: Vec<IdeAction>,
    pos: usize,
    done: Option<u8>,
    packet: [u8; 12],
}

/// The steps of a session, how many were handed out, its result once it
/// ended, and its packet.
pub struct IdeSessionView {
    pub script: Seq<IdeAction>,
    pub pos: nat,
    pub done: Option<u8>,
    pub packet: Seq<u8>,
}

impl View for IdeSession {
    type V = IdeSessionView;

    closed spec fn view(&self) -> IdeSessionView {
        IdeSessionView { script: self.script@, pos: self.pos as nat, done: self.done, packet: self.packet@ }
    }
}

/// What the session hands out next for a reply to the previous step, and
/// its result afterwards: the result again once it has ended; the end
/// when the previous step's reply calls for it (or the script is
/// exhausted); else the next step.
pub open spec fn session_step(v: IdeSessionView, reply: u8) -> (IdeAction, Option<u8>) {
    match v.done {
        Some(c) => (IdeAction::Finish { code: c }, Some(c)),
        None => {
            let stop = if v.pos == 0 {
                None
            } else {
                stop_code(v.script[v.pos - 1], reply)
            };
            match stop {
                Some(c) => (IdeAction::Finish { code: c }, Some(c)),
                None => if v.pos < v.script.len() {
                    (v.script[v.pos as int], None)
                } else {
                    (IdeAction::Finish { code: 0 }, Some(0u8))
                },
            }
        },
    }
}

impl IdeSession {
    pub closed spec fn wf(&self) -> bool {
        self.pos <= self.script@.len()
    }

    /// The steps of an ATA PIO access to `numsects` sectors at `lba` of the
    /// drive `childbit` with the given capabilities; direction 0 reads.
    pub fn ata_access(direction: u8, capabilities: u16, childbit: u8, lba: u32, numsects: u8) -> (res: (
        IdeSession,
        AtaPlan,
    ))
        ensures
            res.0.wf(),
            plan_matches(res.1, lba, capabilities, childbit, direction, false),
            res.0@.script == ata_script(direction, res.1, numsects),
            res.0@.pos == 0,
            res.0@.done is None,
    {
        let p = plan_ata_access(lba, capabilities, childbit, direction, false);
        let mut script: Vec<IdeAction> = Vec::new();
        script.push(IdeAction::SetNien { nien: 2 });
        script.push(IdeAction::WaitNotBusy);
        script.push(IdeAction::Write { reg: ATA_REG_HDDEVSEL, val: p.hddevsel });
        if p.lba_mode == 2 {
            script.push(IdeAction::Write { reg: ATA_REG_SECCOUNT1, val: 0 });
            script.push(IdeAction::Write { reg: ATA_REG_LBA3, val: p.lba_io[3] });
            script.push(IdeAction::Write { reg: ATA_REG_LBA4, val: p.lba_io[4] });
            script.push(IdeAction::Write { reg: ATA_REG_LBA5, val: p.lba_io[5] });
        }
        script.push(IdeAction::Write { reg: ATA_REG_SECCOUNT0, val: numsects });
        script.push(IdeAction::Write { reg: ATA_REG_LBA0, val: p.lba_io[0] });
        script.push(IdeAction::Write { reg: ATA_REG_LBA1, val: p.lba_io[1] });
        script.push(IdeAction::Write { reg: ATA_REG_LBA2, val: p.lba_io[2] });
        script.push(IdeAction::Write { reg: ATA_REG_COMMAND, val: p.cmd });
        assert(script@ =~= ata_setup(p, numsects));
        let ghost setup = script@;
        let mut k: u8 = 0;
        while k < numsects
            invariant
                k <= numsects,
                script@ == setup + if direction == 0 {
                    ata_read_sectors(k as nat)
                } else {
                    ata_write_sectors(k as nat)
                },
            decreases numsects - k,
        {
            if direction == 0 {
                script.push(IdeAction::Poll { advanced: true, rule: PollRule::EndIfZero });
                script.push(IdeAction::ReadData { index: k, words: 256 });
                assert(ata_read_sectors((k + 1) as nat) == ata_read_sectors(k as nat) + seq![
                    IdeAction::Poll { advanced: true, rule: PollRule::EndIfZero },
                    IdeAction::ReadData { index: k, words: 256 },
                ]);
            } else {
                script.push(IdeAction::Poll { advanced: false, rule: PollRule::Continue });
                script.push(IdeAction::WriteData { index: k, words: 256 });
                assert(ata_write_sectors((k + 1) as nat) == ata_write_sectors(k as nat) + seq![
                    IdeAction::Poll { advanced: false, rule: PollRule::Continue },
                    IdeAction::WriteData { index: k, words: 256 },
                ]);
            }
            k = k + 1;
        }
        let ghost body = script@;
        if direction == 0 {
            script.push(IdeAction::Finish { code: 0 });
        } else {
            let flush = if p.lba_mode == 2 {
                ATA_CMD_CACHE_FLUSH_EXT
            } else {
                ATA_CMD_CACHE_FLUSH
            };
            script.push(IdeAction::Write { reg: ATA_REG_COMMAND, val: flush });
            script.push(IdeAction::WaitFlush);
            script.push(IdeAction::Poll { advanced: false, rule: PollRule::Continue });
            script.push(IdeAction::Finish { code: 0 });
        }
        assert(script@ =~= ata_script(direction, p, numsects));
        (IdeSession { script, pos: 0, done: None, packet: [0u8; 12] }, p)
    }

    /// The steps of an ATAPI read of `numsects` sectors at `lba` from the
    /// drive `childbit`, with the READ(12) packet for them.
    pub fn atapi_read(childbit: u8, lba: u32, numsects: u8) -> (res: IdeSession)
        ensures
            res.wf(),
            res@.script == atapi_read_script(childbit, numsects),
            res@.packet == read_packet_spec(lba, numsects),
            res@.pos == 0,
            res@.done is None,
    {
        let mut script: Vec<IdeAction> = Vec::new();
        script.push(IdeAction::SetNien { nien: 0 });
        script.push(IdeAction::Write { reg: ATA_REG_HDDEVSEL, val: childbit << 4u8 });
        script.push(IdeAction::Delay);
        script.push(IdeAction::Write { reg: ATA_REG_FEATURES, val: 0 });
        script.push(IdeAction::Write { reg: ATA_REG_LBA1, val: 0 });
        script.push(IdeAction::Write { reg: ATA_REG_LBA2, val: 8 });
        script.push(IdeAction::Write { reg: ATA_REG_COMMAND, val: ATA_CMD_PACKET });
        script.push(IdeAction::Poll { advanced: true, rule: PollRule::EndIfError });
        script.push(IdeAction::SendPacket);
        let ghost head = script@;
        let mut k: u8 = 0;
        while k < numsects
            invariant
                k <= numsects,
                script@ == head + atapi_read_sectors(k as nat),
            decreases numsects - k,
        {
            script.push(IdeAction::WaitIrq);
            script.push(IdeAction::Poll { advanced: true, rule: PollRule::EndIfError });
            script.push(IdeAction::ReadData { index: k, words: 1024 });
            assert(atapi_read_sectors((k + 1) as nat) == atapi_read_sectors(k as nat) + seq![
                IdeAction::WaitIrq,
                IdeAction::Poll { advanced: true, rule: PollRule::EndIfError },
                IdeAction::ReadData { index: k, words: 1024 },
            ]);
            assert(script@ =~= head + atapi_read_sectors((k + 1) as nat));
            k = k + 1;
        }
        script.push(IdeAction::WaitIrq);
        script.push(IdeAction::WaitIdle);
        script.push(IdeAction::Finish { code: 0 });
        assert(script@ =~= atapi_read_script(childbit, numsects));
        IdeSession { script, pos: 0, done: None, packet: atapi_read_packet(lba, numsects) }
    }

    /// The steps of ejecting the medium of the ATAPI drive `childbit`.
    pub fn atapi_eject(childbit: u8) -> (res: IdeSession)
        ensures
            res.wf(),
            res@.script == atapi_eject_script(childbit),
            res@.packet == seq![ATAPI_CMD_EJECT, 0u8, 0u8, 0u8, 0u8, 0u8, 0u8, 0u8, 0u8, 0u8, 0u8, 0u8],
            res@.pos == 0,
            res@.done is None,
    {
        let mut script: Vec<IdeAction> = Vec::new();
        script.push(IdeAction::SetNien { nien: 0 });
        script.push(IdeAction::Write { reg: ATA_REG_HDDEVSEL, val: childbit << 4u8 });
        script.push(IdeAction::Delay);
        script.push(IdeAction::Write { reg: ATA_REG_COMMAND, val: ATA_CMD_PACKET });
        script.push(IdeAction::Poll { advanced: true, rule: PollRule::EndIfError });
        script.push(IdeAction::SendPacket);
        script.push(IdeAction::WaitIrq);
        script.push(IdeAction::Poll { advanced: true, rule: PollRule::EndWithResult });
        script.push(IdeAction::Finish { code: 0 });
        assert(script@ =~= atapi_eject_script(childbit));
        IdeSession { script, pos: 0, done: None, packet: atapi_eject_packet() }
    }

    /// The packet the session sends.
    pub fn packet(&self) -> (res: [u8; 12])
        ensures
            res@ == self@.packet,
    {
        self.packet
    }

    /// The next step, given the reply to the previous one (ignored for the
    /// first step and for steps that take no reply).
    pub fn next(&mut self, reply: u8) -> (res: IdeAction)
        requires
            old(self).wf(),
        ensures
            final(self).wf(),
            final(self)@.script == old(self)@.script,
            final(self)@.packet == old(self)@.packet,
            (res, final(self)@.done) == session_step(old(self)@, reply),
            final(self)@.done is None ==> final(self)@.pos == old(self)@.pos + 1,
    {
        if let Some(c) = self.done {
            return IdeAction::Finish { code: c };
        }
        let stop = if self.pos == 0 {
            None
        } else {
            stop_code_exec(self.script[self.pos - 1], reply)
        };
        match stop {
            Some(c) => {
                self.done = Some(c);
                IdeAction::Finish { code: c }
            },
            None => {
                if self.pos < self.script.len() {
                    let a = self.script[self.pos];
                    self.pos = self.pos + 1;
                    a
                } else {
                    self.done = Some(0);
                    IdeAction::Finish { code: 0 }
                }
            },
        }
    }
}

/// The raw port writes of `ide_write`: for a register of the LBA48 bank the
/// control register (reached as the base's register 0x0C) gets the HOB bit
/// with `nien` before and `nien` alone after; the register itself goes to
/// its port, if it has one.
pub open spec fn write_ports_spec(base: u16, nien: u8, reg: u8, val: u8) -> Seq<(u16, u8)> {
    let ctrl = rw_port_spec(base, 0x0C)->0;
    let hob = 0x07 < reg < 0x0C;
    let own = match rw_port_spec(base, reg) {
        Some(port) => seq![(port, val)],
        None => Seq::empty(),
    };
    if hob {
        seq![(ctrl, 0x80u8 | nien)] + own + seq![(ctrl, nien)]
    } else {
        own
    }
}

pub fn write_ports(base: u16, nien: u8, reg: u8, val: u8) -> (res: Vec<(u16, u8)>)
    requires
        base + 0x15 <= u16::MAX,
    ensures
        res@ == write_ports_spec(base, nien, reg, val),
{
    let ctrl = match rw_port(base, 0x0C) {
        Some(p) => p,
        None => base,
    };
    let hob = reg > 0x07 && reg < 0x0C;
    let mut out: Vec<(u16, u8)> = Vec::new();
    if hob {
        out.push((ctrl, 0x80u8 | nien));
    }
    match rw_port(base, reg) {
        Some(p) => out.push((p, val)),
        None => {},
    }
    if hob {
        out.push((ctrl, nien));
    }
    assert(out@ =~= write_ports_spec(base, nien, reg, val));
    out
}

/// What a drive slot of the driver's table records.
#[derive(Debug, Clone, Copy)]
pub struct IdeDrive {
    pub present: bool,
    /// 0 for ATA, 1 for ATAPI.
    pub typ: u16,
    pub channel: u8,
    pub drive: u8,
    pub capabilities: u16,
    pub size: u32,
}

/// How a sector transfer request is served.
#[derive(Debug, Clone, Copy, PartialEq, Eq, Structural)]
pub enum SectorJob {
    /// Refused before any port traffic, with this code.
    Refused(u8),
    /// One ATA access, in the read direction (for writes too, as the
    /// driver does).
    AtaRead,
    /// One ATAPI read of one sector per requested sector.
    AtapiReads,
    /// Nothing is done; the result is 0.
    Nothing,
}

/// How `ide_read_sectors` and `ide_write_sectors` serve a request: drive
/// numbers above 3 and empty slots give 1, an ATA range past the drive's
/// size gives 2; then by the drive's type.
pub open spec fn sector_job_spec(drive: u8, d: IdeDrive, lba: u32, numsects: u8) -> SectorJob {
    if drive > 3 || !d.present {
        SectorJob::Refused(1)
    } else if lba + numsects > d.size && d.typ == 0 {
        SectorJob::Refused(2)
    } else if d.typ == 0 {
        SectorJob::AtaRead
    } else if d.typ == 1 {
        SectorJob::AtapiReads
    } else {
        SectorJob::Nothing
    }
}

pub fn sector_job(drive: u8, d: &IdeDrive, lba: u32, numsects: u8) -> (res: SectorJob)
    requires
        drive > 3 || !d.present || lba + numsects <= u32::MAX,
    ensures
        res == sector_job_spec(drive, *d, lba, numsects),
{
    if drive > 3 || !d.present {
        SectorJob::Refused(1)
    } else if lba + numsects as u32 > d.size && d.typ == 0 {
        SectorJob::Refused(2)
    } else if d.typ == 0 {
        SectorJob::AtaRead
    } else if d.typ == 1 {
        SectorJob::AtapiReads
    } else {
        SectorJob::Nothing
    }
}

/// How an eject request is served: 1 for drive numbers above 3 and empty
/// slots, 20 (command aborted) for an ATA drive, else the eject steps.
pub fn eject_refusal(drive: u8, d: &IdeDrive) -> (res: Option<u8>)
    ensures
        res == (if drive > 3 || !d.present {
            Some(1u8)
        } else if d.typ == 0 {
            Some(20u8)
        } else {
            None::<u8>
        }),
{
    if drive > 3 || !d.present {
        Some(1)
    } else if d.typ == 0 {
        Some(20)
    } else {
        None
    }
}

} // verus!
