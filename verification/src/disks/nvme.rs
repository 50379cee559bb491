//! NVMe controller bookkeeping: recognising controllers, checking the size
//! of their register window, command identifiers, completion status and
//! namespace block formats.
use crate::pci::PCIDevice;
use vstd::arithmetic::power2::pow2;
use vstd::prelude::*;

verus! {

pub const NVME_PCI_CLASS: u32 = 0x01;

pub const NVME_PCI_SUBCLASS: u32 = 0x08;

pub const NVME_SC_SUCCESS: u16 = 0x00;

#[derive(Debug, PartialEq, Eq, Structural, Clone, Copy)]
pub enum NVMeError {
    NotFound,
    InitFailed,
    Timeout,
    InvalidParam,
    NoMemory,
    DeviceError,
    NotReady,
    CommandFailed,
    NotInitialized,
}

pub type NVMeResult<T> = Result<T, NVMeError>;

/// The error whose number is `n` (numbered from 1, in declaration order).
pub open spec fn nvme_error_from_number(n: int) -> Option<NVMeError> {
    if n == 1 {
        Some(NVMeError::NotFound)
    } else if n == 2 {
        Some(NVMeError::InitFailed)
    } else if n == 3 {
        Some(NVMeError::Timeout)
    } else if n == 4 {
        Some(NVMeError::InvalidParam)
    } else if n == 5 {
        Some(NVMeError::NoMemory)
    } else if n == 6 {
        Some(NVMeError::DeviceError)
    } else if n == 7 {
        Some(NVMeError::NotReady)
    } else if n == 8 {
        Some(NVMeError::CommandFailed)
    } else if n == 9 {
        Some(NVMeError::NotInitialized)
    } else {
        None
    }
}

impl NVMeError {
    /// The error with number `n` (1 to 9), if any.
    pub fn from_repr(n: usize) -> (res: Option<NVMeError>)
        ensures
            res == nvme_error_from_number(n as int),
    {
        match n {
            1 => Some(NVMeError::NotFound),
            2 => Some(NVMeError::InitFailed),
            3 => Some(NVMeError::Timeout),
            4 => Some(NVMeError::InvalidParam),
            5 => Some(NVMeError::NoMemory),
            6 => Some(NVMeError::DeviceError),
            7 => Some(NVMeError::NotReady),
            8 => Some(NVMeError::CommandFailed),
            9 => Some(NVMeError::NotInitialized),
            _ => None,
        }
    }
}

#[derive(Debug, PartialEq, Eq, Structural, Clone, Copy)]
pub enum ProbeError {
    UnmappedBar0,
    Bar0SizeZero,
    InvalidBar0Size,
    CouldntMapBar0,
}

/// Whether a PCI device is an NVMe controller (mass storage, NVM subclass).
pub fn is_nvme(dev: &PCIDevice) -> (res: bool)
    ensures
        res == (dev.class_code == NVME_PCI_CLASS && dev.subclass == NVME_PCI_SUBCLASS),
{
    dev.class_code == NVME_PCI_CLASS && dev.subclass == NVME_PCI_SUBCLASS
}

/// Checks the size of the controller's register window: it must be a
/// non-zero power of two of at most 2^48 bytes; sizes under a page are
/// rounded up to one page.
pub fn check_bar_sz(sz: u64) -> (res: Result<u64, ProbeError>)
    ensures
        sz == 0 ==> res == Err::<u64, ProbeError>(ProbeError::Bar0SizeZero),
        sz != 0 && sz & ((sz - 1) as u64) != 0 ==> res == Err::<u64, ProbeError>(
            ProbeError::InvalidBar0Size,
        ),
        sz != 0 && sz & ((sz - 1) as u64) == 0 && sz < 0x1000 ==> res == Ok::<u64, ProbeError>(
            0x1000,
        ),
        sz != 0 && sz & ((sz - 1) as u64) == 0 && 0x1000 <= sz <= 0x1_0000_0000_0000 ==> res
            == Ok::<u64, ProbeError>(sz),
        sz != 0 && sz & ((sz - 1) as u64) == 0 && sz > 0x1_0000_0000_0000 ==> res == Err::<
            u64,
            ProbeError,
        >(ProbeError::InvalidBar0Size),
{
    if sz == 0 {
        return Err(ProbeError::Bar0SizeZero);
    }
    if sz & (sz - 1) != 0 {
        return Err(ProbeError::InvalidBar0Size);
    }
    if sz < 0x1000 {
        return Ok(0x1000);
    }
    assert(1u64 << 48 == 0x1_0000_0000_0000) by (bit_vector);
    if sz > (1 << 48) {
        return Err(ProbeError::InvalidBar0Size);
    }
    Ok(sz)
}

/// A completion queue entry.
#[derive(Clone, Copy)]
pub struct NVMeCompletion {
    pub result: u32,
    pub rsv0: u32,
    pub sq_head: u16,
    pub sq_id: u16,
    pub cmd_id: u16,
    pub stat: u16,
}

/// Status code (bits 1-8) and status code type (bits 9-11) of a completion.
pub open spec fn status_code(stat: u16) -> u16 {
    (stat >> 1) & 0xFF
}

pub open spec fn status_type(stat: u16) -> u16 {
    (stat >> 9) & 0x7
}

/// A completion succeeded when its status code is zero; otherwise the status
/// code type names the error. A failed completion must carry a non-zero
/// type (there is no error numbered zero).
pub fn is_completion_successful(completion: &NVMeCompletion) -> (res: NVMeResult<()>)
    requires
        status_code(completion.stat) != NVME_SC_SUCCESS ==> status_type(completion.stat) != 0,
    ensures
        status_code(completion.stat) == NVME_SC_SUCCESS ==> res is Ok,
        status_code(completion.stat) != NVME_SC_SUCCESS ==> res is Err && Some(res->Err_0)
            == nvme_error_from_number(status_type(completion.stat) as int),
{
    let code = (completion.stat >> 1) & 0xFF;
    let typ = (completion.stat >> 9) & 0x7;
    if code == NVME_SC_SUCCESS {
        Ok(())
    } else {
        let t = completion.stat;
        assert((t >> 9) & 0x7 <= 7) by (bit_vector);
        match NVMeError::from_repr(typ as usize) {
            Some(e) => Err(e),
            None => {
                assert(false);
                Err(NVMeError::DeviceError)
            },
        }
    }
}

/// One LBA format of a namespace.
#[derive(Clone, Copy)]
pub struct Lbaf {
    pub ms: u16,
    pub lbads: u8,
    pub rp: u8,
}

/// The parts of the namespace identification data that the driver reads.
#[derive(Clone, Copy)]
pub struct NVMeIDNs {
    pub nssz: u64,
    pub nscap: u64,
    pub nsuse: u64,
    pub nlbaf: u8,
    pub flbasz: u8,
    pub lbaf: [Lbaf; 16],
}

pub struct NVMeNamespace {
    pub nsid: u32,
    pub sz: u64,
    pub lba_sz: u32,
    pub lba_shift: u16,
    pub valid: bool,
    pub ns_data: NVMeIDNs,
}

/// The index of the LBA format in use (low four bits of `flbasz`).
pub open spec fn lba_format_index(d: NVMeIDNs) -> u8 {
    d.flbasz & 0xF
}

/// Sets the block size of a namespace from its active LBA format (a power of
/// two given by its exponent `lbads`), falling back to 512-byte blocks when
/// the format index is out of range. The exponent must be below 32.
pub fn parse_lba_fmt(ns: &mut NVMeNamespace) -> (res: NVMeResult<()>)
    requires
        lba_format_index(old(ns).ns_data) < old(ns).ns_data.nlbaf ==> old(ns).ns_data.lbaf[
            lba_format_index(old(ns).ns_data) as int].lbads < 32,
    ensures
        res is Ok,
        final(ns).nsid == old(ns).nsid,
        final(ns).sz == old(ns).sz,
        final(ns).valid == old(ns).valid,
        final(ns).ns_data == old(ns).ns_data,
        ({
            let d = old(ns).ns_data;
            let i = lba_format_index(d);
            if i < d.nlbaf {
                &&& final(ns).lba_shift == d.lbaf[i as int].lbads
                &&& final(ns).lba_sz == pow2(d.lbaf[i as int].lbads as nat)
            } else {
                &&& final(ns).lba_sz == 512
                &&& final(ns).lba_shift == 9
            }
        }),
{
    let lba_fmt = ns.ns_data.flbasz & 0xF;
    let ghost f = ns.ns_data.flbasz;
    assert(f & 0xF < 16) by (bit_vector);
    if lba_fmt < ns.ns_data.nlbaf {
        let lbads = ns.ns_data.lbaf[lba_fmt as usize].lbads;
        proof {
            vstd::bits::lemma_u32_pow2_no_overflow(lbads as nat);
            vstd::bits::lemma_u32_shl_is_mul(1, lbads as u32);
        }
        ns.lba_sz = 1u32 << lbads;
        ns.lba_shift = 0;
        let mut sz = ns.lba_sz;
        while sz > 1
            invariant
                ns.lba_shift <= lbads < 32,
                sz == pow2((lbads - ns.lba_shift) as nat),
                ns.nsid == old(ns).nsid,
                ns.sz == old(ns).sz,
                ns.valid == old(ns).valid,
                ns.ns_data == old(ns).ns_data,
                ns.lba_sz == pow2(lbads as nat),
            decreases sz,
        {
            proof {
                vstd::arithmetic::power2::lemma2_to64();
                assert(lbads - ns.lba_shift > 0);
                vstd::arithmetic::power2::lemma_pow2_unfold((lbads - ns.lba_shift) as nat);
                vstd::bits::lemma_u32_shr_is_div(sz, 1);
            }
            sz >>= 1;
            ns.lba_shift += 1;
        }
        proof {
            vstd::arithmetic::power2::lemma2_to64();
            if ns.lba_shift < lbads {
                vstd::arithmetic::power2::lemma_pow2_unfold((lbads - ns.lba_shift) as nat);
                vstd::arithmetic::power2::lemma_pow2_pos((lbads - ns.lba_shift - 1) as nat);
            }
        }
    } else {
        ns.lba_sz = 512;
        ns.lba_shift = 9;
    }
    Ok(())
}

/// The driver-side state of a controller that command submission reads.
pub struct NVMeController {
    pub pci_dev: PCIDevice,
    pub stride: u32,
    pub page_sz: u32,
    pub max_queue_entries: u16,
    pub num_io_queues: u16,
    pub enabled: bool,
    pub active_namespaces: u32,
    pub next_cmd_id: u16,
}

/// Hands out the next command identifier (counting up from the last one).
pub fn get_next_cmd_id(controller: &mut NVMeController) -> (res: NVMeResult<u16>)
    requires
        old(controller).next_cmd_id < u16::MAX,
    ensures
        res == Ok::<u16, NVMeError>((old(controller).next_cmd_id + 1) as u16),
        final(controller).next_cmd_id == old(controller).next_cmd_id + 1,
        final(controller).pci_dev == old(controller).pci_dev,
        final(controller).active_namespaces == old(controller).active_namespaces,
{
    controller.next_cmd_id += 1;
    let cmd_id = controller.next_cmd_id;
    if controller.next_cmd_id == 0 {
        controller.next_cmd_id = 1;
    }
    Ok(cmd_id)
}

/// Each namespace's block size is two to the power of its recorded shift.
pub proof fn lemma_lba_size_matches_shift(old_ns: NVMeNamespace, new_ns: NVMeNamespace)
    requires
        ({
            let d = old_ns.ns_data;
            let i = lba_format_index(d);
            if i < d.nlbaf {
                &&& new_ns.lba_shift == d.lbaf[i as int].lbads
                &&& new_ns.lba_sz == pow2(d.lbaf[i as int].lbads as nat)
            } else {
                &&& new_ns.lba_sz == 512
                &&& new_ns.lba_shift == 9
            }
        }),
    ensures
        new_ns.lba_sz == pow2(new_ns.lba_shift as nat),
{
    vstd::arithmetic::power2::lemma2_to64();
}

pub const NVME_IO_WRITE: u8 = 0x01;
pub const NVME_IO_READ: u8 = 0x02;

/// The submission-queue tail after one more command: the next slot, back to
/// 0 at the end of the queue.
pub open spec fn next_tail(tail: u16, depth: u16) -> u16 {
    if tail + 1 >= depth {
        0
    } else {
        (tail + 1) as u16
    }
}

/// Moves a submission-queue tail past the command just placed.
pub fn advance_sq_tail(tail: u16, depth: u16) -> (res: u16)
    requires
        tail < u16::MAX,
    ensures
        res == next_tail(tail, depth),
{
    let new_tail = tail + 1;
    if new_tail >= depth {
        0
    } else {
        new_tail
    }
}

/// The completion-queue head and phase after consuming one entry: the next
/// slot, and at the end of the queue back to 0 with the phase flipped.
pub open spec fn next_head(head: u16, phase: u8, depth: u16) -> (u16, u8) {
    if head + 1 >= depth {
        (0, phase ^ 1u8)
    } else {
        ((head + 1) as u16, phase)
    }
}

/// Moves a completion-queue head past the entry just consumed.
pub fn advance_cq_head(head: u16, phase: u8, depth: u16) -> (res: (u16, u8))
    requires
        head < u16::MAX,
    ensures
        res == next_head(head, phase, depth),
{
    let new_head = head + 1;
    if new_head >= depth {
        (0, phase ^ 1)
    } else {
        (new_head, phase)
    }
}

/// The head and phase after consuming `n` entries.
pub open spec fn heads_after(head: u16, phase: u8, depth: u16, n: nat) -> (u16, u8)
    decreases n,
{
    if n == 0 {
        (head, phase)
    } else {
        let (h, p) = heads_after(head, phase, depth, (n - 1) as nat);
        next_head(h, p, depth)
    }
}

proof fn lemma_heads_walk(head: u16, phase: u8, depth: u16, k: nat)
    requires
        head < depth,
        head + k < depth,
    ensures
        heads_after(head, phase, depth, k) == ((head + k) as u16, phase),
    decreases k,
{
    if k > 0 {
        lemma_heads_walk(head, phase, depth, (k - 1) as nat);
    }
}

proof fn lemma_heads_from_zero(phase: u8, depth: u16, head: u16, k: nat)
    requires
        k <= head < depth,
        heads_after(0, phase, depth, 0) == (0u16, phase),
    ensures
        heads_after(0, phase, depth, k) == (k as u16, phase),
    decreases k,
{
    if k > 0 {
        lemma_heads_from_zero(phase, depth, head, (k - 1) as nat);
    }
}

proof fn lemma_heads_split(head: u16, phase: u8, depth: u16, a: nat, b: nat)
    ensures
        heads_after(head, phase, depth, a + b) == heads_after(
            heads_after(head, phase, depth, a).0,
            heads_after(head, phase, depth, a).1,
            depth,
            b,
        ),
    decreases b,
{
    if b > 0 {
        lemma_heads_split(head, phase, depth, a, (b - 1) as nat);
        assert((a + b - 1) as nat == a + (b - 1) as nat);
    }
}

/// Law: consuming a whole queue's worth of entries brings the completion
/// head back to where it started, with the phase flipped, so entries left
/// from the previous pass never match the expected phase.
pub proof fn lemma_full_pass_flips_phase(head: u16, phase: u8, depth: u16)
    requires
        head < depth,
    ensures
        heads_after(head, phase, depth, depth as nat) == (head, phase ^ 1u8),
{
    let k: nat = (depth - 1 - head) as nat;
    lemma_heads_walk(head, phase, depth, k);
    assert(heads_after(head, phase, depth, k + 1) == (0u16, phase ^ 1u8));
    lemma_heads_split(head, phase, depth, k + 1, head as nat);
    lemma_heads_from_zero(phase ^ 1u8, depth, head, head as nat);
    assert((k + 1 + head) as nat == depth as nat);
}

/// Whether a completion entry is the one awaited: its phase bit matches
/// the queue's phase and it carries the command's identifier.
pub fn completion_matches(stat: u16, entry_cmd_id: u16, phase: u8, cmd_id: u16) -> (res: bool)
    ensures
        res == ((stat & 1) == phase as u16 && entry_cmd_id == cmd_id),
{
    (stat & 1) == phase as u16 && entry_cmd_id == cmd_id
}

/// An I/O command as the submission queue holds it.
#[derive(Clone, Copy)]
pub struct NVMeCommand {
    pub opcode: u8,
    pub flags: u8,
    pub command_id: u16,
    pub nsid: u32,
    pub rsv0: u64,
    pub meta: u64,
    pub prp1: u64,
    pub prp2: u64,
    pub cdw10: u32,
    pub cdw11: u32,
    pub cdw12: u32,
    pub cdw13: u32,
    pub cdw14: u32,
    pub cdw15: u32,
}

/// A read (`write` false) or write of `num_blocks` blocks at `lba` on
/// namespace `nsid`: the LBA split over command dwords 10 and 11, the block
/// count less one in dword 12, everything else zero.
pub fn rw_command(write: bool, nsid: u32, lba: u64, num_blocks: u32) -> (res: NVMeCommand)
    requires
        num_blocks >= 1,
    ensures
        res.opcode == (if write { NVME_IO_WRITE } else { NVME_IO_READ }),
        res.nsid == nsid,
        res.cdw10 == lba % 0x1_0000_0000,
        res.cdw11 == lba / 0x1_0000_0000,
        res.cdw12 == num_blocks - 1,
        res.flags == 0 && res.command_id == 0 && res.rsv0 == 0 && res.meta == 0 && res.prp1 == 0
            && res.prp2 == 0 && res.cdw13 == 0 && res.cdw14 == 0 && res.cdw15 == 0,
{
    NVMeCommand {
        opcode: if write {
            NVME_IO_WRITE
        } else {
            NVME_IO_READ
        },
        flags: 0,
        command_id: 0,
        nsid,
        rsv0: 0,
        meta: 0,
        prp1: 0,
        prp2: 0,
        cdw10: (lba % 0x1_0000_0000) as u32,
        cdw11: (lba / 0x1_0000_0000) as u32,
        cdw12: num_blocks - 1,
        cdw13: 0,
        cdw14: 0,
        cdw15: 0,
    }
}

/// How many memory pages a transfer of `num_blocks` blocks of `lba_sz`
/// bytes spans, at `page_sz` bytes a page (rounded up). One page needs no
/// second PRP entry, two use the second entry directly, more need a list.
pub fn transfer_pages(num_blocks: u32, lba_sz: u32, page_sz: u32) -> (res: u32)
    requires
        page_sz > 0,
        num_blocks * lba_sz + page_sz <= u32::MAX,
    ensures
        res == (num_blocks * lba_sz + page_sz - 1) / (page_sz as int),
{
    assert(num_blocks * lba_sz <= u32::MAX) by (nonlinear_arith)
        requires
            num_blocks * lba_sz + page_sz <= u32::MAX,
            page_sz > 0,
    ;
    (num_blocks * lba_sz + page_sz - 1) / page_sz
}

} // verus!
