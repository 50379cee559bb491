//! The second NVMe driver's decisions: what the capability register says,
//! when a ready wait ends, which namespace and block size a controller
//! reports, and the order of the bring-up, queue set-up and shutdown steps
//! with what each failure leads to. The register, memory-mapping and
//! command traffic is done by the caller, which reports each step's
//! outcome back.
use crate::disks::nvme::{rw_command, NVMeCommand, NVME_IO_READ};
use vstd::prelude::*;

verus! {

#[derive(Debug, PartialEq, Eq, Structural, Clone, Copy)]
pub enum NVMeError {
    NotFound,
    InitFailed,
    Timeout,
    InvalidParam,
    NoMemory,
    DeviceError,
    NotReady,
    CommandFailed,
    NotInitialized,
    OutOfMemory,
    NoQueue,
    RWRegError,
    NamespaceNotFound,
}

pub type NVMeResult<T> = Result<T, NVMeError>;

pub const NVME_ADMIN_QUEUE_SIZE: u16 = 64;

pub const NVME_CC_EN: u32 = 1;

pub const NVME_CC_SHN_NORMAL: u32 = 1 << 14;

pub const NVME_CSTS_RDY: u32 = 1;

pub const NVME_CSTS_CFS: u32 = 2;

/// What the driver takes from the capability register.
#[derive(Debug, Clone, Copy)]
pub struct CapParams {
    /// Maximum queue entries (the 0-based field plus one).
    pub max_queue_entries: u16,
    /// Doorbell stride: 4 shifted by the stride field.
    pub stride: u32,
    /// Minimum memory page size: 2^(12 + MPSMIN).
    pub page_size: u32,
    pub mpsmin: u8,
    /// The admin queue size: the maximum entries, at most 64.
    pub admin_queue_size: u16,
    /// The admin queue attributes value: size minus one in both halves.
    pub aqa: u32,
    /// The controller configuration value the driver composes: enable,
    /// NVM command set, entry sizes 2^6 and 2^4, and MPSMIN at bit 7.
    pub cc: u32,
}

/// The capability register's fields as the driver reads them: MQES in the
/// low 16 bits, DSTRD in bits 32 to 35, MPSMIN in bits 48 to 51, and NVM
/// command-set support at bit 37. `None` when NVM is unsupported.
pub open spec fn cap_params_spec(cap: u64) -> Option<CapParams> {
    let mqe = (cap % 0x1_0000 + 1) as u16;
    let dstrd = ((cap / 0x1_0000_0000) % 16) as u8;
    let mpsmin = ((cap / 0x1_0000_0000_0000) % 16) as u8;
    let aqs: u16 = if mqe > NVME_ADMIN_QUEUE_SIZE {
        NVME_ADMIN_QUEUE_SIZE
    } else {
        mqe
    };
    if (cap / 0x20_0000_0000) % 2 == 0 {
        None
    } else {
        Some(
            CapParams {
                max_queue_entries: mqe,
                stride: (4u32 << dstrd),
                page_size: (1u32 << ((12 + mpsmin) as u32)),
                mpsmin,
                admin_queue_size: aqs,
                aqa: ((aqs - 1) + (aqs - 1) * 0x1_0000) as u32,
                cc: (1 + 6 * 0x1_0000 + 4 * 0x10_0000 + mpsmin * 128) as u32,
            },
        )
    }
}

/// Reads the capability register: its parameters, or `InitFailed` when
/// the controller lacks the NVM command set. The entry count (MQES plus
/// one) must fit in 16 bits.
pub fn cap_params(cap: u64) -> (res: NVMeResult<CapParams>)
    requires
        cap % 0x1_0000 != 0xFFFF,
    ensures
        res matches Ok(p) ==> cap_params_spec(cap) == Some(p),
        res is Err <==> cap_params_spec(cap) is None,
        res is Err ==> res == Err::<CapParams, NVMeError>(NVMeError::InitFailed),
{
    assert(cap & 0xFFFF == cap % 0x1_0000 && (cap >> 32u64) & 0xF == (cap / 0x1_0000_0000) % 16
        && (cap >> 48u64) & 0xF == (cap / 0x1_0000_0000_0000) % 16 && (cap >> 37u64) & 1 == (cap
        / 0x20_0000_0000) % 2) by (bit_vector);
    let mqe: u16 = (cap & 0xFFFF) as u16 + 1;
    let dstrd: u8 = ((cap >> 32) & 0xF) as u8;
    let stride: u32 = 4u32 << dstrd;
    let mpsmin: u8 = ((cap >> 48) & 0xF) as u8;
    let page_size: u32 = 1u32 << (12 + mpsmin);
    if (cap >> 37) & 1 == 0 {
        return Err(NVMeError::InitFailed);
    }
    let aqs: u16 = if mqe > NVME_ADMIN_QUEUE_SIZE {
        NVME_ADMIN_QUEUE_SIZE
    } else {
        mqe
    };
    let half: u32 = aqs as u32 - 1;
    let aqa: u32 = half + half * 0x1_0000;
    let cc: u32 = 1 + 6 * 0x1_0000 + 4 * 0x10_0000 + mpsmin as u32 * 128;
    Ok(
        CapParams {
            max_queue_entries: mqe,
            stride,
            page_size,
            mpsmin,
            admin_queue_size: aqs,
            aqa,
            cc,
        },
    )
}

/// Where a wait for the controller's ready bit stands after one reading of
/// the status register.
#[derive(Debug, PartialEq, Eq, Structural, Clone, Copy)]
pub enum ReadyStep {
    /// The ready bit has the awaited value.
    Reached,
    /// The controller reports a fatal status.
    Fatal,
    /// Keep waiting.
    Pending,
}

/// One reading of the status register during a wait for `ready`: reached
/// when the ready bit matches, else fatal when the fatal-status bit is
/// set, else pending.
pub fn ready_step(csts: u32, ready: bool) -> (res: ReadyStep)
    ensures
        res == (if (csts & NVME_CSTS_RDY != 0) == ready {
            ReadyStep::Reached
        } else if csts & NVME_CSTS_CFS != 0 {
            ReadyStep::Fatal
        } else {
            ReadyStep::Pending
        }),
{
    if (csts & NVME_CSTS_RDY != 0) == ready {
        ReadyStep::Reached
    } else if csts & NVME_CSTS_CFS != 0 {
        ReadyStep::Fatal
    } else {
        ReadyStep::Pending
    }
}

/// The configuration value written to shut a controller down: enable
/// cleared, normal shutdown requested.
pub fn shutdown_cc(cc: u32) -> (res: u32)
    ensures
        res == (cc & !NVME_CC_EN) | NVME_CC_SHN_NORMAL,
{
    (cc & !NVME_CC_EN) | NVME_CC_SHN_NORMAL
}

/// A namespace's block size from its identify data: 2^LBADS of the format
/// FLBAS names when that format exists, else 512.
pub open spec fn namespace_lba_size(flbas: u8, nlbaf: u8, lbads: Seq<u8>) -> u32 {
    if flbas < nlbaf {
        (1u32 << (lbads[flbas as int] as u32))
    } else {
        512
    }
}

pub fn lba_size(flbas: u8, nlbaf: u8, lbads: &[u8; 16]) -> (res: u32)
    requires
        flbas < nlbaf ==> flbas < 16 && lbads@[flbas as int] < 32,
    ensures
        res == namespace_lba_size(flbas, nlbaf, lbads@),
{
    if flbas < nlbaf {
        1u32 << lbads[flbas as usize]
    } else {
        512
    }
}

/// The table slot of namespace `nsid`, if it names a valid one: numbers 1
/// to 256 map to slots 0 to 255, and the slot must be marked valid.
pub fn namespace_slot(nsid: u32, valid: &[bool; 256]) -> (res: NVMeResult<usize>)
    ensures
        res == (if 1 <= nsid <= 256 && valid@[nsid - 1] {
            Ok::<usize, NVMeError>((nsid - 1) as usize)
        } else {
            Err::<usize, NVMeError>(NVMeError::NamespaceNotFound)
        }),
{
    if nsid == 0 || nsid > 256 {
        return Err(NVMeError::NamespaceNotFound);
    }
    let slot = (nsid - 1) as usize;
    if valid[slot] {
        Ok(slot)
    } else {
        Err(NVMeError::NamespaceNotFound)
    }
}

/// The namespace the basic test uses: the highest number from 1 to 255
/// whose slot is valid, or 0 when there is none.
pub open spec fn test_namespace(valid: Seq<bool>, upto: int) -> u32
    decreases upto,
{
    if upto <= 1 {
        0
    } else if valid[upto - 2] {
        (upto - 1) as u32
    } else {
        test_namespace(valid, upto - 1)
    }
}

pub fn pick_test_namespace(valid: &[bool; 256]) -> (res: u32)
    ensures
        res == test_namespace(valid@, 256),
        res != 0 ==> 1 <= res <= 255 && valid@[res - 1],
{
    let mut nsid: u32 = 0;
    let mut i: u32 = 1;
    while i < 256
        invariant
            1 <= i <= 256,
            nsid == test_namespace(valid@, i as int),
            nsid != 0 ==> 1 <= nsid < i && valid@[nsid - 1],
        decreases 256 - i,
    {
        if valid[(i - 1) as usize] {
            nsid = i;
        }
        i = i + 1;
    }
    nsid
}

/// The block the basic test writes: 0x1000, or half of it when the
/// namespace is not larger than that.
pub fn test_block(ns_size: u64) -> (res: u64)
    ensures
        res == (if 0x1000 >= ns_size {
            0x800u64
        } else {
            0x1000u64
        }),
{
    let mut lba: u64 = 0x1000;
    if lba >= ns_size {
        lba = lba / 2;
    }
    lba
}

/// The number of bytes the basic test compares.
pub const TEST_COMPARE_LEN: usize = 26;

/// Whether the block read back agrees with the block written, over the
/// compared length.
pub fn blocks_agree(written: &[u8], read: &[u8]) -> (res: bool)
    requires
        written@.len() >= TEST_COMPARE_LEN,
        read@.len() >= TEST_COMPARE_LEN,
    ensures
        res == (written@.take(TEST_COMPARE_LEN as int) == read@.take(TEST_COMPARE_LEN as int)),
{
    let mut i: usize = 0;
    while i < TEST_COMPARE_LEN
        invariant
            i <= TEST_COMPARE_LEN,
            written@.len() >= TEST_COMPARE_LEN,
            read@.len() >= TEST_COMPARE_LEN,
            written@.take(i as int) == read@.take(i as int),
        decreases TEST_COMPARE_LEN - i,
    {
        if written[i] != read[i] {
            assert(written@.take(TEST_COMPARE_LEN as int)[i as int] != read@.take(TEST_COMPARE_LEN as int)[i as int]);
            return false;
        }
        assert(written@.take(i + 1) =~= written@.take(i as int).push(written@[i as int]));
        assert(read@.take(i + 1) =~= read@.take(i as int).push(read@[i as int]));
        i = i + 1;
    }
    true
}

/// Pages covering `size` bytes (rounded up to 4 KiB).
pub fn buffer_pages(size: usize) -> (res: usize)
    requires
        size + 4095 <= usize::MAX,
    ensures
        res == (size + 4095) / 4096,
{
    (size + 4095) / 4096
}

/// A step of a controller's bring-up.
#[derive(Debug, Clone, Copy)]
pub enum ProbeAction {
    AllocController,
    ReadBar0,
    AllocFrame,
    MapBar0,
    EnableBusMaster,
    InitController,
    Identify,
    InitIoQueues,
    InitNamespaces,
    FreeCtrlData,
    FreeAdminQueue,
    FreeController,
    Finish(NVMeResult<()>),
}

/// How a step went.
#[derive(Debug, PartialEq, Eq, Structural, Clone, Copy)]
pub enum StepOutcome {
    Done,
    /// The page was mapped already (counts as done).
    AlreadyMapped,
    Failed(NVMeError),
}

/// Where a bring-up stands: the step last handed out, or the clean-up
/// after a failure (with how many more frees follow, and the error to
/// report), or the end.
#[derive(Debug, Clone, Copy)]
pub enum ProbeStage {
    Start,
    Issued(ProbeAction),
    Cleaning(u8, NVMeError),
    Over(NVMeResult<()>),
}

/// The bring-up order: allocate the controller record, read BAR 0, get a
/// frame and map BAR 0 (a page already mapped is fine), enable bus
/// mastering, initialise, identify, set up I/O queues, then the
/// namespaces, whose failure is only reported. A failure of the first
/// five ends it (out of memory for the record, else init failed); a
/// failure of initialisation frees the record, of identification also the
/// admin queue first, of queue set-up also the identify data first; then
/// the error is reported.
pub open spec fn probe_next(stage: ProbeStage, outcome: StepOutcome) -> (ProbeStage, ProbeAction) {
    let failed = outcome is Failed;
    match stage {
        ProbeStage::Start => (ProbeStage::Issued(ProbeAction::AllocController), ProbeAction::AllocController),
        ProbeStage::Issued(a) => match a {
            ProbeAction::AllocController => if failed {
                let r = Err(NVMeError::OutOfMemory);
                (ProbeStage::Over(r), ProbeAction::Finish(r))
            } else {
                (ProbeStage::Issued(ProbeAction::ReadBar0), ProbeAction::ReadBar0)
            },
            ProbeAction::ReadBar0 => if failed {
                let r = Err(NVMeError::InitFailed);
                (ProbeStage::Over(r), ProbeAction::Finish(r))
            } else {
                (ProbeStage::Issued(ProbeAction::AllocFrame), ProbeAction::AllocFrame)
            },
            ProbeAction::AllocFrame => if failed {
                let r = Err(NVMeError::InitFailed);
                (ProbeStage::Over(r), ProbeAction::Finish(r))
            } else {
                (ProbeStage::Issued(ProbeAction::MapBar0), ProbeAction::MapBar0)
            },
            ProbeAction::MapBar0 => if failed {
                let r = Err(NVMeError::InitFailed);
                (ProbeStage::Over(r), ProbeAction::Finish(r))
            } else {
                (ProbeStage::Issued(ProbeAction::EnableBusMaster), ProbeAction::EnableBusMaster)
            },
            ProbeAction::EnableBusMaster => if failed {
                let r = Err(NVMeError::InitFailed);
                (ProbeStage::Over(r), ProbeAction::Finish(r))
            } else {
                (ProbeStage::Issued(ProbeAction::InitController), ProbeAction::InitController)
            },
            ProbeAction::InitController => match outcome {
                StepOutcome::Failed(e) => (ProbeStage::Cleaning(0, e), ProbeAction::FreeController),
                _ => (ProbeStage::Issued(ProbeAction::Identify), ProbeAction::Identify),
            },
            ProbeAction::Identify => match outcome {
                StepOutcome::Failed(e) => (ProbeStage::Cleaning(1, e), ProbeAction::FreeAdminQueue),
                _ => (ProbeStage::Issued(ProbeAction::InitIoQueues), ProbeAction::InitIoQueues),
            },
            ProbeAction::InitIoQueues => match outcome {
                StepOutcome::Failed(e) => (ProbeStage::Cleaning(2, e), ProbeAction::FreeCtrlData),
                _ => (ProbeStage::Issued(ProbeAction::InitNamespaces), ProbeAction::InitNamespaces),
            },
            _ => (ProbeStage::Over(Ok(())), ProbeAction::Finish(Ok(()))),
        },
        ProbeStage::Cleaning(n, e) => if n >= 2 {
            (ProbeStage::Cleaning(1, e), ProbeAction::FreeAdminQueue)
        } else if n == 1 {
            (ProbeStage::Cleaning(0, e), ProbeAction::FreeController)
        } else {
            (ProbeStage::Over(Err(e)), ProbeAction::Finish(Err(e)))
        },
        ProbeStage::Over(r) => (ProbeStage::Over(r), ProbeAction::Finish(r)),
    }
}

/// A failure once the I/O queues are being set up is undone in reverse
/// order (the controller data, the admin queue, the controller) whatever
/// the frees report, and then reported with its error.
pub proof fn lemma_probe_cleanup_order(e: NVMeError, o1: StepOutcome, o2: StepOutcome, o3: StepOutcome)
    ensures
        ({
            let (s1, a1) = probe_next(ProbeStage::Issued(ProbeAction::InitIoQueues), StepOutcome::Failed(e));
            let (s2, a2) = probe_next(s1, o1);
            let (s3, a3) = probe_next(s2, o2);
            let (s4, a4) = probe_next(s3, o3);
            &&& a1 == ProbeAction::FreeCtrlData
            &&& a2 == ProbeAction::FreeAdminQueue
            &&& a3 == ProbeAction::FreeController
            &&& a4 == ProbeAction::Finish(Err(e))
            &&& s4 == ProbeStage::Over(Err::<(), NVMeError>(e))
        }),
{
}

/// A failure at any step before the controller is initialised ends the
/// bring-up at once with an error, and a finished bring-up stays finished.
pub proof fn lemma_probe_early_failure(a: ProbeAction, e: NVMeError, r: NVMeResult<()>, o: StepOutcome)
    requires
        a == ProbeAction::AllocController || a == ProbeAction::ReadBar0 || a == ProbeAction::AllocFrame
            || a == ProbeAction::MapBar0 || a == ProbeAction::EnableBusMaster,
    ensures
        probe_next(ProbeStage::Issued(a), StepOutcome::Failed(e)).1 matches ProbeAction::Finish(Err(_)),
        probe_next(ProbeStage::Over(r), o) == (ProbeStage::Over(r), ProbeAction::Finish(r)),
{
}

/// The next bring-up step after the outcome of the last one.
pub fn probe_step(stage: ProbeStage, outcome: StepOutcome) -> (res: (ProbeStage, ProbeAction))
    ensures
        res == probe_next(stage, outcome),
{
    let failed = match outcome {
        StepOutcome::Failed(_) => true,
        _ => false,
    };
    match stage {
        ProbeStage::Start => (ProbeStage::Issued(ProbeAction::AllocController), ProbeAction::AllocController),
        ProbeStage::Issued(a) => match a {
            ProbeAction::AllocController => if failed {
                let r = Err(NVMeError::OutOfMemory);
                (ProbeStage::Over(r), ProbeAction::Finish(r))
            } else {
                (ProbeStage::Issued(ProbeAction::ReadBar0), ProbeAction::ReadBar0)
            },
            ProbeAction::ReadBar0 => if failed {
                let r = Err(NVMeError::InitFailed);
                (ProbeStage::Over(r), ProbeAction::Finish(r))
            } else {
                (ProbeStage::Issued(ProbeAction::AllocFrame), ProbeAction::AllocFrame)
            },
            ProbeAction::AllocFrame => if failed {
                let r = Err(NVMeError::InitFailed);
                (ProbeStage::Over(r), ProbeAction::Finish(r))
            } else {
                (ProbeStage::Issued(ProbeAction::MapBar0), ProbeAction::MapBar0)
            },
            ProbeAction::MapBar0 => if failed {
                let r = Err(NVMeError::InitFailed);
                (ProbeStage::Over(r), ProbeAction::Finish(r))
            } else {
                (ProbeStage::Issued(ProbeAction::EnableBusMaster), ProbeAction::EnableBusMaster)
            },
            ProbeAction::EnableBusMaster => if failed {
                let r = Err(NVMeError::InitFailed);
                (ProbeStage::Over(r), ProbeAction::Finish(r))
            } else {
                (ProbeStage::Issued(ProbeAction::InitController), ProbeAction::InitController)
            },
            ProbeAction::InitController => match outcome {
                StepOutcome::Failed(e) => (ProbeStage::Cleaning(0, e), ProbeAction::FreeController),
                _ => (ProbeStage::Issued(ProbeAction::Identify), ProbeAction::Identify),
            },
            ProbeAction::Identify => match outcome {
                StepOutcome::Failed(e) => (ProbeStage::Cleaning(1, e), ProbeAction::FreeAdminQueue),
                _ => (ProbeStage::Issued(ProbeAction::InitIoQueues), ProbeAction::InitIoQueues),
            },
            ProbeAction::InitIoQueues => match outcome {
                StepOutcome::Failed(e) => (ProbeStage::Cleaning(2, e), ProbeAction::FreeCtrlData),
                _ => (ProbeStage::Issued(ProbeAction::InitNamespaces), ProbeAction::InitNamespaces),
            },
            _ => (ProbeStage::Over(Ok(())), ProbeAction::Finish(Ok(()))),
        },
        ProbeStage::Cleaning(n, e) => if n >= 2 {
            (ProbeStage::Cleaning(1, e), ProbeAction::FreeAdminQueue)
        } else if n == 1 {
            (ProbeStage::Cleaning(0, e), ProbeAction::FreeController)
        } else {
            (ProbeStage::Over(Err(e)), ProbeAction::Finish(Err(e)))
        },
        ProbeStage::Over(r) => (ProbeStage::Over(r), ProbeAction::Finish(r)),
    }
}

/// The actions a bring-up hands out, from `stage`, when every step has the
/// outcome `outcome`, for `n` steps.
pub open spec fn probe_run(stage: ProbeStage, outcome: StepOutcome, n: nat) -> Seq<ProbeAction>
    decreases n,
{
    if n == 0 {
        Seq::empty()
    } else {
        let (next, a) = probe_next(stage, outcome);
        seq![a] + probe_run(next, outcome, (n - 1) as nat)
    }
}

/// A bring-up in which every step succeeds goes through the nine steps in
/// order and reports success.
pub proof fn lemma_probe_all_succeed()
    ensures
        probe_run(ProbeStage::Start, StepOutcome::Done, 10) == seq![
            ProbeAction::AllocController,
            ProbeAction::ReadBar0,
            ProbeAction::AllocFrame,
            ProbeAction::MapBar0,
            ProbeAction::EnableBusMaster,
            ProbeAction::InitController,
            ProbeAction::Identify,
            ProbeAction::InitIoQueues,
            ProbeAction::InitNamespaces,
            ProbeAction::Finish(Ok(())),
        ],
{
    reveal_with_fuel(probe_run, 11);
    assert(probe_run(ProbeStage::Start, StepOutcome::Done, 10) =~= seq![
        ProbeAction::AllocController,
        ProbeAction::ReadBar0,
        ProbeAction::AllocFrame,
        ProbeAction::MapBar0,
        ProbeAction::EnableBusMaster,
        ProbeAction::InitController,
        ProbeAction::Identify,
        ProbeAction::InitIoQueues,
        ProbeAction::InitNamespaces,
        ProbeAction::Finish(Ok(())),
    ]);
}

/// Once the controller record is allocated, a failure of initialisation,
/// identification or queue set-up frees the record last and then reports
/// that very error; the admin queue is freed after identification or
/// queue set-up fails, and the identify data after queue set-up fails.
pub proof fn lemma_failure_frees_record(a: ProbeAction, e: NVMeError)
    requires
        a == ProbeAction::InitController || a == ProbeAction::Identify || a
            == ProbeAction::InitIoQueues,
    ensures
        ({
            let k: nat = if a == ProbeAction::InitController {
                1
            } else if a == ProbeAction::Identify {
                2
            } else {
                3
            };
            let run = probe_run(ProbeStage::Issued(a), StepOutcome::Failed(e), k + 1);
            &&& run[k - 1] == ProbeAction::FreeController
            &&& run[k as int] == ProbeAction::Finish(Err(e))
            &&& (a != ProbeAction::InitController ==> run[k - 2] == ProbeAction::FreeAdminQueue)
            &&& (a == ProbeAction::InitIoQueues ==> run[0] == ProbeAction::FreeCtrlData)
        }),
{
    reveal_with_fuel(probe_run, 5);
}

/// A step of I/O queue set-up.
#[derive(Debug, Clone, Copy)]
pub enum QueueAction {
    /// Ask for the number of queues (GET FEATURES, feature 7) and wait for
    /// its completion.
    GetFeatures,
    /// Allocate the memory of I/O queue 1 with two entries.
    AllocQueue,
    CreateCq,
    CreateSq,
    /// Submit DELETE I/O COMPLETION QUEUE for queue 1.
    DeleteCq,
    FreeQueue,
    /// Done: the number of I/O queues in use, or the error.
    Finish(NVMeResult<u16>),
}

/// The queue set-up: the feature query must succeed; failing to allocate
/// the queue falls back to admin queues only; failing to create the
/// completion queue frees the queue memory and falls back; failing to
/// create the submission queue deletes the completion queue, frees the
/// memory and falls back. A failure while undoing is reported as it is.
/// Success leaves one I/O queue.
pub open spec fn queue_next(last: QueueAction, outcome: StepOutcome, sq_failed: bool) -> (QueueAction, bool) {
    match outcome {
        StepOutcome::Failed(e) => match last {
            QueueAction::GetFeatures => (QueueAction::Finish(Err(e)), false),
            QueueAction::AllocQueue => (QueueAction::Finish(Ok(0)), false),
            QueueAction::CreateCq => (QueueAction::FreeQueue, false),
            QueueAction::CreateSq => (QueueAction::DeleteCq, true),
            QueueAction::DeleteCq => (QueueAction::Finish(Err(e)), false),
            QueueAction::FreeQueue => (QueueAction::Finish(Err(e)), false),
            QueueAction::Finish(r) => (QueueAction::Finish(r), false),
        },
        _ => match last {
            QueueAction::GetFeatures => (QueueAction::AllocQueue, false),
            QueueAction::AllocQueue => (QueueAction::CreateCq, false),
            QueueAction::CreateCq => (QueueAction::CreateSq, false),
            QueueAction::CreateSq => (QueueAction::Finish(Ok(1)), false),
            QueueAction::DeleteCq => (QueueAction::FreeQueue, sq_failed),
            QueueAction::FreeQueue => (QueueAction::Finish(Ok(0)), false),
            QueueAction::Finish(r) => (QueueAction::Finish(r), false),
        },
    }
}

/// The next queue set-up step after `last` had `outcome`; `sq_failed`
/// carries whether the undoing follows a failed submission-queue creation.
pub fn queue_step(last: QueueAction, outcome: StepOutcome, sq_failed: bool) -> (res: (QueueAction, bool))
    ensures
        res == queue_next(last, outcome, sq_failed),
{
    match outcome {
        StepOutcome::Failed(e) => match last {
            QueueAction::GetFeatures => (QueueAction::Finish(Err(e)), false),
            QueueAction::AllocQueue => (QueueAction::Finish(Ok(0)), false),
            QueueAction::CreateCq => (QueueAction::FreeQueue, false),
            QueueAction::CreateSq => (QueueAction::DeleteCq, true),
            QueueAction::DeleteCq => (QueueAction::Finish(Err(e)), false),
            QueueAction::FreeQueue => (QueueAction::Finish(Err(e)), false),
            QueueAction::Finish(r) => (QueueAction::Finish(r), false),
        },
        _ => match last {
            QueueAction::GetFeatures => (QueueAction::AllocQueue, false),
            QueueAction::AllocQueue => (QueueAction::CreateCq, false),
            QueueAction::CreateCq => (QueueAction::CreateSq, false),
            QueueAction::CreateSq => (QueueAction::Finish(Ok(1)), false),
            QueueAction::DeleteCq => (QueueAction::FreeQueue, sq_failed),
            QueueAction::FreeQueue => (QueueAction::Finish(Ok(0)), false),
            QueueAction::Finish(r) => (QueueAction::Finish(r), false),
        },
    }
}

/// A step of shutting a controller down.
#[derive(Debug, PartialEq, Eq, Structural, Clone, Copy)]
pub enum ShutdownAction {
    /// Read the configuration register, write it back with `shutdown_cc`.
    RequestShutdown,
    /// Wait (up to 5 s) for the ready bit to clear.
    WaitNotReady,
    FreeAdminQueue,
    FreeIoQueue(u16),
    FreeCtrlData,
    FreeController,
}

/// The shutdown steps of a controller, in order; the first that fails ends
/// the controller's shutdown. A disabled controller is left alone.
pub open spec fn shutdown_script(enabled: bool, num_io_queues: u16) -> Seq<ShutdownAction> {
    if !enabled {
        Seq::empty()
    } else {
        seq![ShutdownAction::RequestShutdown, ShutdownAction::WaitNotReady, ShutdownAction::FreeAdminQueue]
            + Seq::new(num_io_queues as nat, |q: int| ShutdownAction::FreeIoQueue(q as u16))
            + seq![ShutdownAction::FreeCtrlData, ShutdownAction::FreeController]
    }
}

pub fn shutdown_steps(enabled: bool, num_io_queues: u16) -> (res: Vec<ShutdownAction>)
    ensures
        res@ == shutdown_script(enabled, num_io_queues),
{
    let mut out: Vec<ShutdownAction> = Vec::new();
    if !enabled {
        assert(out@ =~= shutdown_script(enabled, num_io_queues));
        return out;
    }
    out.push(ShutdownAction::RequestShutdown);
    out.push(ShutdownAction::WaitNotReady);
    out.push(ShutdownAction::FreeAdminQueue);
    let ghost head = out@;
    let mut q: u16 = 0;
    while q < num_io_queues
        invariant
            q <= num_io_queues,
            out@ == head + Seq::new(q as nat, |k: int| ShutdownAction::FreeIoQueue(k as u16)),
        decreases num_io_queues - q,
    {
        out.push(ShutdownAction::FreeIoQueue(q));
        assert(out@ =~= head + Seq::new((q + 1) as nat, |k: int| ShutdownAction::FreeIoQueue(k as u16)));
        q = q + 1;
    }
    out.push(ShutdownAction::FreeCtrlData);
    out.push(ShutdownAction::FreeController);
    assert(out@ =~= shutdown_script(enabled, num_io_queues));
    out
}

/// Admin command opcodes.
pub const NVME_ADMIN_DELETE_CQ: u8 = 0x04;
pub const NVME_ADMIN_CREATE_CQ: u8 = 0x05;
pub const NVME_ADMIN_CREATE_SQ: u8 = 0x01;
pub const NVME_ADMIN_IDENTIFY: u8 = 0x06;
pub const NVME_ADMIN_GET_FEATURES: u8 = 0x0A;

/// The size of a submission-queue entry; the driver sizes both queues of
/// a pair with it.
pub const NVME_COMMAND_SIZE: usize = 64;

/// The admin commands the driver issues.
#[derive(Debug, Clone, Copy)]
pub enum AdminCommand {
    /// Identify the controller (CNS 1).
    IdentifyController,
    /// Identify namespace `nsid` (CNS 0).
    IdentifyNamespace(u32),
    /// The list of active namespaces (CNS 2).
    ActiveNamespaces,
    /// GET FEATURES for the number of queues (feature 7).
    QueueCount,
    /// CREATE I/O COMPLETION QUEUE `qid` of `size` entries at `prp`
    /// (physically contiguous).
    CreateCq(u16, u16, u64),
    /// CREATE I/O SUBMISSION QUEUE `qid` of `size` entries at `prp`, tied
    /// to completion queue `qid`.
    CreateSq(u16, u16, u64),
    /// DELETE I/O COMPLETION QUEUE 1.
    DeleteCq,
}

/// A command with the given opcode, namespace, data pointer and dwords 10
/// and 11, every other field zero.
pub open spec fn command_of(opcode: u8, nsid: u32, prp1: u64, cdw10: u32, cdw11: u32) -> NVMeCommand {
    NVMeCommand {
        opcode,
        flags: 0,
        command_id: 0,
        nsid,
        rsv0: 0,
        meta: 0,
        prp1,
        prp2: 0,
        cdw10,
        cdw11,
        cdw12: 0,
        cdw13: 0,
        cdw14: 0,
        cdw15: 0,
    }
}

/// What each admin command carries: queue creation puts the size less one
/// in the low half of dword 10 and the queue id in the high half; the
/// completion queue is physically contiguous (dword 11 bit 0), and the
/// submission queue names its completion queue in the high half of dword
/// 11.
pub open spec fn admin_command_spec(kind: AdminCommand) -> NVMeCommand {
    match kind {
        AdminCommand::IdentifyController => command_of(NVME_ADMIN_IDENTIFY, 0, 0, 1, 0),
        AdminCommand::IdentifyNamespace(nsid) => command_of(NVME_ADMIN_IDENTIFY, nsid, 0, 0, 0),
        AdminCommand::ActiveNamespaces => command_of(NVME_ADMIN_IDENTIFY, 0, 0, 2, 0),
        AdminCommand::QueueCount => command_of(NVME_ADMIN_GET_FEATURES, 0, 0, 7, 0),
        AdminCommand::CreateCq(qid, size, prp) => command_of(
            NVME_ADMIN_CREATE_CQ,
            0,
            prp,
            ((size - 1) as u32) | ((qid as u32) << 16u32),
            1,
        ),
        AdminCommand::CreateSq(qid, size, prp) => command_of(
            NVME_ADMIN_CREATE_SQ,
            0,
            prp,
            ((size - 1) as u32) | ((qid as u32) << 16u32),
            ((qid as u32) << 16u32) | 1,
        ),
        AdminCommand::DeleteCq => command_of(NVME_ADMIN_DELETE_CQ, 0, 0, 1, 0),
    }
}

/// Builds an admin command; a queue must have at least one entry.
pub fn admin_command(kind: AdminCommand) -> (res: NVMeCommand)
    requires
        kind matches AdminCommand::CreateCq(_, size, _) ==> size >= 1,
        kind matches AdminCommand::CreateSq(_, size, _) ==> size >= 1,
    ensures
        res == admin_command_spec(kind),
{
    let (opcode, nsid, prp1, cdw10, cdw11): (u8, u32, u64, u32, u32) = match kind {
        AdminCommand::IdentifyController => (NVME_ADMIN_IDENTIFY, 0, 0, 1, 0),
        AdminCommand::IdentifyNamespace(nsid) => (NVME_ADMIN_IDENTIFY, nsid, 0, 0, 0),
        AdminCommand::ActiveNamespaces => (NVME_ADMIN_IDENTIFY, 0, 0, 2, 0),
        AdminCommand::QueueCount => (NVME_ADMIN_GET_FEATURES, 0, 0, 7, 0),
        AdminCommand::CreateCq(qid, size, prp) => (
            NVME_ADMIN_CREATE_CQ,
            0,
            prp,
            (size as u32 - 1) | ((qid as u32) << 16u32),
            1,
        ),
        AdminCommand::CreateSq(qid, size, prp) => (
            NVME_ADMIN_CREATE_SQ,
            0,
            prp,
            (size as u32 - 1) | ((qid as u32) << 16u32),
            ((qid as u32) << 16u32) | 1,
        ),
        AdminCommand::DeleteCq => (NVME_ADMIN_DELETE_CQ, 0, 0, 1, 0),
    };
    NVMeCommand {
        opcode,
        flags: 0,
        command_id: 0,
        nsid,
        rsv0: 0,
        meta: 0,
        prp1,
        prp2: 0,
        cdw10,
        cdw11,
        cdw12: 0,
        cdw13: 0,
        cdw14: 0,
        cdw15: 0,
    }
}

/// Stamps an admin command before it is queued: its identifier, and as
/// data pointer the buffer's address plus the physical-memory offset (no
/// buffer: zero), with no second pointer.
pub fn stamp_admin(cmd: NVMeCommand, command_id: u16, buffer: Option<u64>, pmo: u64) -> (res: NVMeCommand)
    requires
        buffer matches Some(b) ==> b + pmo <= u64::MAX,
    ensures
        res == (NVMeCommand {
            command_id,
            prp1: match buffer {
                Some(b) => (b + pmo) as u64,
                None => 0u64,
            },
            prp2: 0,
            ..cmd
        }),
{
    let prp1 = match buffer {
        Some(b) => b + pmo,
        None => 0,
    };
    NVMeCommand { command_id, prp1, prp2: 0, ..cmd }
}

/// Stamps an I/O command before it is queued: its identifier, and with a
/// buffer, the buffer's physical address (less the offset) as first data
/// pointer and no second one; without a buffer the pointers stay.
pub fn stamp_io(cmd: NVMeCommand, command_id: u16, buffer: Option<u64>, pmo: u64) -> (res: NVMeCommand)
    requires
        buffer matches Some(b) ==> pmo <= b,
    ensures
        res == (match buffer {
            Some(b) => NVMeCommand { command_id, prp1: (b - pmo) as u64, prp2: 0, ..cmd },
            None => NVMeCommand { command_id, ..cmd },
        }),
{
    match buffer {
        Some(b) => NVMeCommand { command_id, prp1: b - pmo, prp2: 0, ..cmd },
        None => NVMeCommand { command_id, ..cmd },
    }
}

/// The identifier for the next command and the counter kept after it: the
/// counter plus one, and a counter of 0 becomes 1 (so after the first
/// command every identifier is 2).
pub fn next_command_id(next: u16) -> (res: (u16, u16))
    requires
        next < u16::MAX,
    ensures
        res.0 == next + 1,
        res.1 == (if next == 0 { 1 } else { next }),
{
    let id = next + 1;
    let kept = if next == 0 {
        1
    } else {
        next
    };
    (id, kept)
}

/// The submission-queue tail after a command is placed: one past a tail
/// at or beyond the depth, and 0 otherwise.
pub fn tail_after_submit(tail: u16, depth: u16) -> (res: u16)
    requires
        tail >= depth ==> tail < u16::MAX,
    ensures
        res == (if tail >= depth { (tail + 1) as u16 } else { 0u16 }),
{
    if tail >= depth {
        tail + 1
    } else {
        0
    }
}

/// The outcome a matching completion reports: the status field's low byte
/// shifted right once must be zero, or the command failed.
pub fn completion_result(status: u16) -> (res: NVMeResult<()>)
    ensures
        res == (if (status % 256) / 2 == 0 {
            Ok::<(), NVMeError>(())
        } else {
            Err::<(), NVMeError>(NVMeError::CommandFailed)
        }),
{
    let low: u8 = (status % 256) as u8;
    let code: u8 = low / 2;
    if code != 0 {
        Err(NVMeError::CommandFailed)
    } else {
        Ok(())
    }
}

/// The byte offsets from BAR 0 of the submission and completion doorbells
/// of queue `qid`: 32-bit registers from 0x1000 on, `stride` registers
/// apart, the submission doorbell of queue q at 2q strides and its
/// completion doorbell at 2q + 1.
pub fn doorbell_offsets(qid: u16, stride: u32) -> (res: (u64, u64))
    ensures
        res.0 == 0x1000 + 4 * (2 * qid * stride),
        res.1 == 0x1000 + 4 * ((2 * qid + 1) * stride),
{
    assert(4 * ((2 * qid + 1) * stride) <= 4 * (0x2_0000 * 0x1_0000_0000)) by (nonlinear_arith)
        requires
            qid < 0x1_0000,
            stride < 0x1_0000_0000,
    ;
    assert(2 * qid * stride <= (2 * qid + 1) * stride) by (nonlinear_arith);
    let q = qid as u64;
    let s = stride as u64;
    (0x1000 + 4 * (2 * q * s), 0x1000 + 4 * ((2 * q + 1) * s))
}

/// The bytes of memory each queue of a pair with `size` entries takes.
pub fn queue_bytes(size: u16) -> (res: usize)
    ensures
        res == size * NVME_COMMAND_SIZE,
{
    size as usize * NVME_COMMAND_SIZE
}

/// The queue counts a GET FEATURES (number of queues) completion reports:
/// submission queues from the low half of its result, completion queues
/// from the high half, each 0-based.
pub fn queue_counts(result: u32) -> (res: (u16, u16))
    requires
        result % 0x1_0000 != 0xFFFF,
        result / 0x1_0000 != 0xFFFF,
    ensures
        res.0 == result % 0x1_0000 + 1,
        res.1 == result / 0x1_0000 + 1,
{
    let sq: u16 = (result % 0x1_0000) as u16;
    let cq: u16 = (result / 0x1_0000) as u16;
    (sq + 1, cq + 1)
}

/// The command that moves `num_blocks` blocks at `lba` of namespace
/// `nsid`: the read opcode (which the write path issues as well), the LBA
/// split over dwords 10 and 11, and the block count less one in dword 12,
/// cut to 16 bits on the write path.
pub fn block_command(nsid: u32, lba: u64, num_blocks: u32, write: bool) -> (res: NVMeCommand)
    requires
        num_blocks >= 1,
    ensures
        res.opcode == NVME_IO_READ,
        res.nsid == nsid,
        res.cdw10 == lba % 0x1_0000_0000,
        res.cdw11 == lba / 0x1_0000_0000,
        res.cdw11 * 0x1_0000_0000 + res.cdw10 == lba,
        res.cdw12 == (if write { (num_blocks - 1) % 0x1_0000 } else { num_blocks - 1 }),
        res.flags == 0 && res.command_id == 0 && res.rsv0 == 0 && res.meta == 0 && res.prp1 == 0
            && res.prp2 == 0 && res.cdw13 == 0 && res.cdw14 == 0 && res.cdw15 == 0,
{
    let cmd = rw_command(false, nsid, lba, num_blocks);
    if write {
        NVMeCommand { cdw12: cmd.cdw12 % 0x1_0000, ..cmd }
    } else {
        cmd
    }
}

/// The data pointers of a transfer into the buffer at virtual address
/// `buffer` that spans `pages` pages: the buffer's physical address first,
/// and for two pages the next page's; `None` when a pointer list is
/// needed (no page, or more than two).
pub fn data_pointers(buffer: u64, pmo: u64, pages: u32, page_size: u32) -> (res: Option<(u64, u64)>)
    requires
        pmo <= buffer,
        buffer + page_size <= u64::MAX,
    ensures
        res == (if pages == 1 {
            Some(((buffer - pmo) as u64, 0u64))
        } else if pages == 2 {
            Some(((buffer - pmo) as u64, (buffer + page_size - pmo) as u64))
        } else {
            None
        }),
{
    let first = buffer - pmo;
    if pages == 1 {
        Some((first, 0))
    } else if pages == 2 {
        Some((first, buffer + page_size as u64 - pmo))
    } else {
        None
    }
}

/// No two doorbells of different queues, nor the two of one queue, share
/// an offset (for a positive stride).
pub proof fn lemma_doorbells_distinct(q1: u16, q2: u16, stride: u32)
    requires
        stride > 0,
    ensures
        2 * q1 * stride != (2 * q1 + 1) * stride,
        q1 != q2 ==> 2 * q1 * stride != 2 * q2 * stride && (2 * q1 + 1) * stride != (2 * q2 + 1)
            * stride && 2 * q1 * stride != (2 * q2 + 1) * stride,
{
    assert(2 * q1 * stride != (2 * q1 + 1) * stride) by (nonlinear_arith)
        requires
            stride > 0,
    ;
    if q1 != q2 {
        assert(2 * q1 * stride != 2 * q2 * stride) by (nonlinear_arith)
            requires
                stride > 0,
                q1 != q2,
        ;
        assert((2 * q1 + 1) * stride != (2 * q2 + 1) * stride) by (nonlinear_arith)
            requires
                stride > 0,
                q1 != q2,
        ;
        assert(2 * q1 * stride != (2 * q2 + 1) * stride) by (nonlinear_arith)
            requires
                stride > 0,
        ;
    }
}

} // verus!
