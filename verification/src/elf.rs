//! Loading an ELF executable into user memory: the program headers are read
//! with goblin, and the load plan (how much to allocate, what to copy where,
//! what to clear, where to start) is worked out here.
use vstd::prelude::*;

verus! {

/// The program-header type of a loadable segment.
pub const PT_LOAD: u32 = 1;

/// One program header, as the loader reads it.
#[derive(Debug, Clone, Copy)]
pub struct ProgramHeader {
    pub p_type: u32,
    pub p_offset: u64,
    pub p_vaddr: u64,
    pub p_filesz: u64,
    pub p_memsz: u64,
}

/// A program header as plain values: type, offset, address, file size,
/// memory size.
pub open spec fn header_view(h: ProgramHeader) -> (u32, u64, u64, u64, u64) {
    (h.p_type, h.p_offset, h.p_vaddr, h.p_filesz, h.p_memsz)
}

/// What an executable's headers say: its entry point and program headers.
pub struct ElfImage {
    pub entry: u64,
    pub headers: Vec<ProgramHeader>,
}

pub open spec fn image_view(i: Option<ElfImage>) -> Option<(u64, Seq<(u32, u64, u64, u64, u64)>)> {
    match i {
        Some(img) => Some((img.entry, img.headers@.map_values(|h: ProgramHeader| header_view(h)))),
        None => None,
    }
}

/// What goblin's `Elf::parse` makes of some bytes: `None` when it reports
/// an error, else the entry point and the program headers in file order.
pub uninterp spec fn elf_program(data: Seq<u8>) -> Option<(u64, Seq<(u32, u64, u64, u64, u64)>)>;

/// Calls `goblin::elf::Elf::parse` and keeps the entry point and, for each
/// program header, its type, offset, address and sizes.
#[verifier::external_body]
fn parse_elf(data: &[u8]) -> (res: Option<ElfImage>)
    ensures
        image_view(res) == elf_program(data@),
{
    match goblin::elf::Elf::parse(data) {
        Ok(e) => Some(ElfImage {
            entry: e.entry,
            headers: e.program_headers.iter().map(|p| ProgramHeader {
                p_type: p.p_type,
                p_offset: p.p_offset,
                p_vaddr: p.p_vaddr,
                p_filesz: p.p_filesz,
                p_memsz: p.p_memsz,
            }).collect(),
        }),
        Err(_) => None,
    }
}

#[derive(Debug, Clone, Copy, PartialEq, Eq, Structural)]
pub enum ProcInitError {
    AllocationError,
    InvalidElf,
}

impl ProcInitError {
    /// The error's description, as its `Display` form prints it.
    pub fn to_string(&self) -> (res: String)
        ensures
            res@ == (match *self {
                ProcInitError::AllocationError => "Allocation Error"@,
                ProcInitError::InvalidElf => "Invalid Elf"@,
            }),
    {
        match self {
            ProcInitError::AllocationError => String::from_str("Allocation Error"),
            ProcInitError::InvalidElf => String::from_str("Invalid Elf"),
        }
    }
}

/// One step of loading a segment: copy `copy_len` bytes of the file from
/// `src` to user address `dst`, then clear `fill_len` bytes after them.
#[derive(Debug, Clone, Copy)]
pub struct SegmentCopy {
    pub dst: u64,
    pub src: usize,
    pub copy_len: usize,
    pub fill_len: usize,
}

/// The bytes the loadable segments need from the start of user memory,
/// counted as the loader counts: a segment whose address lies beyond the
/// running total adds its address, then every loadable segment adds its
/// memory size. `None` when the count passes 64 bits.
pub open spec fn required_size(hs: Seq<(u32, u64, u64, u64, u64)>) -> Option<int>
    decreases hs.len(),
{
    if hs.len() == 0 {
        Some(0)
    } else {
        match required_size(hs.drop_last()) {
            None => None,
            Some(prev) => {
                let h = hs.last();
                if h.0 != PT_LOAD {
                    Some(prev)
                } else {
                    let with_addr = if prev < h.2 {
                        prev + h.2
                    } else {
                        prev
                    };
                    if with_addr > u64::MAX || with_addr + h.4 > u64::MAX {
                        None
                    } else {
                        Some(with_addr + h.4)
                    }
                }
            },
        }
    }
}

/// The copy step for a loadable segment loaded at `base`, reading a file of
/// `len` bytes; `None` when the segment's addresses pass 64 bits, its file
/// range lies outside the file, or its memory size exceeds the address
/// space.
pub open spec fn segment_step(h: (u32, u64, u64, u64, u64), base: u64, len: int) -> Option<SegmentCopy> {
    let dst = base + h.2;
    let src_end = h.1 + h.3;
    if dst > u64::MAX || src_end > u64::MAX || src_end > len || h.4 > usize::MAX {
        None
    } else {
        let copy = if h.3 < h.4 {
            h.3 as int
        } else {
            h.4 as int
        };
        Some(
            SegmentCopy {
                dst: dst as u64,
                src: h.1 as usize,
                copy_len: copy as usize,
                fill_len: (h.4 - copy) as usize,
            },
        )
    }
}

/// The copy steps for the loadable segments, in header order, or `None`
/// when one of them cannot be addressed.
pub open spec fn load_plan(hs: Seq<(u32, u64, u64, u64, u64)>, base: u64, len: int) -> Option<
    Seq<SegmentCopy>,
>
    decreases hs.len(),
{
    if hs.len() == 0 {
        Some(Seq::empty())
    } else {
        match load_plan(hs.drop_last(), base, len) {
            None => None,
            Some(prev) => {
                let h = hs.last();
                if h.0 != PT_LOAD {
                    Some(prev)
                } else {
                    match segment_step(h, base, len) {
                        None => None,
                        Some(s) => Some(prev.push(s)),
                    }
                }
            },
        }
    }
}

/// A user program.
pub struct Process {
    pid: Option<u64>,
    stack_addr: Option<u64>,
    data: &'static [u8],
    entrypoint: Option<u64>,
}

/// What a process record holds.
pub struct ProcessView {
    pub pid: Option<u64>,
    pub stack_addr: Option<u64>,
    pub data: Seq<u8>,
    pub entrypoint: Option<u64>,
}

impl View for Process {
    type V = ProcessView;

    closed spec fn view(&self) -> ProcessView {
        ProcessView {
            pid: self.pid,
            stack_addr: self.stack_addr,
            data: self.data@,
            entrypoint: self.entrypoint,
        }
    }
}

impl Process {
    /// A process for the executable in `data`, not yet loaded.
    pub fn new(data: &'static [u8]) -> (res: Self)
        ensures
            res@ == (ProcessView { pid: None, stack_addr: None, data: data@, entrypoint: None }),
    {
        Self { pid: None, stack_addr: None, data, entrypoint: None }
    }

    /// The entry point, once loaded.
    pub fn entrypoint(&self) -> (res: Option<u64>)
        ensures
            res == self@.entrypoint,
    {
        self.entrypoint
    }

    /// The stack address, once allocated.
    pub fn stack_addr(&self) -> (res: Option<u64>)
        ensures
            res == self@.stack_addr,
    {
        self.stack_addr
    }

    /// Records the stack allocated for the process.
    pub fn set_stack_addr(&mut self, addr: u64)
        ensures
            final(self)@ == (ProcessView { stack_addr: Some(addr), ..old(self)@ }),
    {
        self.stack_addr = Some(addr);
    }

    /// Reads the executable's headers, asks `alloc_user` for the user memory
    /// its loadable segments need, and returns the copy steps that load
    /// them there; the entry point (relative to that memory) is recorded.
    /// Headers goblin refuses give `InvalidElf`; a failed allocation gives
    /// `AllocationError`, as do sizes or addresses that pass 64 bits and
    /// segments whose file range lies outside the file.
    pub fn init<F: Fn(usize) -> Option<u64>>(&mut self, alloc_user: &F) -> (res: Result<
        Vec<SegmentCopy>,
        ProcInitError,
    >)
        requires
            usize::BITS == 64,
            forall|n: usize| alloc_user.requires((n,)),
        ensures
            final(self)@.data == old(self)@.data,
            final(self)@.pid == old(self)@.pid,
            final(self)@.stack_addr == old(self)@.stack_addr,
            elf_program(old(self)@.data) is None ==> res == Err::<Vec<SegmentCopy>, ProcInitError>(
                ProcInitError::InvalidElf,
            ) && final(self)@ == old(self)@,
            elf_program(old(self)@.data) matches Some((_e, hs)) && required_size(hs) is None ==> res
                == Err::<Vec<SegmentCopy>, ProcInitError>(ProcInitError::AllocationError),
            res is Ok ==> ({
                let (entry, hs) = elf_program(old(self)@.data)->0;
                exists|base: u64|
                    #![trigger load_result(hs, base, old(self)@.data.len() as int, entry)]
                    alloc_user.ensures((required_size(hs)->0 as usize,), Some(base)) && load_result(
                        hs,
                        base,
                        old(self)@.data.len() as int,
                        entry,
                    ) == Ok::<(Seq<SegmentCopy>, u64), ProcInitError>((res->Ok_0@, final(self)@.entrypoint->0))
                        && final(self)@.entrypoint is Some
            }),
            res == Err::<Vec<SegmentCopy>, ProcInitError>(ProcInitError::AllocationError) ==> ({
                let (entry, hs) = elf_program(old(self)@.data)->0;
                ||| required_size(hs) is None
                ||| alloc_user.ensures((required_size(hs)->0 as usize,), None)
                ||| exists|base: u64|
                    #![trigger load_result(hs, base, old(self)@.data.len() as int, entry)]
                    alloc_user.ensures((required_size(hs)->0 as usize,), Some(base)) && load_result(
                        hs,
                        base,
                        old(self)@.data.len() as int,
                        entry,
                    ) is Err
            }),
            res matches Err(e) ==> final(self)@ == old(self)@ && (e == ProcInitError::InvalidElf
                ==> elf_program(old(self)@.data) is None),
    {
        let img = match parse_elf(self.data) {
            Some(i) => i,
            None => {
                return Err(ProcInitError::InvalidElf);
            },
        };
        let ghost hs = img.headers@.map_values(|h: ProgramHeader| header_view(h));
        assert(elf_program(old(self)@.data) == Some((img.entry, hs)));
        let ghost ep = elf_program(old(self)@.data)->0;
        assert(ep.1 == hs && ep.0 == img.entry);
        let req_sz = match required_memory(&img.headers) {
            Some(n) => n,
            None => {
                return Err(ProcInitError::AllocationError);
            },
        };
        assert(required_size(hs) == Some(req_sz as int));
        assert(required_size(hs)->0 as usize == req_sz as usize);
        let user_base = match alloc_user(req_sz as usize) {
            Some(a) => a,
            None => {
                return Err(ProcInitError::AllocationError);
            },
        };
        assert(alloc_user.ensures((required_size(hs)->0 as usize,), Some(user_base)));
        match plan_load(&img.headers, user_base, self.data.len(), img.entry) {
            Ok((plan, entry)) => {
                self.entrypoint = Some(entry);
                assert(load_result(hs, user_base, old(self)@.data.len() as int, img.entry) == Ok::<
                    (Seq<SegmentCopy>, u64),
                    ProcInitError,
                >((plan@, entry)));
                assert(self@.entrypoint->0 == entry);
                Ok(plan)
            },
            Err(e) => {
                assert(load_result(hs, user_base, old(self)@.data.len() as int, img.entry) is Err);
                Err(e)
            },
        }
    }
}

/// What loading the segments at `base` gives: the copy steps and the entry
/// point moved to `base`, or `AllocationError` when a segment cannot be
/// addressed or the moved entry point passes 64 bits.
pub open spec fn load_result(hs: Seq<(u32, u64, u64, u64, u64)>, base: u64, len: int, entry: u64) -> Result<
    (Seq<SegmentCopy>, u64),
    ProcInitError,
> {
    match load_plan(hs, base, len) {
        None => Err(ProcInitError::AllocationError),
        Some(plan) => if entry + base > u64::MAX {
            Err(ProcInitError::AllocationError)
        } else {
            Ok((plan, (entry + base) as u64))
        },
    }
}

/// Once a prefix of the headers overflows the size count, all of them do.
proof fn lemma_required_size_prefix(hs: Seq<(u32, u64, u64, u64, u64)>, i: int)
    requires
        0 <= i <= hs.len(),
        required_size(hs.take(i)) is None,
    ensures
        required_size(hs) is None,
    decreases hs.len() - i,
{
    if i == hs.len() {
        assert(hs.take(i) =~= hs);
    } else {
        assert(hs.take(i + 1).drop_last() =~= hs.take(i));
        lemma_required_size_prefix(hs, i + 1);
    }
}

/// Once a prefix of the headers cannot be planned, none of them can.
proof fn lemma_load_plan_prefix(hs: Seq<(u32, u64, u64, u64, u64)>, base: u64, len: int, i: int)
    requires
        0 <= i <= hs.len(),
        load_plan(hs.take(i), base, len) is None,
    ensures
        load_plan(hs, base, len) is None,
    decreases hs.len() - i,
{
    if i == hs.len() {
        assert(hs.take(i) =~= hs);
    } else {
        assert(hs.take(i + 1).drop_last() =~= hs.take(i));
        lemma_load_plan_prefix(hs, base, len, i + 1);
    }
}

/// The user memory the loadable segments need (see `required_size`), or
/// `None` when the count passes 64 bits.
pub fn required_memory(headers: &Vec<ProgramHeader>) -> (res: Option<u64>)
    ensures
        res matches Some(v) ==> required_size(headers@.map_values(|h: ProgramHeader| header_view(h)))
            == Some(v as int),
        res is None <==> required_size(headers@.map_values(|h: ProgramHeader| header_view(h))) is None,
{
    let ghost hs = headers@.map_values(|h: ProgramHeader| header_view(h));
    let n = headers.len();
    let mut req_sz: u64 = 0;
    let mut i: usize = 0;
    while i < n
        invariant
            n == headers@.len(),
            hs == headers@.map_values(|h: ProgramHeader| header_view(h)),
            i <= n,
            required_size(hs.take(i as int)) == Some(req_sz as int),
        decreases n - i,
    {
        let h = headers[i];
        assert(hs.take(i + 1).drop_last() =~= hs.take(i as int));
        assert(hs.take(i + 1).last() == header_view(h));
        if h.p_type == PT_LOAD {
            if req_sz < h.p_vaddr {
                req_sz = match req_sz.checked_add(h.p_vaddr) {
                    Some(v) => v,
                    None => {
                        proof {
                            lemma_required_size_prefix(hs, i + 1);
                        }
                        return None;
                    },
                };
            }
            req_sz = match req_sz.checked_add(h.p_memsz) {
                Some(v) => v,
                None => {
                    proof {
                        lemma_required_size_prefix(hs, i + 1);
                    }
                    return None;
                },
            };
        }
        i = i + 1;
    }
    assert(hs.take(n as int) =~= hs);
    Some(req_sz)
}

/// The copy steps that load the segments into user memory at `base`, read
/// from a file of `data_len` bytes, and the entry point moved to `base`
/// (see `load_result`).
pub fn plan_load(headers: &Vec<ProgramHeader>, base: u64, data_len: usize, entry: u64) -> (res: Result<
    (Vec<SegmentCopy>, u64),
    ProcInitError,
>)
    requires
        usize::BITS == 64,
    ensures
        match load_result(headers@.map_values(|h: ProgramHeader| header_view(h)), base, data_len as int, entry) {
            Ok((plan, e)) => res matches Ok((v, e2)) && v@ == plan && e2 == e,
            Err(x) => res == Err::<(Vec<SegmentCopy>, u64), ProcInitError>(x),
        },
{
    let ghost hs = headers@.map_values(|h: ProgramHeader| header_view(h));
    let n = headers.len();
    let len = data_len;
    let mut plan: Vec<SegmentCopy> = Vec::new();
    let mut k: usize = 0;
    while k < n
        invariant
            n == headers@.len(),
            hs == headers@.map_values(|h: ProgramHeader| header_view(h)),
            len == data_len,
            k <= n,
            usize::BITS == 64,
            load_plan(hs.take(k as int), base, len as int) == Some(plan@),
        decreases n - k,
    {
        let h = headers[k];
        assert(hs.take(k + 1).drop_last() =~= hs.take(k as int));
        assert(hs.take(k + 1).last() == header_view(h));
        if h.p_type == PT_LOAD {
            let dst = match base.checked_add(h.p_vaddr) {
                Some(v) => v,
                None => {
                    proof {
                        lemma_load_plan_prefix(hs, base, len as int, k + 1);
                    }
                    return Err(ProcInitError::AllocationError);
                },
            };
            let src_end = match h.p_offset.checked_add(h.p_filesz) {
                Some(v) => v,
                None => {
                    proof {
                        lemma_load_plan_prefix(hs, base, len as int, k + 1);
                    }
                    return Err(ProcInitError::AllocationError);
                },
            };
            if src_end > len as u64 {
                proof {
                    lemma_load_plan_prefix(hs, base, len as int, k + 1);
                }
                return Err(ProcInitError::AllocationError);
            }
            let copy_len = if h.p_filesz < h.p_memsz {
                h.p_filesz
            } else {
                h.p_memsz
            };
            plan.push(
                SegmentCopy {
                    dst,
                    src: h.p_offset as usize,
                    copy_len: copy_len as usize,
                    fill_len: (h.p_memsz - copy_len) as usize,
                },
            );
        }
        k = k + 1;
    }
    assert(hs.take(n as int) =~= hs);
    let moved = match entry.checked_add(base) {
        Some(v) => v,
        None => {
            return Err(ProcInitError::AllocationError);
        },
    };
    Ok((plan, moved))
}

} // verus!
