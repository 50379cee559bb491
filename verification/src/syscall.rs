//! The system-call interface: which request a register set makes, and what
//! each request answers. The kernel carries out the request (printing,
//! sleeping, reading the random generator, writing to user memory) and the
//! functions here decide the reply from what it observed.
use vstd::prelude::*;

verus! {

/// Longest text a print call may pass.
pub const MAX_PRINT: usize = 4096;

/// The registers a system call passes.
#[derive(Debug, Clone, Copy)]
pub struct Regs {
    pub rax: u64,
    pub rdi: u64,
    pub rsi: u64,
    pub rdx: u64,
    pub r10: u64,
    pub r8: u64,
    pub r9: u64,
}

/// How printed text is shown.
#[derive(Debug, Clone, Copy, PartialEq, Eq, Structural)]
pub enum PrintLevel {
    Plain,
    Info,
    Warning,
    Error,
    Todo,
}

/// A system call's request.
#[derive(Debug, Clone, Copy, PartialEq, Eq, Structural)]
pub enum Syscall {
    /// 0: read the file whose name is the `name_len` bytes at `name`,
    /// from byte `offset`, `amount` bytes (`usize::MAX`: to its end), into
    /// the buffer at `buf`.
    Read { name: usize, name_len: usize, buf: usize, offset: usize, amount: usize },
    /// 1: print `len` bytes at `addr` at the level named by `level`.
    Print { level: usize, addr: usize, len: usize },
    /// 1 with an empty or too long text, or a null address: refused.
    BadPrint { addr: usize, len: usize },
    /// 2: panic with the `len` bytes at `addr`.
    Panic { addr: usize, len: usize },
    /// 3: sleep `ms` milliseconds; answers 0.
    Sleep { ms: usize },
    /// 4: a random number.
    Random,
    /// 5: write the decimal digits of `value` (at most `cap` of them) to `dst`.
    FormatInt { dst: usize, cap: usize, value: usize },
    /// 6 with 1 (a smiley) or 2 (a sad face); answers 0.
    Face { happy: bool },
    /// 6 with another argument; answers `usize::MAX`.
    BadFace,
    /// Any other number; answers `usize::MAX`.
    Unknown { number: usize },
}

/// The request that the registers make.
pub open spec fn decode_spec(rax: usize, rdi: usize, rsi: usize, rdx: usize, r10: usize, r8: usize) -> Syscall {
    if rax == 0 {
        Syscall::Read { name: rdi, name_len: rsi, buf: rdx, offset: r10, amount: r8 }
    } else if rax == 1 {
        if rdx == 0 || rdx > MAX_PRINT || rsi == 0 {
            Syscall::BadPrint { addr: rsi, len: rdx }
        } else {
            Syscall::Print { level: rdi, addr: rsi, len: rdx }
        }
    } else if rax == 2 {
        Syscall::Panic { addr: rdi, len: rsi }
    } else if rax == 3 {
        Syscall::Sleep { ms: rdi }
    } else if rax == 4 {
        Syscall::Random
    } else if rax == 5 {
        Syscall::FormatInt { dst: rdi, cap: rsi, value: rdx }
    } else if rax == 6 {
        if rdi == 1 {
            Syscall::Face { happy: true }
        } else if rdi == 2 {
            Syscall::Face { happy: false }
        } else {
            Syscall::BadFace
        }
    } else {
        Syscall::Unknown { number: rax }
    }
}

/// Decodes a system call from its registers (the number in `rax`).
pub fn syscall_handler(
    rax: usize,
    rdi: usize,
    rsi: usize,
    rdx: usize,
    r10: usize,
    r8: usize,
    r9: usize,
) -> (res: Syscall)
    ensures
        res == decode_spec(rax, rdi, rsi, rdx, r10, r8),
{
    if rax == 0 {
        Syscall::Read { name: rdi, name_len: rsi, buf: rdx, offset: r10, amount: r8 }
    } else if rax == 1 {
        if rdx == 0 || rdx > MAX_PRINT || rsi == 0 {
            Syscall::BadPrint { addr: rsi, len: rdx }
        } else {
            Syscall::Print { level: rdi, addr: rsi, len: rdx }
        }
    } else if rax == 2 {
        Syscall::Panic { addr: rdi, len: rsi }
    } else if rax == 3 {
        Syscall::Sleep { ms: rdi }
    } else if rax == 4 {
        Syscall::Random
    } else if rax == 5 {
        Syscall::FormatInt { dst: rdi, cap: rsi, value: rdx }
    } else if rax == 6 {
        if rdi == 1 {
            Syscall::Face { happy: true }
        } else if rdi == 2 {
            Syscall::Face { happy: false }
        } else {
            Syscall::BadFace
        }
    } else {
        Syscall::Unknown { number: rax }
    }
}

/// Decodes the request in a saved register set (each register taken as a
/// machine word).
pub fn syscall_from_regs(regs: &Regs) -> (res: Syscall)
    requires
        usize::BITS == 64,
    ensures
        res == decode_spec(
            regs.rax as usize,
            regs.rdi as usize,
            regs.rsi as usize,
            regs.rdx as usize,
            regs.r10 as usize,
            regs.r8 as usize,
        ),
{
    syscall_handler(
        regs.rax as usize,
        regs.rdi as usize,
        regs.rsi as usize,
        regs.rdx as usize,
        regs.r10 as usize,
        regs.r8 as usize,
        regs.r9 as usize,
    )
}

/// The level a print call's `rdi` names (1 plain, 2 info, 3 warning,
/// 4 error, 5 to-do).
pub open spec fn print_level_spec(level: usize) -> Option<PrintLevel> {
    if level == 1 {
        Some(PrintLevel::Plain)
    } else if level == 2 {
        Some(PrintLevel::Info)
    } else if level == 3 {
        Some(PrintLevel::Warning)
    } else if level == 4 {
        Some(PrintLevel::Error)
    } else if level == 5 {
        Some(PrintLevel::Todo)
    } else {
        None
    }
}

/// What a print call shows and answers, given whether its bytes were
/// UTF-8: text that is not UTF-8 is reported as garbage (`None`) and
/// answered with its length; valid text at a known level is printed and
/// answered with its length; an unknown level prints nothing and answers
/// `usize::MAX`.
pub fn print_outcome(level: usize, utf8: bool, len: usize) -> (res: (Option<PrintLevel>, usize))
    ensures
        !utf8 ==> res == (None::<PrintLevel>, len),
        utf8 && print_level_spec(level) is Some ==> res == (print_level_spec(level), len),
        utf8 && print_level_spec(level) is None ==> res == (None::<PrintLevel>, usize::MAX),
{
    if !utf8 {
        return (None, len);
    }
    let l = if level == 1 {
        PrintLevel::Plain
    } else if level == 2 {
        PrintLevel::Info
    } else if level == 3 {
        PrintLevel::Warning
    } else if level == 4 {
        PrintLevel::Error
    } else if level == 5 {
        PrintLevel::Todo
    } else {
        return (None, usize::MAX);
    };
    (Some(l), len)
}

/// The decimal digits of `n`, most significant first.
pub open spec fn decimal(n: nat) -> Seq<u8>
    decreases n,
{
    if n < 10 {
        seq![(48 + n) as u8]
    } else {
        decimal(n / 10).push((48 + n % 10) as u8)
    }
}

/// Formats `n` in decimal, as `format!("{}", n)` does.
pub fn decimal_digits(n: usize) -> (res: Vec<u8>)
    ensures
        res@ == decimal(n as nat),
    decreases n,
{
    if n < 10 {
        let mut v: Vec<u8> = Vec::new();
        v.push((48 + n) as u8);
        assert(v@ =~= decimal(n as nat));
        v
    } else {
        let mut v = decimal_digits(n / 10);
        v.push((48 + n % 10) as u8);
        v
    }
}

/// The bytes a format-integer call writes to the caller's buffer: the
/// digits of `value`, cut to `cap`. Empty means the call answers
/// `usize::MAX`; otherwise it answers the number of bytes.
pub fn format_int_reply(value: usize, cap: usize) -> (res: Vec<u8>)
    ensures
        res@ == decimal(value as nat).take(if cap < decimal(value as nat).len() { cap as int } else { decimal(value as nat).len() as int }),
{
    let digits = decimal_digits(value);
    let n = if digits.len() < cap {
        digits.len()
    } else {
        cap
    };
    let mut out: Vec<u8> = Vec::new();
    let mut k: usize = 0;
    while k < n
        invariant
            n <= digits@.len(),
            k <= n,
            out@ == digits@.take(k as int),
        decreases n - k,
    {
        out.push(digits[k]);
        assert(out@ =~= digits@.take(k + 1));
        k = k + 1;
    }
    out
}

/// The random-number call: up to 25 reads of the generator, the first
/// that succeeds answered; `usize::MAX` when none does.
pub fn random_reply<F: Fn() -> Option<u64>>(rdrand: &F) -> (res: usize)
    requires
        rdrand.requires(()),
        usize::BITS == 64,
    ensures
        res == usize::MAX || exists|r: Option<u64>| #[trigger] rdrand.ensures((), r) && r == Some(res as u64),
{
    let mut i: usize = 0;
    while i < 25
        invariant
            rdrand.requires(()),
            usize::BITS == 64,
        decreases 25 - i,
    {
        let r = rdrand();
        match r {
            Some(v) => {
                assert(rdrand.ensures((), Some(v)));
                return v as usize;
            },
            None => {},
        }
        i = i + 1;
    }
    usize::MAX
}

/// The part of a file that a read call copies: from `offset`, `amount`
/// bytes or up to the end of the file when `amount` is `usize::MAX` or
/// runs past it; `None` when the offset lies past the end.
pub open spec fn read_window(file: Seq<u8>, offset: int, amount: int) -> Option<Seq<u8>> {
    if offset > file.len() {
        None
    } else if amount == usize::MAX || offset + amount > file.len() {
        Some(file.subrange(offset, file.len() as int))
    } else {
        Some(file.subrange(offset, offset + amount))
    }
}

/// A read call: given the named file's bytes (`None` when there is no such
/// file), the bytes to copy into the caller's buffer and the answer, which
/// is their count, or `usize::MAX` with nothing copied when the file is
/// missing or the offset lies past its end.
pub fn read_reply(file: Option<&[u8]>, offset: usize, amount: usize) -> (res: (Vec<u8>, usize))
    ensures
        match file {
            None => res.0@ == Seq::<u8>::empty() && res.1 == usize::MAX,
            Some(f) => match read_window(f@, offset as int, amount as int) {
                None => res.0@ == Seq::<u8>::empty() && res.1 == usize::MAX,
                Some(w) => res.0@ == w && res.1 == w.len(),
            },
        },
{
    let f = match file {
        None => return (Vec::new(), usize::MAX),
        Some(f) => f,
    };
    if offset > f.len() {
        return (Vec::new(), usize::MAX);
    }
    let end = if amount == usize::MAX || amount > f.len() - offset {
        f.len()
    } else {
        offset + amount
    };
    let mut out: Vec<u8> = Vec::new();
    let mut i: usize = offset;
    while i < end
        invariant
            offset <= i <= end <= f@.len(),
            out@ == f@.subrange(offset as int, i as int),
        decreases end - i,
    {
        out.push(f[i]);
        assert(out@ =~= f@.subrange(offset as int, i + 1));
        i = i + 1;
    }
    let n = out.len();
    (out, n)
}

/// What the kernel observed while carrying out a request, where the answer
/// depends on it.
#[derive(Debug, Clone, Copy, PartialEq, Eq, Structural)]
pub enum Observed {
    /// Nothing the answer depends on.
    Nothing,
    /// Whether a print call's bytes were UTF-8.
    Text { utf8: bool },
    /// The random-number call's value.
    Random { value: usize },
    /// A read call's answer (see `read_reply`).
    FileRead { answer: usize },
}

/// The answer a request gets, given what was observed; `None` for a panic,
/// which does not return.
pub open spec fn reply_spec(req: Syscall, seen: Observed) -> Option<usize> {
    match req {
        Syscall::Read { .. } => match seen {
            Observed::FileRead { answer } => Some(answer),
            _ => Some(usize::MAX as usize),
        },
        Syscall::Print { level, len, .. } => match seen {
            Observed::Text { utf8 } => if !utf8 || print_level_spec(level) is Some {
                Some(len)
            } else {
                Some(usize::MAX as usize)
            },
            _ => Some(usize::MAX as usize),
        },
        Syscall::BadPrint { .. } => Some(usize::MAX as usize),
        Syscall::Panic { .. } => None,
        Syscall::Sleep { .. } => Some(0),
        Syscall::Random => match seen {
            Observed::Random { value } => Some(value),
            _ => Some(usize::MAX as usize),
        },
        Syscall::FormatInt { cap, value, .. } => {
            let n = decimal(value as nat).len();
            let k = if cap < n { cap as int } else { n as int };
            if k == 0 { Some(usize::MAX as usize) } else { Some(k as usize) }
        },
        Syscall::Face { .. } => Some(0),
        Syscall::BadFace => Some(usize::MAX as usize),
        Syscall::Unknown { .. } => Some(usize::MAX as usize),
    }
}

/// The answer returned to the caller in `rax`: a refused print, an unknown
/// level, an unknown number, a bad face argument or a zero-size integer
/// buffer answer `usize::MAX`; a print its length, a format-integer call
/// the digits written, sleep and faces 0.
pub fn syscall_reply(req: Syscall, seen: Observed) -> (res: Option<usize>)
    ensures
        res == reply_spec(req, seen),
{
    match req {
        Syscall::Read { .. } => match seen {
            Observed::FileRead { answer } => Some(answer),
            _ => Some(usize::MAX),
        },
        Syscall::Print { level, len, .. } => match seen {
            Observed::Text { utf8 } => {
                let (_, answer) = print_outcome(level, utf8, len);
                Some(answer)
            },
            _ => Some(usize::MAX),
        },
        Syscall::BadPrint { .. } => Some(usize::MAX),
        Syscall::Panic { .. } => None,
        Syscall::Sleep { .. } => Some(0),
        Syscall::Random => match seen {
            Observed::Random { value } => Some(value),
            _ => Some(usize::MAX),
        },
        Syscall::FormatInt { cap, value, .. } => {
            let written = format_int_reply(value, cap);
            if written.len() == 0 {
                Some(usize::MAX)
            } else {
                Some(written.len())
            }
        },
        Syscall::Face { .. } => Some(0),
        Syscall::BadFace => Some(usize::MAX),
        Syscall::Unknown { .. } => Some(usize::MAX),
    }
}

} // verus!
