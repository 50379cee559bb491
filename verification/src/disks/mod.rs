//! Disk controllers: NVMe and AHCI, and the sector interface filesystems use.
pub mod ahci;
pub mod nvme;

use vstd::prelude::*;

verus! {

/// A disk that reads and writes 512-byte sectors on its ports; each call
/// reports whether the transfer succeeded. Nothing is assumed about what a
/// read puts in the buffer.
pub trait SectorDevice {
    fn read_sector(&mut self, port_num: usize, lba: u64, buf: &mut [u8]) -> bool;

    fn write_sector(&mut self, port_num: usize, lba: u64, buf: &[u8]) -> bool;
}

pub fn zeros(n: usize) -> (res: Vec<u8>)
    ensures
        res@ == Seq::new(n as nat, |k: int| 0u8),
{
    let mut v: Vec<u8> = Vec::new();
    while v.len() < n
        invariant
            v@.len() <= n,
            forall|k: int| 0 <= k < v@.len() ==> v@[k] == 0u8,
        decreases n - v@.len(),
    {
        v.push(0);
    }
    assert(v@ =~= Seq::new(n as nat, |k: int| 0u8));
    v
}

/// `dst` with the first `n` bytes of `src` (fewer if it is shorter)
/// written over it from `at` on.
pub open spec fn copied_over(dst: Seq<u8>, at: int, src: Seq<u8>, n: int) -> Seq<u8> {
    let m = if src.len() < n { src.len() as int } else { n };
    Seq::new(dst.len(), |k: int| if at <= k < at + m { src[k - at] } else { dst[k] })
}

/// Copies the first `n` bytes of `src` (fewer if it is shorter) to `dst` at
/// `at`.
pub fn copy_into(dst: &mut Vec<u8>, at: usize, src: &[u8], n: usize)
    requires
        at + n <= old(dst)@.len(),
    ensures
        final(dst)@ == copied_over(old(dst)@, at as int, src@, n as int),
{
    let m = if src.len() < n {
        src.len()
    } else {
        n
    };
    let dlen = dst.len();
    let mut k: usize = 0;
    while k < m
        invariant
            dlen == dst@.len(),
            m <= n,
            m <= src@.len(),
            m == (if src@.len() < n { src@.len() as int } else { n as int }),
            k <= m,
            at + n <= dst@.len(),
            dst@.len() == old(dst)@.len(),
            forall|j: int|
                0 <= j < dst@.len() ==> #[trigger] dst@[j] == (if at <= j < at + k {
                    src@[j - at]
                } else {
                    old(dst)@[j]
                }),
        decreases m - k,
    {
        dst.set(at + k, src[k]);
        k = k + 1;
    }
    assert(dst@ =~= copied_over(old(dst)@, at as int, src@, n as int));
}

/// Reads one sector from `device` at `port` and `lba` into a fresh buffer
/// of `n` zero bytes and, when the device reports success, copies the
/// first `n` bytes of what it left there into `out` at `at`. Returns
/// whether the device succeeded, and the buffer's contents as the device
/// left them.
pub fn read_sector_into<D: SectorDevice>(
    device: &mut D,
    port: usize,
    lba: u64,
    out: &mut Vec<u8>,
    at: usize,
    n: usize,
) -> (res: (bool, Ghost<Seq<u8>>))
    requires
        at + n <= old(out)@.len(),
    ensures
        final(out)@.len() == old(out)@.len(),
        !res.0 ==> final(out)@ == old(out)@,
        res.0 ==> final(out)@ == copied_over(old(out)@, at as int, res.1@, n as int),
        forall|k: int|
            0 <= k < old(out)@.len() && !(at <= k < at + n) ==> #[trigger] final(out)@[k]
                == old(out)@[k],
{
    let mut sector = zeros(n);
    let ok = device.read_sector(port, lba, sector.as_mut_slice());
    let ghost got = sector@;
    if !ok {
        return (false, Ghost(got));
    }
    copy_into(out, at, sector.as_slice(), n);
    (true, Ghost(got))
}

} // verus!
