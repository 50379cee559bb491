//! Physical frames from the boot loader's memory map: the usable regions
//! are walked in 4 KiB steps, and each allocation hands out the next frame.
use vstd::prelude::*;

verus! {

pub const FRAME_SIZE: u64 = 4096;

/// One entry of the memory map.
#[derive(Debug, Clone, Copy)]
pub struct MemoryRegion {
    pub base: u64,
    pub length: u64,
    pub usable: bool,
}

/// How many frames a region gives: one per 4 KiB step from its base up to
/// (not including) its end, for usable regions only.
pub open spec fn frames_in(r: MemoryRegion) -> int {
    if r.usable {
        (r.length + 4095) / 4096
    } else {
        0
    }
}

/// The `n`th frame of the usable regions, in map order: the start of the
/// 4 KiB frame containing the `n`th step address.
pub open spec fn nth_frame(regions: Seq<MemoryRegion>, n: int) -> Option<u64>
    decreases regions.len(),
{
    if regions.len() == 0 || n < 0 {
        None
    } else {
        let r = regions[0];
        let c = frames_in(r);
        if n < c {
            Some((((r.base + 4096 * n) / 4096) * 4096) as u64)
        } else {
            nth_frame(regions.drop_first(), n - c)
        }
    }
}

/// A usable region lies within the 52-bit physical address space.
pub open spec fn regions_ok(regions: Seq<MemoryRegion>) -> bool {
    forall|i: int| 0 <= i < regions.len() && (#[trigger] regions[i]).usable ==> regions[i].base + regions[i].length <= 0x10_0000_0000_0000
}

/// The `n`th usable frame of the map, if there are that many.
pub fn nth_usable_frame(regions: &[MemoryRegion], n: usize) -> (res: Option<u64>)
    requires
        regions_ok(regions@),
    ensures
        res == nth_frame(regions@, n as int),
{
    let mut i: usize = 0;
    let mut left: u64 = n as u64;
    assert(regions@.subrange(0, regions@.len() as int) =~= regions@);
    while i < regions.len()
        invariant
            i <= regions@.len(),
            regions_ok(regions@),
            0 <= left <= n,
            nth_frame(regions@, n as int) == nth_frame(regions@.subrange(i as int, regions@.len() as int), left as int),
        decreases regions@.len() - i,
    {
        let r = regions[i];
        let ghost rest = regions@.subrange(i as int, regions@.len() as int);
        assert(rest[0] == r);
        assert(rest.drop_first() =~= regions@.subrange(i + 1, regions@.len() as int));
        if r.usable {
            assert(r.base + r.length <= 0x10_0000_0000_0000);
            let count: u64 = r.length / 4096 + if r.length % 4096 != 0 {
                1
            } else {
                0
            };
            assert(count == (r.length + 4095) / 4096);
            if left < count {
                let addr = r.base + 4096 * left;
                return Some(addr / 4096 * 4096);
            }
            left = left - count;
        }
        i = i + 1;
    }
    None
}

/// Hands out the usable frames of a memory map one after another.
pub struct BootInfoFrameAllocator {
    regions: Vec<MemoryRegion>,
    next: usize,
}

impl BootInfoFrameAllocator {
    pub closed spec fn regions(&self) -> Seq<MemoryRegion> {
        self.regions@
    }

    /// How many frames were handed out (or asked for) so far.
    pub closed spec fn next(&self) -> nat {
        self.next as nat
    }

    /// An allocator over the memory map `regions`.
    pub fn init(regions: Vec<MemoryRegion>) -> (res: Self)
        ensures
            res.regions() == regions@,
            res.next() == 0,
    {
        BootInfoFrameAllocator { regions, next: 0 }
    }

    /// The next usable frame, or `None` once they are used up; the count
    /// moves on either way.
    pub fn allocate_frame(&mut self) -> (res: Option<u64>)
        requires
            regions_ok(old(self).regions()),
            old(self).next() < usize::MAX,
        ensures
            res == nth_frame(old(self).regions(), old(self).next() as int),
            final(self).regions() == old(self).regions(),
            final(self).next() == old(self).next() + 1,
    {
        let frame = nth_usable_frame(self.regions.as_slice(), self.next);
        self.next = self.next + 1;
        frame
    }
}


/// The four page-table indices of a virtual address: nine bits each, from
/// bit 39 (level 4) down to bit 12 (level 1).
pub fn page_table_indices(addr: u64) -> (res: (u64, u64, u64, u64))
    ensures
        res == ((addr / 0x80_0000_0000) % 512, (addr / 0x4000_0000) % 512, (addr / 0x20_0000) % 512, (addr
            / 0x1000) % 512),
{
    ((addr / 0x80_0000_0000) % 512, (addr / 0x4000_0000) % 512, (addr / 0x20_0000) % 512, (addr / 0x1000)
        % 512)
}

} // verus!
