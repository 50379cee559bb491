//! SFS, the Simple Filesystem (designed by Brendan Trotter): the superblock,
//! the index area and its entries.
use crate::disks::{copied_over, copy_into, read_sector_into, zeros, SectorDevice};
use crate::fs::fat::{
    added, block_run, extends, lemma_added_concat, lemma_block_of, lemma_extends_trans, op_ok, read_image,
    run_done, run_step, DiskOp,
};
use crate::fs::{FSError, FSResult, Filesystem};
use crate::text::{has_prefix, starts_with, str_from_utf8};
use vstd::arithmetic::power2::pow2;
use vstd::prelude::*;
use vstd::string::StringSliceAdditionalSpecFns;
use vstd::utf8::{decode_utf8, valid_utf8};

verus! {

/// Reads eight little-endian bytes; `None` unless exactly eight are given.
fn le_u64(b: &[u8]) -> (res: Option<u64>)
    ensures
        res is Some <==> b@.len() == 8,
{
    if b.len() != 8 {
        return None;
    }
    Some(
        (b[0] as u64) | (b[1] as u64) << 8 | (b[2] as u64) << 16 | (b[3] as u64) << 24 | (
        b[4] as u64) << 32 | (b[5] as u64) << 40 | (b[6] as u64) << 48 | (b[7] as u64) << 56,
    )
}

/// Reads four little-endian bytes; `None` unless exactly four are given.
fn le_u32(b: &[u8]) -> (res: Option<u32>)
    ensures
        res is Some <==> b@.len() == 4,
{
    if b.len() != 4 {
        return None;
    }
    Some((b[0] as u32) | (b[1] as u32) << 8 | (b[2] as u32) << 16 | (b[3] as u32) << 24)
}

/// Takes three bytes; `None` unless exactly three are given.
fn bytes3(b: &[u8]) -> (res: Option<[u8; 3]>)
    ensures
        res is Some <==> b@.len() == 3,
{
    if b.len() != 3 {
        return None;
    }
    Some([b[0], b[1], b[2]])
}

pub struct SuperBlock {
    pub last_alt_time: u64,
    /// Size is in *blocks*, not bytes.
    pub data_area_sz: u64,
    /// Size is in *bytes*, not blocks.
    pub idx_area_sz: u64,
    pub magic: [u8; 3],
    pub ver: u8,
    pub block_count: u64,
    /// Size is in *blocks*, not bytes; it includes the superblock.
    pub rsv_area_sz: u32,
    pub block_sz: u8,
    pub checksum: u8,
}

impl SuperBlock {
    /// Reads the superblock fields from a boot sector image. Fewer than 42
    /// bytes give `None`. Otherwise the timestamp is read from the seven bytes
    /// 0x194..0x19B into an eight-byte integer, which cannot succeed: every
    /// image long enough to be read gives `None` as well.
    pub fn from_bytes(data: &[u8]) -> (res: Option<Self>)
        requires
            data@.len() < 42 || data@.len() >= 0x19B,
        ensures
            res is None,
    {
        if data.len() < 42 {
            return None;
        }
        let last_alt_time = match le_u64(&data[0x194..0x19B]) {
            Some(v) => v,
            None => return None,
        };
        let data_area_sz = match le_u64(&data[0x19C..0x1A3]) {
            Some(v) => v,
            None => return None,
        };
        let idx_area_sz = match le_u64(&data[0x1A4..0x1AB]) {
            Some(v) => v,
            None => return None,
        };
        let magic = match bytes3(&data[0x1AC..0x1AE]) {
            Some(v) => v,
            None => return None,
        };
        let ver = data[0x1AF];
        let block_count = match le_u64(&data[0x1B0..0x1B7]) {
            Some(v) => v,
            None => return None,
        };
        let rsv_area_sz = match le_u32(&data[0x1B8..0x1BB]) {
            Some(v) => v,
            None => return None,
        };
        let block_sz = data[0x1BC];
        let checksum = data[0x1BD];
        Some(
            SuperBlock {
                last_alt_time,
                data_area_sz,
                idx_area_sz,
                magic,
                ver,
                block_count,
                rsv_area_sz,
                block_sz,
                checksum,
            },
        )
    }

    /// Checks the magic (`SFS`) and then compares the block size with
    /// `2 ^ (block_sz + 7)` (an exclusive or), which never equals it: so the
    /// answer is always `false`.
    pub fn validate_superblock(&self) -> (res: bool)
        requires
            self.magic[0] == 0x53 && self.magic[1] == 0x46 && self.magic[2] == 0x53 ==> self.block_sz + 7 <= u8::MAX,
        ensures
            res == superblock_checks(*self),
            !res,
    {
        if self.magic[0] != 0x53 || self.magic[1] != 0x46 || self.magic[2] != 0x53 {
            return false;
        }
        let b = self.block_sz;
        assert(b + 7 <= 255 ==> b != 2u8 ^ ((b + 7) as u8)) by (bit_vector);
        if self.block_sz != 2 ^ (self.block_sz + 7) {
            return false;
        }
        true
    }

    /// The block size in bytes: `2^(block_sz + 7)`.
    pub fn block_sz_bytes(&self) -> (res: usize)
        requires
            self.block_sz + 7 < usize::BITS,
        ensures
            res == pow2((self.block_sz + 7) as nat),
    {
        let shift = self.block_sz as usize + 7;
        proof {
            vstd::bits::lemma_usize_pow2_no_overflow(shift as nat);
            vstd::bits::lemma_usize_shl_is_mul(1, shift);
        }
        1 << shift
    }

    /// The size of the whole filesystem in bytes.
    pub fn total_bytes(&self) -> (res: usize)
        requires
            usize::BITS == 64,
            self.block_sz + 7 < usize::BITS,
            self.block_count * pow2((self.block_sz + 7) as nat) <= usize::MAX,
        ensures
            res == self.block_count * pow2((self.block_sz + 7) as nat),
    {
        let b = self.block_sz_bytes();
        let count = self.block_count as usize;
        assert(count == self.block_count);
        count * b
    }

    /// Where the index area starts: it fills the end of the filesystem.
    pub fn index_area_offset(&self) -> (res: usize)
        requires
            usize::BITS == 64,
            self.block_sz + 7 < usize::BITS,
            self.block_count * pow2((self.block_sz + 7) as nat) <= usize::MAX,
            self.idx_area_sz <= self.block_count * pow2((self.block_sz + 7) as nat),
        ensures
            res == self.block_count * pow2((self.block_sz + 7) as nat) - self.idx_area_sz,
    {
        self.total_bytes() - self.idx_area_sz as usize
    }
}

#[derive(Debug, Copy, Clone)]
pub struct IndexEntry {
    pub name: [u8; 48],
    pub entry_type: u8,
    pub perms: u8,
    pub timestamp: u64,
    pub start_block: u32,
    pub sz_bytes: u16,
}

/// Length of the name: up to its first zero byte, at most 48.
pub open spec fn entry_name_len(name: Seq<u8>, j: int) -> int
    decreases 48 - j,
{
    if j >= 48 || j < 0 || j >= name.len() {
        if j < 0 { 0 } else if j < name.len() { j } else { name.len() as int }
    } else if name[j] == 0 {
        j
    } else {
        entry_name_len(name, j + 1)
    }
}

/// The name an entry reports: its bytes up to the first zero when they are
/// UTF-8, `[INVALID]` otherwise.
pub open spec fn entry_name(e: IndexEntry) -> Seq<char> {
    let bytes = e.name@.take(entry_name_len(e.name@, 0));
    if valid_utf8(bytes) {
        decode_utf8(bytes)
    } else {
        "[INVALID]"@
    }
}

proof fn lemma_entry_name_len(name: Seq<u8>, j: int)
    requires
        name.len() == 48,
        0 <= j <= 48,
    ensures
        j <= entry_name_len(name, j) <= 48,
    decreases 48 - j,
{
    if j < 48 && name[j] != 0 {
        lemma_entry_name_len(name, j + 1);
    }
}

impl IndexEntry {
    pub fn is_valid(&self) -> (res: bool)
        ensures
            res == (self.entry_type != 0),
    {
        self.entry_type != 0
    }

    pub fn name_str(&self) -> (res: &str)
        ensures
            res@ == entry_name(*self),
    {
        proof {
            lemma_entry_name_len(self.name@, 0);
        }
        let mut end: usize = 0;
        while end < 48
            invariant
                end <= 48,
                self.name@.len() == 48,
                entry_name_len(self.name@, 0) == entry_name_len(self.name@, end as int),
            ensures
                end == entry_name_len(self.name@, 0),
            decreases 48 - end,
        {
            if self.name[end] == 0 {
                break;
            }
            end = end + 1;
        }
        let bytes = vstd::slice::slice_subrange(self.name.as_slice(), 0, end);
        assert(bytes@ =~= self.name@.take(end as int));
        match str_from_utf8(bytes) {
            Some(s) => s,
            None => "[INVALID]",
        }
    }
}

/// The table of entries that the index area holds.
pub struct IndexArea {
    pub entries: Vec<IndexEntry>,
}

/// The little-endian bytes of a 16-bit value.
pub open spec fn u16_bytes(v: u16) -> Seq<u8> {
    seq![(v & 0xff) as u8, ((v >> 8u16) & 0xff) as u8]
}

/// The little-endian bytes of a 32-bit value.
pub open spec fn u32_bytes(v: u32) -> Seq<u8> {
    seq![
        (v & 0xff) as u8,
        ((v >> 8u32) & 0xff) as u8,
        ((v >> 16u32) & 0xff) as u8,
        ((v >> 24u32) & 0xff) as u8,
    ]
}

/// The little-endian bytes of a 64-bit value.
pub open spec fn u64_bytes(v: u64) -> Seq<u8> {
    seq![
        (v & 0xff) as u8,
        ((v >> 8u64) & 0xff) as u8,
        ((v >> 16u64) & 0xff) as u8,
        ((v >> 24u64) & 0xff) as u8,
        ((v >> 32u64) & 0xff) as u8,
        ((v >> 40u64) & 0xff) as u8,
        ((v >> 48u64) & 0xff) as u8,
        ((v >> 56u64) & 0xff) as u8,
    ]
}

/// The 64 bytes of an index entry as the packed structure lays them out:
/// name, type, permissions, timestamp, start block, size.
pub open spec fn entry_bytes(e: IndexEntry) -> Seq<u8> {
    e.name@ + seq![e.entry_type, e.perms] + u64_bytes(e.timestamp) + u32_bytes(e.start_block)
        + u16_bytes(e.sz_bytes)
}

fn decode_u16(b0: u8, b1: u8) -> (v: u16)
    ensures
        u16_bytes(v) == seq![b0, b1],
{
    let v = (b0 as u16) | (b1 as u16) << 8u16;
    assert((v & 0xff) as u8 == b0 && ((v >> 8u16) & 0xff) as u8 == b1) by (bit_vector)
        requires
            v == (b0 as u16) | (b1 as u16) << 8u16,
    ;
    v
}

fn decode_u32(b: &[u8], p: usize) -> (v: u32)
    requires
        p + 4 <= b@.len(),
    ensures
        u32_bytes(v) == b@.subrange(p as int, p + 4),
{
    let blen = b.len();
    let (b0, b1, b2, b3) = (b[p], b[p + 1], b[p + 2], b[p + 3]);
    let v = (b0 as u32) | (b1 as u32) << 8u32 | (b2 as u32) << 16u32 | (b3 as u32) << 24u32;
    assert((v & 0xff) as u8 == b0 && ((v >> 8u32) & 0xff) as u8 == b1 && ((v >> 16u32) & 0xff) as u8
        == b2 && ((v >> 24u32) & 0xff) as u8 == b3) by (bit_vector)
        requires
            v == (b0 as u32) | (b1 as u32) << 8u32 | (b2 as u32) << 16u32 | (b3 as u32) << 24u32,
    ;
    assert(u32_bytes(v) =~= b@.subrange(p as int, p + 4));
    v
}

fn decode_u64(b: &[u8], p: usize) -> (v: u64)
    requires
        p + 8 <= b@.len(),
    ensures
        u64_bytes(v) == b@.subrange(p as int, p + 8),
{
    let blen = b.len();
    let lo = decode_u32(b, p) as u64;
    let hi = decode_u32(b, p + 4) as u64;
    let v = lo | hi << 32u64;
    assert(u64_bytes(v) == u32_bytes(lo as u32) + u32_bytes(hi as u32)) by {
        assert(((v & 0xff) as u8 == (lo & 0xff) as u8) && (((v >> 8u64) & 0xff) as u8 == ((lo
            >> 8u64) & 0xff) as u8) && (((v >> 16u64) & 0xff) as u8 == ((lo >> 16u64) & 0xff) as u8)
            && (((v >> 24u64) & 0xff) as u8 == ((lo >> 24u64) & 0xff) as u8) && (((v >> 32u64)
            & 0xff) as u8 == (hi & 0xff) as u8) && (((v >> 40u64) & 0xff) as u8 == ((hi >> 8u64)
            & 0xff) as u8) && (((v >> 48u64) & 0xff) as u8 == ((hi >> 16u64) & 0xff) as u8) && (((v
            >> 56u64) & 0xff) as u8 == ((hi >> 24u64) & 0xff) as u8)) by (bit_vector)
            requires
                v == lo | hi << 32u64,
                lo <= 0xFFFF_FFFF,
                hi <= 0xFFFF_FFFF,
        ;
        assert(((lo as u32) & 0xff) as u8 == (lo & 0xff) as u8 && (((lo as u32) >> 8u32) & 0xff) as u8
            == ((lo >> 8u64) & 0xff) as u8 && (((lo as u32) >> 16u32) & 0xff) as u8 == ((lo
            >> 16u64) & 0xff) as u8 && (((lo as u32) >> 24u32) & 0xff) as u8 == ((lo >> 24u64)
            & 0xff) as u8) by (bit_vector)
            requires
                lo <= 0xFFFF_FFFF,
        ;
        assert(((hi as u32) & 0xff) as u8 == (hi & 0xff) as u8 && (((hi as u32) >> 8u32) & 0xff) as u8
            == ((hi >> 8u64) & 0xff) as u8 && (((hi as u32) >> 16u32) & 0xff) as u8 == ((hi
            >> 16u64) & 0xff) as u8 && (((hi as u32) >> 24u32) & 0xff) as u8 == ((hi >> 24u64)
            & 0xff) as u8) by (bit_vector)
            requires
                hi <= 0xFFFF_FFFF,
        ;
        assert(u64_bytes(v) =~= u32_bytes(lo as u32) + u32_bytes(hi as u32));
    }
    assert(b@.subrange(p as int, p + 8) =~= b@.subrange(p as int, p + 4) + b@.subrange(
        p + 4,
        p + 8,
    ));
    v
}

/// Reads the 64-byte entry at `off`.
fn parse_entry(data: &[u8], off: usize) -> (e: IndexEntry)
    requires
        off + 64 <= data@.len(),
    ensures
        entry_bytes(e) == data@.subrange(off as int, off + 64),
{
    let dlen = data.len();
    let mut name = [0u8; 48];
    let mut k: usize = 0;
    while k < 48
        invariant
            off + 64 <= data@.len(),
            dlen == data@.len(),
            k <= 48,
            forall|j: int| 0 <= j < k ==> name@[j] == data@[off + j],
        decreases 48 - k,
    {
        name[k] = data[off + k];
        k = k + 1;
    }
    assert(name@ =~= data@.subrange(off as int, off + 48));
    let e = IndexEntry {
        name,
        entry_type: data[off + 48],
        perms: data[off + 49],
        timestamp: decode_u64(data, off + 50),
        start_block: decode_u32(data, off + 58),
        sz_bytes: decode_u16(data[off + 62], data[off + 63]),
    };
    assert(entry_bytes(e) =~= data@.subrange(off as int, off + 64));
    e
}

/// Writes the 64 bytes of `e` into `buf` at `off`.
fn store_entry(buf: &mut Vec<u8>, off: usize, e: &IndexEntry)
    requires
        off + 64 <= old(buf)@.len(),
    ensures
        final(buf)@ == old(buf)@.subrange(0, off as int) + entry_bytes(*e) + old(buf)@.subrange(
            off + 64,
            old(buf)@.len() as int,
        ),
{
    let bytes = entry_bytes_exec(e);
    let blen = buf.len();
    let mut k: usize = 0;
    while k < 64
        invariant
            off + 64 <= blen,
            blen == buf@.len(),
            bytes@ == entry_bytes(*e),
            k <= 64,
            forall|p: int|
                0 <= p < blen ==> buf@[p] == (if off <= p < off + k {
                    bytes@[p - off]
                } else {
                    old(buf)@[p]
                }),
        decreases 64 - k,
    {
        buf.set(off + k, bytes[k]);
        k = k + 1;
    }
    assert(buf@ =~= old(buf)@.subrange(0, off as int) + entry_bytes(*e) + old(buf)@.subrange(
        off + 64,
        old(buf)@.len() as int,
    ));
}

fn entry_bytes_exec(e: &IndexEntry) -> (res: [u8; 64])
    ensures
        res@ == entry_bytes(*e),
{
    let mut out = [0u8; 64];
    let mut k: usize = 0;
    while k < 48
        invariant
            k <= 48,
            forall|j: int| 0 <= j < k ==> out@[j] == e.name@[j],
        decreases 48 - k,
    {
        out[k] = e.name[k];
        k = k + 1;
    }
    out[48] = e.entry_type;
    out[49] = e.perms;
    let t = e.timestamp;
    out[50] = (t & 0xff) as u8;
    out[51] = ((t >> 8u64) & 0xff) as u8;
    out[52] = ((t >> 16u64) & 0xff) as u8;
    out[53] = ((t >> 24u64) & 0xff) as u8;
    out[54] = ((t >> 32u64) & 0xff) as u8;
    out[55] = ((t >> 40u64) & 0xff) as u8;
    out[56] = ((t >> 48u64) & 0xff) as u8;
    out[57] = ((t >> 56u64) & 0xff) as u8;
    let s = e.start_block;
    out[58] = (s & 0xff) as u8;
    out[59] = ((s >> 8u32) & 0xff) as u8;
    out[60] = ((s >> 16u32) & 0xff) as u8;
    out[61] = ((s >> 24u32) & 0xff) as u8;
    let z = e.sz_bytes;
    out[62] = (z & 0xff) as u8;
    out[63] = ((z >> 8u16) & 0xff) as u8;
    assert(out@ =~= entry_bytes(*e));
    out
}

/// Two entries with the same bytes are the same entry.
pub proof fn lemma_entry_bytes_injective(a: IndexEntry, b: IndexEntry)
    requires
        entry_bytes(a) == entry_bytes(b),
    ensures
        a == b,
{
    let ba = entry_bytes(a);
    let bb = entry_bytes(b);
    assert(a.name@ =~= ba.subrange(0, 48));
    assert(b.name@ =~= bb.subrange(0, 48));
    assert(a.name@ == b.name@);
    assert(a.name =~= b.name);
    assert(a.entry_type == ba[48] && b.entry_type == bb[48]);
    assert(a.perms == ba[49] && b.perms == bb[49]);
    assert(u64_bytes(a.timestamp) =~= ba.subrange(50, 58));
    assert(u64_bytes(b.timestamp) =~= bb.subrange(50, 58));
    lemma_u64_bytes_injective(a.timestamp, b.timestamp);
    assert(u32_bytes(a.start_block) =~= ba.subrange(58, 62));
    assert(u32_bytes(b.start_block) =~= bb.subrange(58, 62));
    lemma_u32_bytes_injective(a.start_block, b.start_block);
    assert(u16_bytes(a.sz_bytes) =~= ba.subrange(62, 64));
    assert(u16_bytes(b.sz_bytes) =~= bb.subrange(62, 64));
    lemma_u16_bytes_injective(a.sz_bytes, b.sz_bytes);
}

proof fn lemma_u16_bytes_injective(x: u16, y: u16)
    requires
        u16_bytes(x) == u16_bytes(y),
    ensures
        x == y,
{
    assert(u16_bytes(x)[0] == u16_bytes(y)[0] && u16_bytes(x)[1] == u16_bytes(y)[1]);
    assert(((x & 0xff) as u8 == (y & 0xff) as u8 && ((x >> 8u16) & 0xff) as u8 == ((y >> 8u16)
        & 0xff) as u8) ==> x == y) by (bit_vector);
}

proof fn lemma_u32_bytes_injective(x: u32, y: u32)
    requires
        u32_bytes(x) == u32_bytes(y),
    ensures
        x == y,
{
    assert(u32_bytes(x)[0] == u32_bytes(y)[0] && u32_bytes(x)[1] == u32_bytes(y)[1] && u32_bytes(
        x,
    )[2] == u32_bytes(y)[2] && u32_bytes(x)[3] == u32_bytes(y)[3]);
    assert(((x & 0xff) as u8 == (y & 0xff) as u8 && ((x >> 8u32) & 0xff) as u8 == ((y >> 8u32)
        & 0xff) as u8 && ((x >> 16u32) & 0xff) as u8 == ((y >> 16u32) & 0xff) as u8 && ((x
        >> 24u32) & 0xff) as u8 == ((y >> 24u32) & 0xff) as u8) ==> x == y) by (bit_vector);
}

proof fn lemma_u64_bytes_injective(x: u64, y: u64)
    requires
        u64_bytes(x) == u64_bytes(y),
    ensures
        x == y,
{
    let bx = u64_bytes(x);
    let by = u64_bytes(y);
    assert(bx[0] == by[0] && bx[1] == by[1] && bx[2] == by[2] && bx[3] == by[3] && bx[4] == by[4]
        && bx[5] == by[5] && bx[6] == by[6] && bx[7] == by[7]);
    assert(((x & 0xff) as u8 == (y & 0xff) as u8 && ((x >> 8u64) & 0xff) as u8 == ((y >> 8u64)
        & 0xff) as u8 && ((x >> 16u64) & 0xff) as u8 == ((y >> 16u64) & 0xff) as u8 && ((x
        >> 24u64) & 0xff) as u8 == ((y >> 24u64) & 0xff) as u8 && ((x >> 32u64) & 0xff) as u8
        == ((y >> 32u64) & 0xff) as u8 && ((x >> 40u64) & 0xff) as u8 == ((y >> 40u64) & 0xff) as u8
        && ((x >> 48u64) & 0xff) as u8 == ((y >> 48u64) & 0xff) as u8 && ((x >> 56u64) & 0xff) as u8
        == ((y >> 56u64) & 0xff) as u8) ==> x == y) by (bit_vector);
}

/// Whether an entry is a file or directory that occupies data blocks.
pub open spec fn occupies_blocks(e: IndexEntry) -> bool {
    e.entry_type != 0 && 0x11 <= e.entry_type <= 0x12
}

/// Number of blocks an entry's bytes take at `file_block_len` bytes a block.
pub open spec fn entry_blocks(e: IndexEntry, file_block_len: int) -> int {
    (e.sz_bytes + file_block_len - 1) / file_block_len
}

/// Whether `block` lies in the blocks an entry occupies.
pub open spec fn entry_covers(e: IndexEntry, block: int, file_block_len: int) -> bool {
    occupies_blocks(e) && e.start_block <= block < e.start_block + entry_blocks(
        e,
        file_block_len,
    )
}

/// `entries` are the 64-byte entries that `data` holds, in order.
pub open spec fn parsed_from(entries: Seq<IndexEntry>, data: Seq<u8>) -> bool {
    &&& entries.len() == data.len() / 64
    &&& forall|i: int|
        0 <= i < entries.len() ==> #[trigger] entry_bytes(entries[i]) == data.subrange(
            64 * i,
            64 * i + 64,
        )
}

/// Entry `i` is valid and named `name`.
pub open spec fn named_at(entries: Seq<IndexEntry>, name: Seq<char>, i: int) -> bool {
    entries[i].entry_type != 0 && entry_name(entries[i]) == name
}

/// The first valid entry from `i` on named `name`, or -1.
pub open spec fn first_named_from(entries: Seq<IndexEntry>, name: Seq<char>, i: int) -> int
    decreases entries.len() - i,
{
    if i < 0 || i >= entries.len() {
        -1
    } else if named_at(entries, name, i) {
        i
    } else {
        first_named_from(entries, name, i + 1)
    }
}

pub open spec fn first_named(entries: Seq<IndexEntry>, name: Seq<char>) -> int {
    first_named_from(entries, name, 0)
}

impl IndexArea {
    /// Splits the bytes into 64-byte entries. The length check tests bit 6
    /// of the length (`len & 64`), refusing lengths with that bit set.
    pub fn from_bytes(data: &[u8]) -> (res: Option<Self>)
        ensures
            res is Some <==> (data@.len() as u64) & 64 == 0,
            res matches Some(a) ==> parsed_from(a.entries@, data@),
    {
        if (data.len() as u64) & 64 != 0 {
            return None;
        }
        let count = data.len() / 64;
        let mut entries: Vec<IndexEntry> = Vec::new();
        let mut i: usize = 0;
        while i < count
            invariant
                count == data@.len() / 64,
                i <= count,
                entries@.len() == i,
                forall|j: int|
                    0 <= j < i ==> #[trigger] entry_bytes(entries@[j]) == data@.subrange(
                        64 * j,
                        64 * j + 64,
                    ),
            decreases count - i,
        {
            let len = data.len();
            assert(64 * i + 64 <= len) by (nonlinear_arith)
                requires
                    i < count,
                    count == len / 64,
            ;
            let e = parse_entry(data, 64 * i);
            entries.push(e);
            i = i + 1;
        }
        Some(Self { entries })
    }

    /// The first valid entry whose name is `name`.
    pub fn find_by_name(&self, name: &str) -> (res: Option<&IndexEntry>)
        ensures
            match res {
                Some(e) => exists|i: int|
                    0 <= i < self.entries@.len() && self.entries@[i] == *e && e.entry_type != 0
                        && entry_name(*e) == name@ && forall|j: int|
                        0 <= j < i ==> !(self.entries@[j].entry_type != 0 && entry_name(
                            #[trigger] self.entries@[j],
                        ) == name@),
                None => forall|j: int|
                    0 <= j < self.entries@.len() ==> !(self.entries@[j].entry_type != 0
                        && entry_name(#[trigger] self.entries@[j]) == name@),
            },
            match res {
                Some(e) => first_named(self.entries@, name@) >= 0 && *e == self.entries@[first_named(
                    self.entries@,
                    name@,
                )],
                None => first_named(self.entries@, name@) == -1,
            },
    {
        let mut i: usize = 0;
        while i < self.entries.len()
            invariant
                i <= self.entries@.len(),
                first_named(self.entries@, name@) == first_named_from(self.entries@, name@, i as int),
                forall|j: int|
                    0 <= j < i ==> !(self.entries@[j].entry_type != 0 && entry_name(
                        #[trigger] self.entries@[j],
                    ) == name@),
            decreases self.entries@.len() - i,
        {
            let e = &self.entries[i];
            if e.is_valid() && crate::text::str_eq(e.name_str(), name) {
                return Some(e);
            }
            i = i + 1;
        }
        None
    }

    pub fn insert_entry(&mut self, entry: &IndexEntry) -> (res: FSResult<()>)
        ensures
            res is Ok,
            final(self).entries@ == old(self).entries@.push(*entry),
    {
        self.entries.push(*entry);
        Ok(())
    }

    /// Whether no file or directory entry occupies `block`. The block count
    /// of each entry is its size rounded up to whole `file_block_len` blocks.
    pub fn is_block_free(&self, block: u64, file_block_len: u64) -> (res: bool)
        requires
            file_block_len > 0,
            forall|i: int|
                0 <= i < self.entries@.len() && occupies_blocks(#[trigger] self.entries@[i])
                    && (forall|j: int|
                    0 <= j < i ==> !entry_covers(self.entries@[j], block as int, file_block_len as int))
                    ==> self.entries@[i].sz_bytes + file_block_len - 1 <= u64::MAX,
        ensures
            res == !exists|i: int|
                0 <= i < self.entries@.len() && entry_covers(
                    #[trigger] self.entries@[i],
                    block as int,
                    file_block_len as int,
                ),
    {
        let mut i: usize = 0;
        while i < self.entries.len()
            invariant
                i <= self.entries@.len(),
                file_block_len > 0,
                forall|j: int|
                    0 <= j < self.entries@.len() && occupies_blocks(#[trigger] self.entries@[j])
                        && (forall|k: int|
                        0 <= k < j ==> !entry_covers(self.entries@[k], block as int, file_block_len as int))
                        ==> self.entries@[j].sz_bytes + file_block_len - 1 <= u64::MAX,
                forall|j: int|
                    0 <= j < i ==> !entry_covers(
                        #[trigger] self.entries@[j],
                        block as int,
                        file_block_len as int,
                    ),
            decreases self.entries@.len() - i,
        {
            let entry = &self.entries[i];
            if !entry.is_valid() || entry.entry_type < 0x11 || entry.entry_type > 0x12 {
                i = i + 1;
                continue;
            }
            assert(occupies_blocks(self.entries@[i as int]));
            assert(forall|k: int|
                0 <= k < i ==> !entry_covers(self.entries@[k], block as int, file_block_len as int));
            assert(self.entries@[i as int].sz_bytes + file_block_len - 1 <= u64::MAX);
            let entry_start = entry.start_block as u64;
            let entry_len = entry.sz_bytes as u64;
            assert((entry_len + file_block_len - 1) / (file_block_len as int) <= 65536)
                by (nonlinear_arith)
                requires
                    entry_len <= 65535,
                    file_block_len >= 1,
            ;
            let entry_blocks = (entry_len + (file_block_len - 1)) / file_block_len;
            if block >= entry_start && block < entry_start + entry_blocks {
                return false;
            }
            i = i + 1;
        }
        true
    }
}

/// The size of the filesystem in bytes.
pub open spec fn fs_bytes(sb: SuperBlock) -> int {
    sb.block_count * pow2((sb.block_sz + 7) as nat)
}

/// A superblock whose areas the driver's arithmetic can address: block
/// sizes below 2^64, a filesystem (plus one sector) that fits in the address
/// space and an index area inside it.
pub open spec fn layout_ok(sb: SuperBlock) -> bool {
    &&& sb.block_sz + 7 < 64
    &&& fs_bytes(sb) + 511 <= u64::MAX
    &&& sb.idx_area_sz <= fs_bytes(sb)
}

impl SuperBlock {
    /// Whether the superblock's areas can be addressed (see `layout_ok`).
    pub fn layout_supported(&self) -> (res: bool)
        requires
            usize::BITS == 64,
        ensures
            res == layout_ok(*self),
    {
        if self.block_sz as u32 + 7 >= 64 {
            return false;
        }
        let bs = self.block_sz_bytes() as u64;
        match self.block_count.checked_mul(bs) {
            None => false,
            Some(total) => total <= u64::MAX - 511 && self.idx_area_sz <= total,
        }
    }
}

/// The bytes `write_index` lays out for `len` bytes of index: each entry's
/// 64 bytes in turn, zeros after them.
pub open spec fn index_bytes(entries: Seq<IndexEntry>, len: int) -> Seq<u8> {
    Seq::new(
        len as nat,
        |p: int|
            if p / 64 < entries.len() {
                entry_bytes(entries[p / 64])[p % 64]
            } else {
                0u8
            },
    )
}

/// Lays out the entries of an index area into `len` bytes.
pub fn index_image(entries: &Vec<IndexEntry>, len: usize) -> (res: Vec<u8>)
    requires
        len % 64 == 0,
    ensures
        res@ == index_bytes(entries@, len as int),
{
    let mut buf = zeros(len);
    let n = entries.len();
    let mut i: usize = 0;
    while i < n
        invariant
            len % 64 == 0,
            n == entries@.len(),
            buf@.len() == len,
            i <= n,
            forall|p: int|
                0 <= p < len ==> buf@[p] == (if p / 64 < i && p / 64 < entries@.len() {
                    entry_bytes(entries@[p / 64])[p % 64]
                } else {
                    0u8
                }),
        decreases n - i,
    {
        if i < len / 64 {
            assert(64 * i + 64 <= len) by (nonlinear_arith)
                requires
                    i < len / 64,
                    len % 64 == 0,
            ;
            let ghost before = buf@;
            store_entry(&mut buf, 64 * i, &entries[i]);
            assert forall|p: int| 0 <= p < len implies buf@[p] == (if p / 64 < i + 1 && p / 64
                < entries@.len() {
                entry_bytes(entries@[p / 64])[p % 64]
            } else {
                0u8
            }) by {
                if 64 * i <= p < 64 * i + 64 {
                    assert(p / 64 == i as int && p % 64 == p - 64 * i) by (nonlinear_arith)
                        requires
                            64 * i <= p < 64 * i + 64,
                    ;
                } else {
                    assert(p / 64 != i as int) by (nonlinear_arith)
                        requires
                            !(64 * i <= p < 64 * i + 64),
                    ;
                }
            }
        } else {
            assert forall|p: int| 0 <= p < len implies buf@[p] == (if p / 64 < i + 1 && p / 64
                < entries@.len() {
                entry_bytes(entries@[p / 64])[p % 64]
            } else {
                0u8
            }) by {
                assert(p / 64 < len / 64) by (nonlinear_arith)
                    requires
                        0 <= p < len,
                        len % 64 == 0,
                ;
            }
        }
        i = i + 1;
    }
    assert(buf@ =~= index_bytes(entries@, len as int));
    buf
}

/// Law: an index laid out by `index_image` (exactly as long as its entries)
/// reads back, through `IndexArea::from_bytes`, as the same entries.
pub proof fn lemma_index_roundtrip(entries: Seq<IndexEntry>, parsed: Seq<IndexEntry>)
    requires
        parsed_from(parsed, index_bytes(entries, 64 * entries.len() as int)),
    ensures
        parsed == entries,
{
    let data = index_bytes(entries, 64 * entries.len() as int);
    assert(parsed.len() == entries.len()) by (nonlinear_arith)
        requires
            parsed.len() == data.len() / 64,
            data.len() == 64 * entries.len(),
    ;
    assert forall|i: int| 0 <= i < entries.len() implies parsed[i] == entries[i] by {
        assert(entry_bytes(parsed[i]) == data.subrange(64 * i, 64 * i + 64));
        assert(data.subrange(64 * i, 64 * i + 64) =~= entry_bytes(entries[i])) by {
            assert forall|q: int| 0 <= q < 64 implies data.subrange(64 * i, 64 * i + 64)[q]
                == entry_bytes(entries[i])[q] by {
                assert((64 * i + q) / 64 == i && (64 * i + q) % 64 == q) by (nonlinear_arith)
                    requires
                        0 <= q < 64,
                ;
                assert(64 * i + q < 64 * entries.len()) by (nonlinear_arith)
                    requires
                        0 <= q < 64,
                        i < entries.len(),
                ;
            }
        }
        lemma_entry_bytes_injective(parsed[i], entries[i]);
    }
    assert(parsed =~= entries);
}

/// `entries` are what some index area of the superblock's size holds.
pub open spec fn read_index_of(sb: SuperBlock, entries: Seq<IndexEntry>) -> bool {
    exists|data: Seq<u8>|
        #![trigger parsed_from(entries, data)]
        data.len() == sb.idx_area_sz && parsed_from(entries, data)
}

/// An SFS volume on a sector device.
pub struct SFS<'a, D: SectorDevice> {
    device: &'a mut D,
    superblock: &'a mut SuperBlock,
    mounted: bool,
    index_area: Option<IndexArea>,
    ops: Ghost<Seq<DiskOp>>,
}

/// What a volume knows: whether it is mounted, its superblock, and the
/// entries of its index area once loaded.
pub struct SfsState {
    pub mounted: bool,
    pub superblock: SuperBlock,
    pub index: Option<Seq<IndexEntry>>,
}

impl<'a, D: SectorDevice> View for SFS<'a, D> {
    type V = SfsState;

    closed spec fn view(&self) -> SfsState {
        SfsState {
            mounted: self.mounted,
            superblock: *self.superblock,
            index: match self.index_area {
                Some(a) => Some(a.entries@),
                None => None,
            },
        }
    }
}

/// Where the index area's sectors start and end, and its offset.
pub open spec fn index_offset(sb: SuperBlock) -> int {
    fs_bytes(sb) - sb.idx_area_sz
}

/// The first sector that holds the index area.
pub open spec fn index_first_sector(sb: SuperBlock) -> int {
    index_offset(sb) / 512
}

/// How many sectors hold the index area (up to the end of the filesystem).
pub open spec fn index_sector_count(sb: SuperBlock) -> int {
    (fs_bytes(sb) + 511) / 512 - index_first_sector(sb)
}

/// The `k`-th 512-byte piece of `data` as a sector: the piece, then zeros.
pub open spec fn data_sector(data: Seq<u8>, k: int) -> Seq<u8> {
    let end = if data.len() - 512 * k < 512 { data.len() as int } else { 512 * k + 512 };
    copied_over(Seq::new(512, |j: int| 0u8), 0, data.subrange(512 * k, end), end - 512 * k)
}

/// The data writes of a new file: one successful 512-byte write (port 0)
/// of each piece of `data` (see `data_sector`) to consecutive sectors from
/// `first`, in order.
pub open spec fn sfs_data_writes(run: Seq<DiskOp>, first: int, data: Seq<u8>) -> bool {
    &&& run.len() == (data.len() + 511) / 512
    &&& forall|k: int|
        0 <= k < run.len() ==> #[trigger] run[k] == DiskOp::Write(0, (first + k) as u64, data_sector(data, k), true)
}

/// Every transfer but the last succeeded.
pub open spec fn no_failed_read_before_last(run: Seq<DiskOp>) -> bool {
    forall|k: int| 0 <= k < run.len() - 1 ==> op_ok(#[trigger] run[k])
}

/// Where a file's bytes lie: its byte offset (its first block times the
/// block size), the first sector holding it, the sector after its end, and
/// the length of the buffer the driver gathers the sectors in (the end
/// sector minus 512 times the first sector).
pub open spec fn sfs_file_span(sb: SuperBlock, e: IndexEntry) -> (int, int, int, int) {
    let off = e.start_block * block_bytes(sb);
    let first = off / 512;
    let end = (off + e.sz_bytes + 511) / 512;
    (off, first, end, end - first * 512)
}

/// A file read that succeeded: one 512-byte read (port 0) of each sector
/// from the first holding the file to its end, in order, all successful,
/// gathered from the front of a zeroed buffer; `n` bytes of that buffer
/// from the file's offset within its first sector are at the front of the
/// caller's buffer, the rest unchanged.
pub open spec fn sfs_file_read(sb: SuperBlock, e: IndexEntry, run: Seq<DiskOp>, before: Seq<u8>, after: Seq<u8>, n: int) -> bool {
    let (off, first, end, flen) = sfs_file_span(sb, e);
    &&& block_run(run, false, first, end - first, 512, Seq::empty())
    &&& run_done(run, end - first)
    &&& after == copied_over(
        before,
        0,
        read_image(run, 512, Seq::new(flen as nat, |k: int| 0u8)).skip(off % 512),
        n,
    )
}

/// Loading the index area: one 512-byte read (port 0) per sector of the
/// range that holds it, in order, ending at the first that fails, which
/// reports `ReadError`; once all succeeded, the area's bytes are cut from
/// the sectors read and split into entries (`BadFS` for a length with bit 6
/// set).
pub open spec fn index_read(sb: SuperBlock, run: Seq<DiskOp>, res: FSResult<IndexArea>) -> bool {
    let first = index_first_sector(sb);
    let count = index_sector_count(sb);
    let o = index_offset(sb) % 512;
    &&& block_run(run, false, first, count, 512, Seq::empty())
    &&& if !run_done(run, count) {
        res == Err::<IndexArea, FSError>(FSError::ReadError)
    } else {
        let data = read_image(run, 512, Seq::new((512 * count) as nat, |k: int| 0u8)).subrange(
            o,
            o + sb.idx_area_sz,
        );
        if (sb.idx_area_sz as u64) & 64 != 0 {
            res == Err::<IndexArea, FSError>(FSError::BadFS)
        } else {
            res matches Ok(a) && parsed_from(a.entries@, data)
        }
    }
}

impl<'a, D: SectorDevice> SFS<'a, D> {
    pub fn new(device: &'a mut D, superblock: &'a mut SuperBlock) -> (res: Self)
        ensures
            !res@.mounted,
            res@.index is None,
            res@.superblock == *old(superblock),
    {
        SFS { device, superblock, mounted: false, index_area: None, ops: Ghost(Seq::empty()) }
    }

    /// The sector transfers made so far, in order.
    pub closed spec fn ops(&self) -> Seq<DiskOp> {
        self.ops@
    }

    /// Reads one sector of `n` bytes at `port` and `lba` into `out` at
    /// `at`, and records the transfer with the bytes that landed there.
    fn read_into(&mut self, port: usize, lba: u64, out: &mut Vec<u8>, at: usize, n: usize) -> (ok: bool)
        requires
            at + n <= old(out)@.len(),
        ensures
            final(self)@ == old(self)@,
            final(self).ops() == old(self).ops().push(
                DiskOp::Read(port, lba, final(out)@.subrange(at as int, at + n), ok),
            ),
            final(out)@.len() == old(out)@.len(),
            !ok ==> final(out)@ == old(out)@,
            forall|k: int|
                0 <= k < old(out)@.len() && !(at <= k < at + n) ==> #[trigger] final(out)@[k]
                    == old(out)@[k],
    {
        let (ok, _got) = read_sector_into(self.device, port, lba, out, at, n);
        proof {
            self.ops@ = self.ops@.push(DiskOp::Read(port, lba, out@.subrange(at as int, at + n), ok));
        }
        ok
    }

    /// Writes the sector in `buf` at `port` and `lba`, and records the
    /// transfer.
    fn write_to(&mut self, port: usize, lba: u64, buf: &[u8]) -> (ok: bool)
        ensures
            final(self)@ == old(self)@,
            final(self).ops() == old(self).ops().push(DiskOp::Write(port, lba, buf@, ok)),
    {
        let ok = self.device.write_sector(port, lba, buf);
        proof {
            self.ops@ = self.ops@.push(DiskOp::Write(port, lba, buf@, ok));
        }
        ok
    }

    /// The sector range that holds the index area, and the area's offset
    /// within its first sector.
    fn index_sectors(&self) -> (res: (usize, usize, usize, usize))
        requires
            usize::BITS == 64,
            layout_ok(self@.superblock),
        ensures
            res.0 == index_offset(self@.superblock) / 512,
            res.1 == (fs_bytes(self@.superblock) + 511) / 512 - res.0,
            res.2 == index_offset(self@.superblock) % 512,
            res.3 == self@.superblock.idx_area_sz,
            res.2 + res.3 <= 512 * res.1,
            512 * res.1 <= u64::MAX,
    {
        proof {
            vstd::arithmetic::power2::lemma_pow2_strictly_increases(
                (self.superblock.block_sz + 7) as nat,
                64,
            );
            vstd::arithmetic::power2::lemma2_to64();
        }
        let index_offset = self.superblock.index_area_offset();
        let index_size = self.superblock.idx_area_sz as usize;
        let sector_start = index_offset / 512;
        let sector_end = (index_offset + index_size + 511) / 512;
        let num_sectors = sector_end - sector_start;
        let o = index_offset % 512;
        assert(o + index_size <= 512 * num_sectors) by (nonlinear_arith)
            requires
                sector_start == index_offset / 512,
                o == index_offset % 512,
                sector_end == (index_offset + index_size + 511) / 512,
                num_sectors == sector_end - sector_start,
        ;
        assert(512 * num_sectors <= index_offset + index_size + 511) by (nonlinear_arith)
            requires
                sector_end == (index_offset + index_size + 511) / 512,
                num_sectors <= sector_end,
        ;
        (sector_start, num_sectors, o, index_size)
    }

    /// Reads the index area from the end of the filesystem and splits it
    /// into entries.
    pub fn load_index_area(&mut self) -> (res: FSResult<IndexArea>)
        requires
            usize::BITS == 64,
            layout_ok(old(self)@.superblock),
        ensures
            final(self)@ == old(self)@,
            extends(old(self).ops(), final(self).ops()),
            index_read(old(self)@.superblock, added(old(self).ops(), final(self).ops()), res),
            res matches Err(e) ==> e == FSError::ReadError || e == FSError::BadFS,
            (old(self)@.superblock.idx_area_sz as u64) & 64 != 0 ==> res is Err,
            res == Err::<IndexArea, FSError>(FSError::BadFS) ==> (old(self)@.superblock.idx_area_sz as u64)
                & 64 != 0,
            res matches Ok(a) ==> read_index_of(old(self)@.superblock, a.entries@),
    {
        let (sector_start, num_sectors, o, index_size) = self.index_sectors();
        assert(sector_start <= u64::MAX / 512);
        let mut buf = zeros(num_sectors * 512);
        let ghost base = buf@;
        let ghost start = self.ops();
        proof {
            assert(start.take(start.len() as int) =~= start);
            assert(added(start, self.ops()) =~= Seq::<DiskOp>::empty());
            assert(buf@ =~= read_image(Seq::<DiskOp>::empty(), 512, base));
        }
        let mut i: usize = 0;
        while i < num_sectors
            invariant
                self@ == old(self)@,
                start == old(self).ops(),
                usize::BITS == 64,
                buf@.len() == num_sectors * 512,
                base.len() == num_sectors * 512,
                512 * num_sectors <= u64::MAX,
                sector_start <= u64::MAX / 512,
                sector_start == index_first_sector(old(self)@.superblock),
                num_sectors == index_sector_count(old(self)@.superblock),
                i <= num_sectors,
                extends(start, self.ops()),
                added(start, self.ops()).len() == i,
                forall|k: int|
                    0 <= k < i ==> #[trigger] run_step(
                        added(start, self.ops())[k],
                        false,
                        sector_start as int,
                        512,
                        Seq::empty(),
                        k,
                    ),
                forall|k: int| 0 <= k < i ==> op_ok(#[trigger] added(start, self.ops())[k]),
                buf@ == read_image(added(start, self.ops()), 512, base),
            decreases num_sectors - i,
        {
            assert(i * 512 + 512 <= num_sectors * 512) by (nonlinear_arith)
                requires
                    i < num_sectors,
            ;
            let offset = i * 512;
            let ghost run0 = added(start, self.ops());
            let ghost buf0 = buf@;
            let ok = self.read_into(0, (sector_start + i) as u64, &mut buf, offset, 512);
            proof {
                let run1 = added(start, self.ops());
                let op = DiskOp::Read(0, (sector_start + i) as u64, buf@.subrange(offset as int, offset + 512), ok);
                assert(run1 =~= run0.push(op));
                assert(self.ops().take(start.len() as int) =~= start);
                assert forall|idx: int| 0 <= idx < buf@.len() implies #[trigger] buf@[idx] == read_image(
                    run1,
                    512,
                    base,
                )[idx] by {
                    lemma_block_of(idx, 512, i as int);
                    lemma_block_of(idx, 512, (i + 1) as int);
                    if idx < i * 512 {
                        assert(buf@[idx] == buf0[idx]);
                        assert(run1[idx / 512] == run0[idx / 512]);
                    } else if idx < i * 512 + 512 {
                        assert(idx / 512 == i);
                        assert(run1[i as int] == op);
                    }
                }
                assert(buf@ =~= read_image(run1, 512, base));
            }
            if !ok {
                proof {
                    let run1 = added(start, self.ops());
                    assert(block_run(run1, false, sector_start as int, num_sectors as int, 512, Seq::empty()));
                    assert(!op_ok(run1[i as int]));
                }
                return Err(FSError::ReadError);
            }
            i = i + 1;
        }
        proof {
            assert(base =~= Seq::new((512 * num_sectors) as nat, |k: int| 0u8));
            assert(run_done(added(start, self.ops()), num_sectors as int));
        }
        let entries_slice = vstd::slice::slice_subrange(buf.as_slice(), o, o + index_size);
        assert(entries_slice@.len() == self@.superblock.idx_area_sz);
        assert(entries_slice@ == buf@.subrange(o as int, o + index_size));
        let parsed = IndexArea::from_bytes(entries_slice);
        match parsed {
            Some(area) => {
                let ghost data = entries_slice@;
                assert(data.len() == old(self)@.superblock.idx_area_sz);
                assert(parsed_from(area.entries@, data));
                assert(read_index_of(old(self)@.superblock, area.entries@));
                Ok(area)
            },
            None => Err(FSError::BadFS),
        }
    }

    /// Writes the index area back: the entries laid out from the start of the
    /// sectors that hold the area, then those sectors.
    pub fn write_index(&mut self) -> (res: FSResult<()>)
        requires
            usize::BITS == 64,
            layout_ok(old(self)@.superblock),
        ensures
            final(self)@ == old(self)@,
            extends(old(self).ops(), final(self).ops()),
            old(self)@.index is None ==> res == Err::<(), FSError>(FSError::BadFS) && final(self).ops()
                == old(self).ops(),
            old(self)@.index matches Some(entries) ==> index_written(
                old(self)@.superblock,
                entries,
                added(old(self).ops(), final(self).ops()),
                res,
            ),
    {
        let ghost start = self.ops();
        proof {
            assert(old(self).ops().take(old(self).ops().len() as int) =~= old(self).ops());
            assert(added(start, self.ops()) =~= Seq::<DiskOp>::empty());
        }
        if self.index_area.is_none() {
            return Err(FSError::BadFS);
        }
        let (sector_start, num_sectors, _o, _size) = self.index_sectors();
        assert(sector_start <= u64::MAX / 512);
        assert(self@.index is Some);
        let buf = match &self.index_area {
            Some(a) => index_image(&a.entries, num_sectors * 512),
            None => {
                return Err(FSError::BadFS);
            },
        };
        let mut i: usize = 0;
        while i < num_sectors
            invariant
                self@ == old(self)@,
                old(self)@.index is Some,
                usize::BITS == 64,
                buf@.len() == num_sectors * 512,
                512 * num_sectors <= u64::MAX,
                sector_start <= u64::MAX / 512,
                i <= num_sectors,
                sector_start == index_offset(old(self)@.superblock) / 512,
                num_sectors == (fs_bytes(old(self)@.superblock) + 511) / 512 - sector_start,
                buf@ == index_bytes(old(self)@.index->0, num_sectors * 512),
                start == old(self).ops(),
                extends(start, self.ops()),
                added(start, self.ops()).len() == i,
                forall|k: int|
                    0 <= k < i ==> #[trigger] run_step(
                        added(start, self.ops())[k],
                        true,
                        sector_start as int,
                        512,
                        buf@,
                        k,
                    ),
                forall|k: int| 0 <= k < i ==> op_ok(#[trigger] added(start, self.ops())[k]),
            decreases num_sectors - i,
        {
            assert(i * 512 + 512 <= num_sectors * 512) by (nonlinear_arith)
                requires
                    i < num_sectors,
            ;
            let sector = vstd::slice::slice_subrange(buf.as_slice(), i * 512, i * 512 + 512);
            let ghost before = self.ops();
            let ghost run0 = added(start, self.ops());
            let ok = self.write_to(0, (sector_start + i) as u64, sector);
            proof {
                assert(self.ops().take(old(self).ops().len() as int) =~= before.take(old(self).ops().len() as int));
                let run1 = added(start, self.ops());
                assert(run1 =~= run0.push(DiskOp::Write(0, (sector_start + i) as u64, sector@, ok)));
                assert(run_step(run1[i as int], true, sector_start as int, 512, buf@, i as int));
            }
            if !ok {
                proof {
                    let run1 = added(start, self.ops());
                    assert forall|k: int| 0 <= k < i implies op_ok(#[trigger] run1[k]) by {
                        assert(run1[k] == run0[k]);
                    }
                    assert forall|k: int| 0 <= k <= i implies #[trigger] run_step(
                        run1[k],
                        true,
                        sector_start as int,
                        512,
                        buf@,
                        k,
                    ) by {
                        if k < i {
                            assert(run1[k] == run0[k]);
                        }
                    }
                    assert(!op_ok(run1.last()));
                    assert(!run_done(run1, num_sectors as int));
                }
                return Err(FSError::WriteError);
            }
            i = i + 1;
        }
        Ok(())
    }
}

/// The index written back over `run`: the sectors that hold the index
/// area, in order from the first, each written with its part of the
/// entries' image; the first refused write ends the run with `WriteError`.
pub open spec fn index_written(sb: SuperBlock, entries: Seq<IndexEntry>, run: Seq<DiskOp>, res: FSResult<()>) -> bool {
    let first = index_offset(sb) / 512;
    let count = (fs_bytes(sb) + 511) / 512 - first;
    &&& block_run(run, true, first, count, 512, index_bytes(entries, count * 512))
    &&& (res is Ok <==> run_done(run, count))
    &&& (res matches Err(e) ==> e == FSError::WriteError)
}

/// Some file or directory entry occupies `block`.
pub open spec fn block_used(entries: Seq<IndexEntry>, block: int, bs: int) -> bool {
    exists|i: int| 0 <= i < entries.len() && entry_covers(#[trigger] entries[i], block, bs)
}

pub open spec fn used_at(entries: Seq<IndexEntry>, start: int, j: int, bs: int) -> bool {
    block_used(entries, start + j, bs)
}

/// The `n` blocks from `start` on are all unused.
pub open spec fn blocks_free(entries: Seq<IndexEntry>, start: int, n: int, bs: int) -> bool {
    forall|j: int| 0 <= j < n ==> !#[trigger] used_at(entries, start, j, bs)
}

/// The first block from `from` to `last` at which `n` unused blocks start,
/// or -1.
pub open spec fn first_free_blocks(
    entries: Seq<IndexEntry>,
    from: int,
    last: int,
    n: int,
    bs: int,
) -> int
    decreases last + 1 - from,
{
    if from > last {
        -1
    } else if blocks_free(entries, from, n, bs) {
        from
    } else {
        first_free_blocks(entries, from + 1, last, n, bs)
    }
}

/// The block size in bytes.
pub open spec fn block_bytes(sb: SuperBlock) -> int {
    pow2((sb.block_sz + 7) as nat) as int
}

/// The index of the last `/` in `s` before position `i`, or -1.
pub open spec fn last_slash_before(s: Seq<char>, i: int) -> int
    decreases i,
{
    if i <= 0 {
        -1
    } else if s[i - 1] == '/' {
        i - 1
    } else {
        last_slash_before(s, i - 1)
    }
}

pub open spec fn last_slash(s: Seq<char>) -> int {
    last_slash_before(s, s.len() as int)
}

/// The prefix under which a directory's entries are named: the path with a
/// trailing `/` (none for the empty path).
pub open spec fn dir_prefix(path: Seq<char>) -> Seq<char> {
    if path.len() > 0 && path.last() == '/' {
        path
    } else if path.len() == 0 {
        Seq::empty()
    } else {
        path.push('/')
    }
}

/// The valid entries among the first `i` whose names start with `prefix`.
pub open spec fn listed_upto(entries: Seq<IndexEntry>, prefix: Seq<char>, i: int) -> Seq<
    IndexEntry,
>
    decreases i,
{
    if i <= 0 {
        Seq::empty()
    } else {
        let prev = listed_upto(entries, prefix, i - 1);
        let e = entries[i - 1];
        if e.entry_type != 0 && has_prefix(entry_name(e), prefix) {
            prev.push(e)
        } else {
            prev
        }
    }
}

fn last_slash_exec(s: &str) -> (res: Option<usize>)
    ensures
        match res {
            Some(p) => p == last_slash(s@) && p < s@.len(),
            None => last_slash(s@) == -1,
        },
{
    let n = s.unicode_len();
    let mut i = n;
    while i > 0
        invariant
            n == s@.len(),
            i <= n,
            last_slash(s@) == last_slash_before(s@, i as int),
        decreases i,
    {
        if s.get_char(i - 1) == '/' {
            return Some(i - 1);
        }
        i = i - 1;
    }
    None
}

/// The 48-byte name field of an entry named by `bytes` (shorter than 48):
/// the bytes, then zeros.
pub open spec fn name_field(bytes: Seq<u8>) -> Seq<u8> {
    bytes + Seq::new((48 - bytes.len()) as nat, |k: int| 0u8)
}

/// The entry a new file or directory gets.
pub open spec fn new_entry_matches(
    e: IndexEntry,
    path: Seq<u8>,
    entry_type: u8,
    start_block: u32,
    size: u16,
) -> bool {
    &&& e.name@ == name_field(path)
    &&& e.entry_type == entry_type
    &&& e.perms == 0
    &&& e.timestamp == 0
    &&& e.start_block == start_block
    &&& e.sz_bytes == size
}

/// Builds an entry for `path`, or reports `NameTooLong` for names of 48
/// bytes or more.
fn make_entry(path: &str, entry_type: u8, start_block: u32, size: u16) -> (res: FSResult<
    IndexEntry,
>)
    ensures
        path.spec_bytes().len() >= 48 ==> res == Err::<IndexEntry, FSError>(FSError::NameTooLong),
        path.spec_bytes().len() < 48 ==> (res matches Ok(e) && new_entry_matches(
            e,
            path.spec_bytes(),
            entry_type,
            start_block,
            size,
        )),
{
    let bytes = path.as_bytes();
    let n = bytes.len();
    if n >= 48 {
        return Err(FSError::NameTooLong);
    }
    let mut name = [0u8; 48];
    let mut k: usize = 0;
    while k < n
        invariant
            n == bytes@.len(),
            n < 48,
            k <= n,
            forall|j: int| 0 <= j < k ==> name@[j] == bytes@[j],
            forall|j: int| k <= j < 48 ==> name@[j] == 0u8,
        decreases n - k,
    {
        name[k] = bytes[k];
        k = k + 1;
    }
    name[n] = 0;
    assert(name@ =~= name_field(bytes@));
    Ok(IndexEntry { name, entry_type, perms: 0, timestamp: 0, start_block, sz_bytes: size })
}

impl<'a, D: SectorDevice> SFS<'a, D> {
    /// The first data block at which `num_blocks` unused blocks start,
    /// looking from the start of the data area to its end less
    /// `num_blocks`; `None` before the index is loaded.
    pub fn find_free_data_blocks(&mut self, num_blocks: usize) -> (res: Option<u32>)
        requires
            usize::BITS == 64,
            old(self)@.superblock.block_sz + 7 < 64,
            old(self)@.superblock.rsv_area_sz + old(self)@.superblock.data_area_sz <= u64::MAX,
            num_blocks <= old(self)@.superblock.rsv_area_sz + old(self)@.superblock.data_area_sz,
        ensures
            final(self).ops() == old(self).ops(),
            final(self)@ == old(self)@,
            match old(self)@.index {
                None => res is None,
                Some(es) => {
                    let sb = old(self)@.superblock;
                    let f = first_free_blocks(
                        es,
                        sb.rsv_area_sz as int,
                        sb.rsv_area_sz + sb.data_area_sz - num_blocks,
                        num_blocks as int,
                        block_bytes(sb),
                    );
                    (f == -1 ==> res is None) && (f != -1 ==> res == Some(f as u32))
                },
            },
    {
        let data_area_start = self.superblock.rsv_area_sz as u64;
        let data_area_end = data_area_start + self.superblock.data_area_sz;
        let block_size = self.superblock.block_sz_bytes();
        proof {
            vstd::arithmetic::power2::lemma_pow2_strictly_increases(
                (self.superblock.block_sz + 7) as nat,
                64,
            );
            vstd::arithmetic::power2::lemma2_to64();
            vstd::arithmetic::power2::lemma_pow2_unfold(64);
            vstd::arithmetic::power2::lemma_pow2_pos((self.superblock.block_sz + 7) as nat);
            if self.superblock.block_sz + 7 < 63 {
                vstd::arithmetic::power2::lemma_pow2_strictly_increases(
                    (self.superblock.block_sz + 7) as nat,
                    63,
                );
            }
        }
        assert(block_size <= 0x8000_0000_0000_0000);
        let index_area = match &self.index_area {
            Some(a) => a,
            None => {
                return None;
            },
        };
        let ghost es = index_area.entries@;
        let ghost bs = block_size as int;
        assert(old(self)@.index == Some(es));
        assert(bs == block_bytes(old(self)@.superblock));
        let n = num_blocks as u64;
        let last = data_area_end - n;
        if data_area_start > last {
            return None;
        }
        let mut i = data_area_start;
        loop
            invariant
                data_area_start <= i <= last,
                last + n == data_area_end,
                es == index_area.entries@,
                n == num_blocks,
                block_size > 0,
                block_size <= 0x8000_0000_0000_0000,
                bs == block_size,
                bs == block_bytes(old(self)@.superblock),
                old(self)@.index == Some(es),
                data_area_start == old(self)@.superblock.rsv_area_sz,
                data_area_end == old(self)@.superblock.rsv_area_sz + old(self)@.superblock.data_area_sz,
                first_free_blocks(es, data_area_start as int, last as int, n as int, bs)
                    == first_free_blocks(es, i as int, last as int, n as int, bs),
            decreases last - i,
        {
            let mut free = true;
            let mut j: u64 = 0;
            while j < n
                invariant
                    i <= last,
                    last + n <= u64::MAX,
                    es == index_area.entries@,
                    block_size > 0,
                    block_size <= 0x8000_0000_0000_0000,
                    bs == block_size,
                    j <= n,
                    free == (forall|k: int| 0 <= k < j ==> !#[trigger] used_at(es, i as int, k, bs)),
                decreases n - j,
            {
                let f = index_area.is_block_free(i + j, block_size as u64);
                assert(used_at(es, i as int, j as int, bs) == !f);
                if !f {
                    free = false;
                }
                j = j + 1;
            }
            assert(free == blocks_free(es, i as int, n as int, bs));
            if free {
                assert(block_bytes(old(self)@.superblock) == bs);
                return Some(i as u32);
            }
            if i == last {
                assert(first_free_blocks(es, i + 1, last as int, n as int, bs) == -1);
                assert(block_bytes(old(self)@.superblock) == bs);
                return None;
            }
            i = i + 1;
        }
    }

    /// Whether the directory holding `path` exists: true for a path with no
    /// `/` or directly under the root, else whether the first valid entry
    /// named like the parent is a directory (type 0x11).
    pub fn parent_exists(&self, path: &str) -> (res: bool)
        requires
            last_slash(path@) > 0 ==> self@.index is Some,
        ensures
            res == (last_slash(path@) <= 0 || {
                let es = self@.index->0;
                let k = first_named(es, path@.subrange(0, last_slash(path@)));
                k >= 0 && es[k].entry_type == 0x11
            }),
    {
        match last_slash_exec(path) {
            None => true,
            Some(pos) => {
                let parent = path.substring_char(0, pos);
                if pos == 0 {
                    return true;
                }
                match &self.index_area {
                    Some(a) => match a.find_by_name(parent) {
                        Some(e) => e.entry_type == 0x11,
                        None => false,
                    },
                    None => false,
                }
            },
        }
    }

    /// The valid entries whose names start with the directory's prefix.
    pub fn list_dir(&self, path: &str) -> (res: Vec<&IndexEntry>)
        requires
            self@.index is Some,
        ensures
            res@.len() == listed_upto(
                self@.index->0,
                dir_prefix(path@),
                (self@.index->0).len() as int,
            ).len(),
            forall|k: int|
                0 <= k < res@.len() ==> *res@[k] == listed_upto(
                    self@.index->0,
                    dir_prefix(path@),
                    (self@.index->0).len() as int,
                )[k],
    {
        let n = path.unicode_len();
        let prefix = if n > 0 && path.get_char(n - 1) == '/' {
            String::from_str(path)
        } else if n == 0 {
            String::new()
        } else {
            let mut p = String::from_str(path);
            p.append("/");
            proof {
                reveal_strlit("/");
            }
            p
        };
        assert(prefix@ == dir_prefix(path@));
        let mut out: Vec<&IndexEntry> = Vec::new();
        match &self.index_area {
            Some(a) => {
                let m = a.entries.len();
                let mut i: usize = 0;
                while i < m
                    invariant
                        m == a.entries@.len(),
                        i <= m,
                        out@.len() == listed_upto(a.entries@, prefix@, i as int).len(),
                        forall|k: int|
                            0 <= k < out@.len() ==> *out@[k] == listed_upto(
                                a.entries@,
                                prefix@,
                                i as int,
                            )[k],
                    decreases m - i,
                {
                    let e = &a.entries[i];
                    if e.is_valid() && starts_with(e.name_str(), prefix.as_str()) {
                        out.push(e);
                    }
                    i = i + 1;
                }
            },
            None => {},
        }
        out
    }
}

/// The blocks a file of `len` bytes takes.
pub open spec fn blocks_for(len: int, bs: int) -> int {
    (len + bs - 1) / bs
}

/// `after` is `before` with `e` appended.
pub open spec fn appended(before: Option<Seq<IndexEntry>>, after: Option<Seq<IndexEntry>>, e: IndexEntry) -> bool {
    before matches Some(es) && after == Some(es.push(e))
}

impl<'a, D: SectorDevice> SFS<'a, D> {
    /// Whether the superblock's layout is one the index operations can use.
    fn layout_usable(&self) -> (res: bool)
        ensures
            res == (usize::BITS == 64 && layout_ok(self@.superblock)),
    {
        if usize::BITS != 64 {
            return false;
        }
        self.superblock.layout_supported()
    }

    /// Appends `entry` to the loaded index.
    fn push_entry(&mut self, entry: &IndexEntry)
        requires
            old(self)@.index is Some,
        ensures
            final(self)@ == (SfsState {
                index: Some(old(self)@.index->0.push(*entry)),
                ..old(self)@
            }),
            final(self).ops() == old(self).ops(),
    {
        match self.index_area.take() {
            Some(mut a) => {
                let _ = a.insert_entry(entry);
                self.index_area = Some(a);
            },
            None => {},
        }
    }
}

/// What `validate_superblock` answers: the magic reads `SFS` and the block
/// size equals `2 ^ (block_sz + 7)` (an exclusive or).
pub open spec fn superblock_checks(sb: SuperBlock) -> bool {
    sb.magic[0] == 0x53 && sb.magic[1] == 0x46 && sb.magic[2] == 0x53 && sb.block_sz == 2u8 ^ ((
    sb.block_sz + 7) as u8)
}

/// Whether mounting refuses a superblock before reading the index area:
/// a block size field above 248, a superblock that `validate_superblock`
/// accepts (the mount treats acceptance as failure), or a layout the index
/// arithmetic cannot address.
pub open spec fn mount_refuses(sb: SuperBlock) -> bool {
    sb.block_sz > 248 || superblock_checks(sb) || !(usize::BITS == 64 && layout_ok(sb))
}

impl<'a, D: SectorDevice> Filesystem for SFS<'a, D> {
    /// Checks the superblock and loads the index area (see `index_read`).
    /// A block size field above 248, a superblock that `validate_superblock`
    /// accepts, or a layout the index arithmetic cannot address reports
    /// `BadFS` before any read (see `mount_refuses`).
    fn mount(&mut self) -> (res: FSResult<()>)
        ensures
            old(self)@.mounted ==> res == Err::<(), FSError>(FSError::AlreadyMounted) && final(self)@
                == old(self)@,
            !old(self)@.mounted ==> match res {
                Ok(()) => final(self)@.mounted && final(self)@.superblock == old(self)@.superblock
                    && (final(self)@.index matches Some(es) && read_index_of(
                    old(self)@.superblock,
                    es,
                )),
                Err(e) => (e == FSError::BadFS || e == FSError::ReadError) && final(self)@ == old(self)@,
            },
            !old(self)@.mounted && mount_refuses(old(self)@.superblock) ==> res == Err::<(), FSError>(
                FSError::BadFS,
            ),
            !old(self)@.mounted && !mount_refuses(old(self)@.superblock)
                && (old(self)@.superblock.idx_area_sz as u64) & 64 != 0 ==> res is Err,
            !old(self)@.mounted && res == Err::<(), FSError>(FSError::BadFS) ==> mount_refuses(
                old(self)@.superblock,
            ) || (old(self)@.superblock.idx_area_sz as u64) & 64 != 0,
            extends(old(self).ops(), final(self).ops()),
            old(self)@.mounted || mount_refuses(old(self)@.superblock) ==> final(self).ops() == old(
                self,
            ).ops(),
            !old(self)@.mounted && !mount_refuses(old(self)@.superblock) ==> exists|
                r: FSResult<IndexArea>,
            |
                #![trigger index_read(old(self)@.superblock, added(old(self).ops(), final(self).ops()), r)]
                index_read(old(self)@.superblock, added(old(self).ops(), final(self).ops()), r) && match r {
                    Ok(a) => res is Ok && final(self)@.index == Some(a.entries@),
                    Err(e) => res == Err::<(), FSError>(e),
                },
    {
        proof {
            assert(old(self).ops().take(old(self).ops().len() as int) =~= old(self).ops());
        }
        if self.mounted {
            return Err(FSError::AlreadyMounted);
        }
        if self.superblock.block_sz > 248 {
            return Err(FSError::BadFS);
        }
        if self.superblock.validate_superblock() {
            return Err(FSError::BadFS);
        }
        if !self.layout_usable() {
            return Err(FSError::BadFS);
        }
        let loaded = self.load_index_area();
        let ghost r = loaded;
        let index = match loaded {
            Ok(a) => a,
            Err(e) => {
                return Err(e);
            },
        };
        self.index_area = Some(index);
        self.mounted = true;
        assert(index_read(old(self)@.superblock, added(old(self).ops(), self.ops()), r));
        Ok(())
    }

    fn unmount(&mut self) -> (res: FSResult<()>)
        ensures
            old(self)@.mounted ==> res is Ok && final(self)@ == (SfsState {
                mounted: false,
                ..old(self)@
            }),
            !old(self)@.mounted ==> res == Err::<(), FSError>(FSError::NotMounted) && final(self)@
                == old(self)@,
    {
        if !self.mounted {
            return Err(FSError::NotMounted);
        }
        self.mounted = false;
        Ok(())
    }

    /// Reads the file named `path` into `buf`. The sectors are gathered in a
    /// buffer of `end_sector - start_sector * 512` bytes; where that
    /// arithmetic does not address the file's bytes, `BadFile` is reported.
    fn read_file(&mut self, path: &str, buf: &mut [u8]) -> (res: Result<usize, FSError>)
        ensures
            final(self)@ == old(self)@,
            final(buf)@.len() == old(buf)@.len(),
            old(self)@.index is None ==> res == Err::<usize, FSError>(FSError::BadFS),
            old(self)@.index matches Some(es) ==> {
                let k = first_named(es, path@);
                &&& k == -1 ==> res == Err::<usize, FSError>(FSError::NotFound)
                &&& k >= 0 && es[k].entry_type != 0x12 ==> res == Err::<usize, FSError>(
                    FSError::BadFile,
                )
                &&& res matches Ok(n) ==> k >= 0 && n == (if es[k].sz_bytes < old(buf)@.len() {
                    es[k].sz_bytes as int
                } else {
                    old(buf)@.len() as int
                })
            },
            res matches Err(e) ==> e == FSError::BadFS || e == FSError::NotFound || e
                == FSError::BadFile || e == FSError::ReadError,
            extends(old(self).ops(), final(self).ops()),
            no_failed_read_before_last(added(old(self).ops(), final(self).ops())),
            res == Err::<usize, FSError>(FSError::ReadError) <==> added(old(self).ops(), final(self).ops()).len()
                > 0 && !op_ok(added(old(self).ops(), final(self).ops()).last()),
            res matches Ok(n) ==> old(self)@.index matches Some(es) && sfs_file_read(
                old(self)@.superblock,
                es[first_named(es, path@)],
                added(old(self).ops(), final(self).ops()),
                old(buf)@,
                final(buf)@,
                n as int,
            ),
    {
        let ghost start = self.ops();
        proof {
            assert(start.take(start.len() as int) =~= start);
            assert(added(start, self.ops()) =~= Seq::<DiskOp>::empty());
        }
        let entry = match &self.index_area {
            Some(a) => match a.find_by_name(path) {
                Some(e) => *e,
                None => {
                    return Err(FSError::NotFound);
                },
            },
            None => {
                return Err(FSError::BadFS);
            },
        };
        let ghost es = old(self)@.index->0;
        let ghost ki = first_named(es, path@);
        assert(old(self)@.index == Some(es) && ki >= 0 && es[ki] == entry);
        if entry.entry_type != 0x12 {
            return Err(FSError::BadFile);
        }
        if self.superblock.block_sz as u32 + 7 >= usize::BITS {
            return Err(FSError::BadFile);
        }
        let block_size = self.superblock.block_sz_bytes();
        let offset = match (entry.start_block as usize).checked_mul(block_size) {
            Some(v) => v,
            None => {
                return Err(FSError::BadFile);
            },
        };
        let file_size = entry.sz_bytes as usize;
        let start_sector = offset / 512;
        let end_sector = match offset.checked_add(file_size + 511) {
            Some(v) => v / 512,
            None => {
                return Err(FSError::BadFile);
            },
        };
        if start_sector > end_sector / 512 {
            return Err(FSError::BadFile);
        }
        let flen = end_sector - start_sector * 512;
        let mut file_buf = zeros(flen);
        let ghost base = file_buf@;
        let mut i = start_sector;
        while i < end_sector
            invariant
                self@ == old(self)@,
                start == old(self).ops(),
                old(self)@.index == Some(es),
                ki == first_named(es, path@),
                ki >= 0,
                es[ki] == entry,
                entry.entry_type == 0x12,
                start_sector <= i <= end_sector,
                file_buf@.len() == flen,
                base.len() == flen,
                extends(start, self.ops()),
                added(start, self.ops()).len() == i - start_sector,
                forall|k: int|
                    0 <= k < i - start_sector ==> #[trigger] run_step(
                        added(start, self.ops())[k],
                        false,
                        start_sector as int,
                        512,
                        Seq::empty(),
                        k,
                    ),
                forall|k: int| 0 <= k < i - start_sector ==> op_ok(#[trigger] added(start, self.ops())[k]),
                file_buf@ == read_image(added(start, self.ops()), 512, base),
            decreases end_sector - i,
        {
            let mut sector_buf = zeros(512);
            let ghost run0 = added(start, self.ops());
            let ok = self.read_into(0, i as u64, &mut sector_buf, 0, 512);
            let ghost op = DiskOp::Read(0, i as u64, sector_buf@.subrange(0, 512), ok);
            proof {
                assert(added(start, self.ops()) =~= run0.push(op));
                assert(self.ops().take(start.len() as int) =~= start);
            }
            if !ok {
                return Err(FSError::ReadError);
            }
            let rel = i - start_sector;
            if rel > flen / 512 || flen - rel * 512 < 512 {
                return Err(FSError::BadFile);
            }
            let ghost buf0 = file_buf@;
            copy_into(&mut file_buf, rel * 512, sector_buf.as_slice(), 512);
            proof {
                let run1 = added(start, self.ops());
                assert(sector_buf@.subrange(0, 512) =~= sector_buf@);
                assert forall|idx: int| 0 <= idx < file_buf@.len() implies #[trigger] file_buf@[idx] == read_image(
                    run1,
                    512,
                    base,
                )[idx] by {
                    lemma_block_of(idx, 512, rel as int);
                    lemma_block_of(idx, 512, (rel + 1) as int);
                    if idx < rel * 512 {
                        assert(file_buf@[idx] == buf0[idx]);
                        assert(run1[idx / 512] == run0[idx / 512]);
                    } else if idx < rel * 512 + 512 {
                        assert(idx / 512 == rel);
                        assert(run1[rel as int] == op);
                    }
                }
                assert(file_buf@ =~= read_image(run1, 512, base));
            }
            i = i + 1;
        }
        proof {
            assert(base =~= Seq::new(flen as nat, |k: int| 0u8));
        }
        let o = offset % 512;
        if o > flen || flen - o < file_size {
            return Err(FSError::BadFile);
        }
        let to_copy = if file_size < buf.len() {
            file_size
        } else {
            buf.len()
        };
        let fl = file_buf.len();
        let mut k: usize = 0;
        while k < to_copy
            invariant
                fl == file_buf@.len(),
                to_copy <= buf@.len(),
                o + to_copy <= file_buf@.len(),
                buf@.len() == old(buf)@.len(),
                k <= to_copy,
                forall|j: int| 0 <= j < k ==> #[trigger] buf@[j] == file_buf@[o + j],
                forall|j: int| k <= j < buf@.len() ==> #[trigger] buf@[j] == old(buf)@[j],
            decreases to_copy - k,
        {
            buf[k] = file_buf[o + k];
            k = k + 1;
        }
        proof {
            assert(buf@ =~= copied_over(old(buf)@, 0, file_buf@.skip(o as int), to_copy as int));
            let sb = old(self)@.superblock;
            assert(offset == entry.start_block * block_bytes(sb));
            assert(sfs_file_span(sb, entry) == (offset as int, start_sector as int, end_sector as int, flen as int));
            let run = added(start, self.ops());
            assert(block_run(run, false, start_sector as int, end_sector - start_sector, 512, Seq::empty()));
            assert(run_done(run, end_sector - start_sector));
        }
        Ok(to_copy)
    }

    /// Creates the file `path` holding `buf`: finds room for it in the data
    /// area, writes it sector by sector from its first block (see
    /// `sfs_data_writes`), adds its entry
    /// (type 0x12, size `len as u16`) and writes the index back. Arithmetic
    /// the layout cannot address reports `BadFS` (layout), `NoSpace` (no
    /// room) or `WriteError` (the data offset).
    fn write_file(&mut self, path: &str, buf: &[u8]) -> (res: FSResult<()>)
        ensures
            final(self)@.mounted == old(self)@.mounted,
            final(self)@.superblock == old(self)@.superblock,
            old(self)@.index is None ==> res == Err::<(), FSError>(FSError::BadFS) && final(self)@
                == old(self)@,
            old(self)@.index matches Some(es) && first_named(es, path@) >= 0 ==> res == Err::<
                (),
                FSError,
            >(FSError::AlreadyExists) && final(self)@ == old(self)@,
            res is Ok ==> exists|e: IndexEntry|
                #![trigger appended(old(self)@.index, final(self)@.index, e)]
                appended(old(self)@.index, final(self)@.index, e) && {
                    let sb = old(self)@.superblock;
                    let bs = block_bytes(sb);
                    let num = blocks_for(buf@.len() as int, bs);
                    new_entry_matches(
                        e,
                        path.spec_bytes(),
                        0x12,
                        first_free_blocks(
                            old(self)@.index->0,
                            sb.rsv_area_sz as int,
                            sb.rsv_area_sz + sb.data_area_sz - num,
                            num,
                            bs,
                        ) as u32,
                        buf@.len() as u16,
                    )
                },
            res matches Err(e) ==> e == FSError::BadFS || e == FSError::AlreadyExists || e
                == FSError::NoSpace || e == FSError::WriteError || e == FSError::NameTooLong,
            extends(old(self).ops(), final(self).ops()),
            res is Ok ==> exists|m: int|
                #![trigger added(old(self).ops(), final(self).ops()).take(m)]
                0 <= m <= added(old(self).ops(), final(self).ops()).len() && {
                    let sb = old(self)@.superblock;
                    let bs = block_bytes(sb);
                    let num = blocks_for(buf@.len() as int, bs);
                    let first_block = first_free_blocks(
                        old(self)@.index->0,
                        sb.rsv_area_sz as int,
                        sb.rsv_area_sz + sb.data_area_sz - num,
                        num,
                        bs,
                    );
                    &&& sfs_data_writes(
                        added(old(self).ops(), final(self).ops()).take(m),
                        (first_block as u32) * bs / 512,
                        buf@,
                    )
                    &&& index_written(
                        sb,
                        final(self)@.index->0,
                        added(old(self).ops(), final(self).ops()).skip(m),
                        res,
                    )
                },
    {
        proof {
            assert(old(self).ops().take(old(self).ops().len() as int) =~= old(self).ops());
        }
        match &self.index_area {
            Some(a) => {
                if a.find_by_name(path).is_some() {
                    return Err(FSError::AlreadyExists);
                }
            },
            None => {
                return Err(FSError::BadFS);
            },
        }
        let ghost es = old(self)@.index->0;
        assert(old(self)@.index == Some(es) && first_named(es, path@) == -1);
        if usize::BITS != 64 || self.superblock.block_sz as u32 + 7 >= 64 {
            return Err(FSError::BadFS);
        }
        let block_size = self.superblock.block_sz_bytes();
        proof {
            vstd::arithmetic::power2::lemma_pow2_pos((self.superblock.block_sz + 7) as nat);
        }
        let len = buf.len();
        let num_blocks = match len.checked_add(block_size - 1) {
            Some(t) => t / block_size,
            None => {
                return Err(FSError::NoSpace);
            },
        };
        let data_end = match (self.superblock.rsv_area_sz as u64).checked_add(
            self.superblock.data_area_sz,
        ) {
            Some(v) => v,
            None => {
                return Err(FSError::NoSpace);
            },
        };
        if num_blocks as u64 > data_end {
            return Err(FSError::NoSpace);
        }
        let start_block = match self.find_free_data_blocks(num_blocks) {
            Some(b) => b,
            None => {
                return Err(FSError::NoSpace);
            },
        };
        let start_offset = match (start_block as usize).checked_mul(block_size) {
            Some(v) => v,
            None => {
                return Err(FSError::WriteError);
            },
        };
        let start_sector = start_offset / 512;
        let ghost start = self.ops();
        let mut pos: usize = 0;
        proof {
            assert(added(start, self.ops()) =~= Seq::<DiskOp>::empty());
            assert(self.ops().take(old(self).ops().len() as int) =~= old(self).ops());
        }
        while pos < len
            invariant
                self@ == old(self)@,
                old(self)@.index == Some(es),
                first_named(es, path@) == -1,
                usize::BITS == 64,
                len == buf@.len(),
                start_sector <= usize::MAX / 512,
                pos <= len,
                pos < len ==> pos % 512 == 0,
                extends(old(self).ops(), start),
                extends(start, self.ops()),
                added(start, self.ops()).len() == (pos + 511) / 512,
                forall|k: int|
                    0 <= k < added(start, self.ops()).len() ==> #[trigger] added(start, self.ops())[k]
                        == DiskOp::Write(0, (start_sector + k) as u64, data_sector(buf@, k), true),
            decreases len - pos,
        {
            let n = if len - pos < 512 {
                len - pos
            } else {
                512
            };
            let chunk = vstd::slice::slice_subrange(buf, pos, pos + n);
            let mut sector_buf = zeros(512);
            copy_into(&mut sector_buf, 0, chunk, n);
            let ghost k = pos as int / 512;
            proof {
                assert(pos == 512 * k);
                assert(sector_buf@ =~= data_sector(buf@, k));
            }
            let ghost run0 = added(start, self.ops());
            let ok = self.write_to(0, (start_sector + pos / 512) as u64, sector_buf.as_slice());
            proof {
                assert(self.ops().take(start.len() as int) =~= start);
                assert(added(start, self.ops()) =~= run0.push(DiskOp::Write(0, (start_sector + pos / 512) as u64, sector_buf@, ok)));
            }
            if !ok {
                proof {
                    lemma_extends_trans(old(self).ops(), start, self.ops());
                }
                return Err(FSError::WriteError);
            }
            pos = pos + n;
            proof {
                assert(run0.len() == k);
                assert((pos + 511) / 512 == k + 1);
            }
        }
        let ghost data_run = added(start, self.ops());
        let ghost mid = self.ops();
        proof {
            lemma_extends_trans(old(self).ops(), start, mid);
        }
        let entry = match make_entry(path, 0x12, start_block, len as u16) {
            Ok(e) => e,
            Err(e) => {
                return Err(e);
            },
        };
        self.push_entry(&entry);
        assert(appended(old(self)@.index, self@.index, entry));
        if !self.layout_usable() {
            return Err(FSError::BadFS);
        }
        let r = self.write_index();
        assert(appended(old(self)@.index, self@.index, entry));
        proof {
            lemma_extends_trans(old(self).ops(), mid, self.ops());
            lemma_added_concat(old(self).ops(), start, mid);
            lemma_added_concat(old(self).ops(), mid, self.ops());
            let all = added(old(self).ops(), self.ops());
            let m = (mid.len() - old(self).ops().len()) as int;
            assert(added(old(self).ops(), start) =~= Seq::<DiskOp>::empty());
            assert(all.take(m) =~= data_run);
            assert(all.skip(m) =~= added(mid, self.ops()));
            let sb = old(self)@.superblock;
            assert(sfs_data_writes(all.take(m), start_block * block_bytes(sb) / 512, buf@));
            let bs = block_bytes(sb);
            let num = blocks_for(buf@.len() as int, bs);
            assert(num == num_blocks);
            let fb = first_free_blocks(es, sb.rsv_area_sz as int, sb.rsv_area_sz + sb.data_area_sz - num, num, bs);
            assert(start_block == fb as u32);
        }
        r
    }

    fn remove_file(&mut self, path: &str) -> (res: FSResult<()>)
        ensures
            res == Err::<(), FSError>(FSError::WriteError),
            final(self)@ == old(self)@,
    {
        Err(FSError::WriteError)
    }

    /// Adds a directory entry (type 0x11) for `path` and writes the index
    /// back.
    fn create_dir(&mut self, path: &str) -> (res: FSResult<()>)
        ensures
            final(self)@.mounted == old(self)@.mounted,
            final(self)@.superblock == old(self)@.superblock,
            old(self)@.index is None ==> res == Err::<(), FSError>(FSError::WriteError) && final(self)@ == old(self)@,
            old(self)@.index matches Some(es) && first_named(es, path@) >= 0 ==> res == Err::<
                (),
                FSError,
            >(FSError::AlreadyExists) && final(self)@ == old(self)@,
            old(self)@.index matches Some(es) && first_named(es, path@) == -1 ==> if path.spec_bytes().len() >= 48 {
                res == Err::<(), FSError>(FSError::NameTooLong) && final(self)@ == old(self)@
            } else {
                exists|e: IndexEntry|
                    #![trigger appended(old(self)@.index, final(self)@.index, e)]
                    appended(old(self)@.index, final(self)@.index, e) && new_entry_matches(
                        e,
                        path.spec_bytes(),
                        0x11,
                        0,
                        0,
                    )
            },
            res matches Err(e) ==> e == FSError::WriteError || e == FSError::AlreadyExists || e
                == FSError::NameTooLong || e == FSError::BadFS,
            extends(old(self).ops(), final(self).ops()),
            !(old(self)@.index matches Some(es) && first_named(es, path@) == -1 && path.spec_bytes().len() < 48)
                ==> final(self).ops() == old(self).ops(),
            old(self)@.index matches Some(es) && first_named(es, path@) == -1 && path.spec_bytes().len() < 48
                ==> if usize::BITS == 64 && layout_ok(old(self)@.superblock) {
                index_written(
                    old(self)@.superblock,
                    final(self)@.index->0,
                    added(old(self).ops(), final(self).ops()),
                    res,
                )
            } else {
                res == Err::<(), FSError>(FSError::BadFS) && final(self).ops() == old(self).ops()
            },
    {
        proof {
            assert(old(self).ops().take(old(self).ops().len() as int) =~= old(self).ops());
        }
        match &self.index_area {
            Some(a) => {
                if a.find_by_name(path).is_some() {
                    return Err(FSError::AlreadyExists);
                }
            },
            None => {
                return Err(FSError::WriteError);
            },
        }
        let entry = match make_entry(path, 0x11, 0, 0) {
            Ok(e) => e,
            Err(e) => {
                return Err(e);
            },
        };
        self.push_entry(&entry);
        assert(appended(old(self)@.index, self@.index, entry));
        if !self.layout_usable() {
            return Err(FSError::BadFS);
        }
        let r = self.write_index();
        assert(appended(old(self)@.index, self@.index, entry));
        r
    }

    fn remove_dir(&mut self, path: &str) -> (res: FSResult<()>)
        ensures
            res == Err::<(), FSError>(FSError::WriteError),
            final(self)@ == old(self)@,
    {
        Err(FSError::WriteError)
    }
}

} // verus!
