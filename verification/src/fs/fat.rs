//! FAT32: directory records, long file names, the cluster chain and the
//! operations of a mounted volume.
use crate::bytes::{le16, le32, read_le16, read_le32};
use crate::disks::{copied_over, copy_into, read_sector_into, zeros, SectorDevice};
use crate::fs::{path_components, str_views, FSError};
use crate::text::{
    ascii_lowercase, from_utf16_lossy, from_utf8_lossy, str_eq, to_ascii_lowercase, trim,
    trimmed, utf16_lossy, utf8_lossy,
};
use vstd::prelude::*;
use vstd::utf8::encode_utf8;
use vstd::string::StringSliceAdditionalSpecFns;

verus! {

/// The fields of a 32-byte short directory record that the filesystem reads.
#[derive(Debug, Clone, Copy)]
pub struct DirEntry {
    pub name: [u8; 11],
    pub attr: u8,
    pub cluster_high: u16,
    pub cluster_low: u16,
    pub size: u32,
}

/// `e` holds the fields of the record at byte `p` of `b`.
pub open spec fn entry_matches(e: DirEntry, b: Seq<u8>, p: int) -> bool {
    &&& e.name@ == b.subrange(p, p + 11)
    &&& e.attr == b[p + 11]
    &&& e.cluster_high == le16(b, p + 20)
    &&& e.cluster_low == le16(b, p + 26)
    &&& e.size == le32(b, p + 28)
}

impl DirEntry {
    /// The first cluster of the entry's data.
    pub open spec fn cluster(&self) -> int {
        self.cluster_high * 65536 + self.cluster_low
    }

    pub fn is_directory(&self) -> (res: bool)
        ensures
            res == (self.attr & 0x10 != 0),
    {
        self.attr & 0x10 != 0
    }

    pub fn full_cluster(&self) -> (res: u32)
        ensures
            res == self.cluster(),
    {
        let hi = self.cluster_high;
        let lo = self.cluster_low;
        assert(((hi as u32) << 16u32) | (lo as u32) == hi * 65536 + lo) by (bit_vector);
        ((hi as u32) << 16u32) | (lo as u32)
    }
}

/// Reads the record at byte `p`.
fn entry_at(b: &[u8], p: usize) -> (e: DirEntry)
    requires
        p + 32 <= b@.len(),
    ensures
        entry_matches(e, b@, p as int),
{
    let blen = b.len();
    let mut name = [0u8; 11];
    let mut k: usize = 0;
    while k < 11
        invariant
            blen == b@.len(),
            p + 32 <= b@.len(),
            k <= 11,
            forall|m: int| 0 <= m < k ==> name@[m] == b@[p + m],
        decreases 11 - k,
    {
        name[k] = b[p + k];
        k = k + 1;
    }
    assert(name@ =~= b@.subrange(p as int, p + 11));
    DirEntry {
        name,
        attr: b[p + 11],
        cluster_high: read_le16(b, p + 20),
        cluster_low: read_le16(b, p + 26),
        size: read_le32(b, p + 28),
    }
}

// ---------------------------------------------------------------------------
// Short (8.3) names
// ---------------------------------------------------------------------------
/// The text of a short name: the base and the extension, each decoded and
/// trimmed, joined by a dot when the extension is not empty.
pub open spec fn short_name_text(raw: Seq<u8>) -> Seq<char> {
    let base = trimmed(utf8_lossy(raw.subrange(0, 8)));
    let ext = trimmed(utf8_lossy(raw.subrange(8, 11)));
    if ext.len() > 0 {
        base + "."@ + ext
    } else {
        base
    }
}

/// Formats the eleven name bytes of a short record as `BASE.EXT`.
pub fn parse_8_3_name(raw: &[u8]) -> (res: String)
    requires
        raw@.len() >= 11,
    ensures
        res@ == short_name_text(raw@),
{
    let base_raw = from_utf8_lossy(vstd::slice::slice_subrange(raw, 0, 8));
    let ext_raw = from_utf8_lossy(vstd::slice::slice_subrange(raw, 8, 11));
    let base = trim(base_raw.as_str());
    let ext = trim(ext_raw.as_str());
    if ext.unicode_len() > 0 {
        let mut res = String::from_str(base);
        res.append(".");
        res.append(ext);
        proof {
            reveal_strlit(".");
        }
        res
    } else {
        String::from_str(base)
    }
}

/// Index of the first `.` byte at or after `i`, or the length.
pub open spec fn dot_from(b: Seq<u8>, i: int) -> int
    decreases b.len() - i,
{
    if i < 0 || i >= b.len() || b[i] == 46 {
        if i < 0 { 0 } else { i }
    } else {
        dot_from(b, i + 1)
    }
}

proof fn lemma_dot_from(b: Seq<u8>, i: int)
    requires
        0 <= i <= b.len(),
    ensures
        i <= dot_from(b, i) <= b.len(),
        dot_from(b, i) < b.len() ==> b[dot_from(b, i)] == 46,
    decreases b.len() - i,
{
    if i < b.len() && b[i] != 46 {
        lemma_dot_from(b, i + 1);
    }
}

/// `s` cut to `n` bytes and padded with spaces to `n`.
pub open spec fn space_padded(s: Seq<u8>, n: int) -> Seq<u8> {
    Seq::new(n as nat, |k: int| if k < s.len() { s[k] } else { 32u8 })
}

/// The short name made from a name's bytes: the part before the first dot,
/// cut to eight bytes, then the part between the first and the second dot,
/// cut to three, both padded with spaces.
pub open spec fn short_name_bytes(b: Seq<u8>) -> Seq<u8> {
    let d = dot_from(b, 0);
    let base = b.subrange(0, d);
    let ext = if d < b.len() {
        b.subrange(d + 1, dot_from(b, d + 1))
    } else {
        Seq::empty()
    };
    space_padded(base, 8) + space_padded(ext, 3)
}

/// Builds the 8.3 short name of a file name.
pub fn generate_8_3(name: &str) -> (res: [u8; 11])
    ensures
        res@ == short_name_bytes(name.spec_bytes()),
{
    let b = name.as_bytes();
    let n = b.len();
    let ghost bs = b@;
    let mut full = [32u8; 11];
    let mut i: usize = 0;
    proof {
        lemma_dot_from(bs, 0);
    }
    while i < n && b[i] != 46
        invariant
            bs == b@,
            n == bs.len(),
            i <= dot_from(bs, 0),
            dot_from(bs, 0) == dot_from(bs, i as int),
            full@.len() == 11,
            forall|k: int| 0 <= k < 8 ==> full@[k] == (if k < i { bs[k] } else { 32u8 }),
            forall|k: int| 8 <= k < 11 ==> full@[k] == 32u8,
        decreases n - i,
    {
        if i < 8 {
            full[i] = b[i];
        }
        proof {
            lemma_dot_from(bs, i + 1);
        }
        i = i + 1;
    }
    let d = i;
    if d < n {
        proof {
            lemma_dot_from(bs, d + 1);
        }
        let mut j: usize = d + 1;
        while j < n && b[j] != 46
            invariant
                bs == b@,
                n == bs.len(),
                d < n,
                d == dot_from(bs, 0),
                d + 1 <= j <= dot_from(bs, d + 1),
                dot_from(bs, d + 1) == dot_from(bs, j as int),
                full@.len() == 11,
                forall|k: int| 0 <= k < 8 ==> full@[k] == (if k < d { bs[k] } else { 32u8 }),
                forall|k: int|
                    8 <= k < 11 ==> full@[k] == (if k - 8 < j - d - 1 { bs[d + 1 + k - 8] } else {
                        32u8
                    }),
            decreases n - j,
        {
            if j - d - 1 < 3 {
                full[8 + (j - d - 1)] = b[j];
            }
            proof {
                lemma_dot_from(bs, j + 1);
            }
            j = j + 1;
        }
    }
    assert(full@ =~= short_name_bytes(bs));
    full
}

/// The checksum of a short name after `k` of its bytes: rotate right by one,
/// then add the next byte, modulo 256.
pub open spec fn checksum_upto(name: Seq<u8>, k: int) -> u8
    decreases k,
{
    if k <= 0 {
        0
    } else {
        let s = checksum_upto(name, k - 1);
        let rot = ((s & 1u8) << 7u8) | (s >> 1u8);
        ((rot + name[k - 1]) % 256) as u8
    }
}

/// The checksum that long-name records carry of their short name.
pub open spec fn lfn_checksum_spec(name: Seq<u8>) -> u8 {
    checksum_upto(name, 11)
}

pub fn lfn_checksum(short_name: &[u8; 11]) -> (res: u8)
    ensures
        res == lfn_checksum_spec(short_name@),
{
    let mut sum = 0u8;
    let mut k: usize = 0;
    while k < 11
        invariant
            k <= 11,
            sum == checksum_upto(short_name@, k as int),
        decreases 11 - k,
    {
        let rot = ((sum & 1) << 7u8) | (sum >> 1u8);
        sum = rot.wrapping_add(short_name[k]);
        k = k + 1;
    }
    sum
}

// ---------------------------------------------------------------------------
// Long names
// ---------------------------------------------------------------------------
/// The UTF-16 code units of one character.
pub open spec fn utf16_of_char(c: char) -> Seq<u16> {
    let v = c as int;
    if v < 0x10000 {
        seq![v as u16]
    } else {
        let w = v - 0x10000;
        seq![(0xD800 + w / 1024) as u16, (0xDC00 + w % 1024) as u16]
    }
}

/// The UTF-16 encoding of a character sequence.
pub open spec fn utf16_encode(s: Seq<char>) -> Seq<u16>
    decreases s.len(),
{
    if s.len() == 0 {
        Seq::empty()
    } else {
        utf16_encode(s.drop_last()) + utf16_of_char(s.last())
    }
}

proof fn lemma_utf16_encode_front(s: Seq<char>)
    requires
        s.len() > 0,
    ensures
        utf16_encode(s) == utf16_of_char(s[0]) + utf16_encode(s.drop_first()),
    decreases s.len(),
{
    if s.len() == 1 {
        assert(s.drop_last() =~= Seq::<char>::empty());
        assert(s.drop_first() =~= Seq::<char>::empty());
        assert(utf16_encode(s) =~= utf16_of_char(s[0]) + utf16_encode(s.drop_first()));
    } else {
        lemma_utf16_encode_front(s.drop_last());
        assert(s.drop_last().drop_first() =~= s.drop_first().drop_last());
        assert(s.drop_first().last() == s.last());
        assert(utf16_encode(s) =~= utf16_of_char(s[0]) + utf16_encode(s.drop_first()));
    }
}

proof fn lemma_utf16_char_decodes(c: char, rest: Seq<u16>)
    ensures
        utf16_lossy(utf16_of_char(c) + rest) == seq![c] + utf16_lossy(rest),
{
    let u = utf16_of_char(c) + rest;
    let v = c as int;
    if v < 0x10000 {
        assert(u[0] == v as u16);
        assert(u.drop_first() =~= rest);
        assert((v as u16) as char == c);
    } else {
        let w = v - 0x10000;
        let hi = (0xD800 + w / 1024) as u16;
        let lo = (0xDC00 + w % 1024) as u16;
        assert(u[0] == hi);
        assert(u[1] == lo);
        assert(u.skip(2) =~= rest);
        assert(0x10000 + (hi - 0xD800) * 0x400 + (lo - 0xDC00) == v);
        assert((0x10000 + (hi - 0xD800) * 0x400 + (lo - 0xDC00)) as char == c);
    }
}

/// The long-name text decodes back to the name it was made from: decoding
/// (as `String::from_utf16_lossy` does) the UTF-16 encoding of any text
/// gives that text.
pub proof fn lemma_utf16_round_trip(s: Seq<char>)
    ensures
        utf16_lossy(utf16_encode(s)) == s,
    decreases s.len(),
{
    if s.len() == 0 {
        assert(utf16_encode(s) =~= Seq::<u16>::empty());
        assert(s =~= Seq::<char>::empty());
    } else {
        lemma_utf16_encode_front(s);
        lemma_utf16_char_decodes(s[0], utf16_encode(s.drop_first()));
        lemma_utf16_round_trip(s.drop_first());
        assert(seq![s[0]] + s.drop_first() =~= s);
    }
}

/// `str::encode_utf16`, collected.
fn encode_utf16(s: &str) -> (res: Vec<u16>)
    ensures
        res@ == utf16_encode(s@),
{
    let n = s.unicode_len();
    let mut res: Vec<u16> = Vec::new();
    let mut i: usize = 0;
    while i < n
        invariant
            n == s@.len(),
            i <= n,
            res@ == utf16_encode(s@.take(i as int)),
        decreases n - i,
    {
        let c = s.get_char(i);
        let v = c as u32;
        assert(s@.take(i + 1).drop_last() =~= s@.take(i as int));
        if v < 0x10000 {
            res.push(v as u16);
            assert(res@ =~= utf16_encode(s@.take(i + 1)));
        } else {
            let w = v - 0x10000;
            res.push((0xD800 + w / 1024) as u16);
            res.push((0xDC00 + w % 1024) as u16);
            assert(res@ =~= utf16_encode(s@.take(i + 1)));
        }
        i = i + 1;
    }
    assert(s@.take(n as int) =~= s@);
    res
}

/// Unit `idx` of the padded name: the name, a terminating zero, then
/// `0xFFFF` filler.
pub open spec fn chunk_unit(units: Seq<u16>, idx: int) -> u16 {
    if idx < units.len() {
        units[idx]
    } else if idx == units.len() {
        0
    } else {
        0xFFFF
    }
}

/// How many 13-unit pieces a name of `n` units takes.
pub open spec fn chunk_count(n: int) -> int {
    (n + 12) / 13
}

/// Splits a name into the 13-unit pieces that long-name records carry.
pub fn utf16_chunks(name: &str) -> (res: Vec<[u16; 13]>)
    ensures
        res@.len() == chunk_count(utf16_encode(name@).len() as int),
        forall|k: int, j: int|
            0 <= k < res@.len() && 0 <= j < 13 ==> #[trigger] res@[k]@[j] == chunk_unit(
                utf16_encode(name@),
                13 * k + j,
            ),
{
    let utf16 = encode_utf16(name);
    let n = utf16.len();
    let mut chunks: Vec<[u16; 13]> = Vec::new();
    let mut i: usize = 0;
    while i < n
        invariant
            utf16@ == utf16_encode(name@),
            n == utf16@.len(),
            i <= n,
            i < n ==> i == 13 * chunks@.len(),
            chunks@.len() > 0 ==> 13 * (chunks@.len() - 1) < i <= 13 * chunks@.len(),
            chunks@.len() == 0 ==> i == 0,
            forall|k: int, j: int|
                0 <= k < chunks@.len() && 0 <= j < 13 ==> #[trigger] chunks@[k]@[j]
                    == chunk_unit(utf16@, 13 * k + j),
        decreases n - i,
    {
        let rem = n - i;
        let mut chunk = [0xFFFFu16; 13];
        let mut j: usize = 0;
        while j < 13
            invariant
                utf16@ == utf16_encode(name@),
                n == utf16@.len(),
                i < n,
                rem == n - i,
                j <= 13,
                chunk@.len() == 13,
                forall|m: int| 0 <= m < j ==> chunk@[m] == chunk_unit(utf16@, i + m),
                forall|m: int| j <= m < 13 ==> chunk@[m] == 0xFFFF,
            decreases 13 - j,
        {
            if j < rem {
                chunk[j] = utf16[i + j];
            } else if j == rem {
                chunk[j] = 0x0000;
            }
            j = j + 1;
        }
        let ghost r = chunks@.len();
        chunks.push(chunk);
        if rem > 13 {
            i = i + 13;
        } else {
            i = n;
        }
        assert forall|k: int, m: int| 0 <= k < chunks@.len() && 0 <= m < 13 implies
            #[trigger] chunks@[k]@[m] == chunk_unit(utf16@, 13 * k + m) by {
            if k == r {
                assert(chunks@[k] == chunk);
            }
        }
    }
    let r = chunks.len();
    assert(r as int == chunk_count(n as int)) by (nonlinear_arith)
        requires
            r > 0 ==> 13 * (r - 1) < n <= 13 * r,
            r == 0 ==> n == 0,
    ;
    chunks
}

/// Byte offset, inside a long-name record, of its `k`-th name unit.
pub open spec fn lfn_offset(k: int) -> int {
    if k < 5 {
        1 + 2 * k
    } else if k < 11 {
        14 + 2 * (k - 5)
    } else {
        28 + 2 * (k - 11)
    }
}

fn lfn_offset_exec(k: usize) -> (res: usize)
    requires
        k < 13,
    ensures
        res == lfn_offset(k as int),
        res + 2 <= 32,
{
    if k < 5 {
        1 + 2 * k
    } else if k < 11 {
        14 + 2 * (k - 5)
    } else {
        28 + 2 * (k - 11)
    }
}

/// The name units of the record at `p` among its first `k` slots, leaving
/// out terminators (`0x0000`) and filler (`0xFFFF`).
pub open spec fn record_units_upto(b: Seq<u8>, p: int, k: int) -> Seq<u16>
    decreases k,
{
    if k <= 0 {
        Seq::empty()
    } else {
        let prev = record_units_upto(b, p, k - 1);
        let u = le16(b, p + lfn_offset(k - 1));
        if u != 0 && u != 0xFFFF {
            prev.push(u as u16)
        } else {
            prev
        }
    }
}

pub open spec fn record_units(b: Seq<u8>, p: int) -> Seq<u16> {
    record_units_upto(b, p, 13)
}

/// The name units of the long-name records at `i`, `i + 32`, ... before `j`,
/// the last record first (records are stored in reverse order).
pub open spec fn lfn_units(b: Seq<u8>, i: int, j: int) -> Seq<u16>
    decreases j - i,
{
    if i + 32 > j {
        Seq::empty()
    } else {
        lfn_units(b, i + 32, j) + record_units(b, i)
    }
}

/// End of the run of long-name records that starts at `j`.
pub open spec fn lfn_end(b: Seq<u8>, j: int) -> int
    decreases b.len() - j,
{
    if j < 0 || j + 32 > b.len() || b[j + 11] != 0x0F {
        j
    } else {
        lfn_end(b, j + 32)
    }
}

fn push_record_units(b: &[u8], p: usize, out: &mut Vec<u16>)
    requires
        p + 32 <= b@.len(),
    ensures
        final(out)@ == old(out)@ + record_units(b@, p as int),
{
    let ghost start = out@;
    let blen = b.len();
    let mut k: usize = 0;
    while k < 13
        invariant
            blen == b@.len(),
            p + 32 <= b@.len(),
            k <= 13,
            out@ == start + record_units_upto(b@, p as int, k as int),
        decreases 13 - k,
    {
        let off = lfn_offset_exec(k);
        let u = read_le16(b, p + off);
        if u != 0 && u != 0xFFFF {
            out.push(u);
        }
        assert(out@ =~= start + record_units_upto(b@, p as int, k + 1));
        k = k + 1;
    }
}

// ---------------------------------------------------------------------------
// Directory scan
// ---------------------------------------------------------------------------
/// Where a name was found in one cluster of a directory.
pub enum DirSlot {
    /// The short record at this byte offset.
    Found(int),
    /// An end-of-directory record came first.
    End,
    /// The cluster ended without either.
    Exhausted,
}

/// Looks for a record named `target` (compared in ASCII lower case) from byte
/// `i` of a directory cluster. Deleted records are skipped; a run of long-name
/// records names the short record after it; any other record is matched by
/// its 8.3 name.
pub open spec fn scan_from(b: Seq<u8>, target: Seq<char>, i: int) -> DirSlot
    decreases b.len() - i,
{
    if i < 0 || i + 32 > b.len() {
        DirSlot::Exhausted
    } else if b[i] == 0 {
        DirSlot::End
    } else if b[i] == 0xE5 {
        scan_from(b, target, i + 32)
    } else if b[i + 11] == 0x0F {
        let j = lfn_end(b, i);
        if j + 32 <= b.len() && ascii_lowercase(utf16_lossy(lfn_units(b, i, j))) == target {
            DirSlot::Found(j)
        } else if j + 32 <= b.len() && j + 32 > i {
            scan_from(b, target, j + 32)
        } else {
            DirSlot::Exhausted
        }
    } else if ascii_lowercase(short_name_text(b.subrange(i, i + 11))) == target {
        DirSlot::Found(i)
    } else {
        scan_from(b, target, i + 32)
    }
}

/// The outcome of scanning one cluster.
pub enum ClusterScan {
    Found(DirEntry),
    End,
    Exhausted,
}

/// `res` is what `scan_from` says for the cluster.
pub open spec fn scan_agrees(res: ClusterScan, b: Seq<u8>, target: Seq<char>) -> bool {
    match scan_from(b, target, 0) {
        DirSlot::Found(p) => res matches ClusterScan::Found(e) && entry_matches(e, b, p),
        DirSlot::End => res is End,
        DirSlot::Exhausted => res is Exhausted,
    }
}

proof fn lemma_lfn_end(b: Seq<u8>, j: int)
    requires
        0 <= j,
        j % 32 == 0,
        b.len() % 32 == 0,
        j <= b.len(),
    ensures
        j <= lfn_end(b, j) <= b.len(),
        lfn_end(b, j) % 32 == 0,
    decreases b.len() - j,
{
    if j + 32 <= b.len() && b[j + 11] == 0x0F {
        lemma_lfn_end(b, j + 32);
    }
}

/// Scans one directory cluster for the record named `target` (already in
/// ASCII lower case).
#[verifier::spinoff_prover]
#[verifier::rlimit(40)]
pub fn scan_cluster(buf: &[u8], target: &str) -> (res: ClusterScan)
    requires
        buf@.len() % 32 == 0,
    ensures
        scan_agrees(res, buf@, target@),
{
    let n = buf.len();
    let ghost b = buf@;
    let mut i: usize = 0;
    while i < n
        invariant
            b == buf@,
            n == b.len(),
            n % 32 == 0,
            i <= n,
            i % 32 == 0,
            scan_from(b, target@, 0) == scan_from(b, target@, i as int),
        decreases n - i,
    {
        if buf[i] == 0x00 {
            return ClusterScan::End;
        }
        if buf[i] == 0xE5 {
            i = i + 32;
        } else if buf[i + 11] == 0x0F {
            proof {
                lemma_lfn_end(b, i as int);
            }
            let mut j = i;
            while j < n && buf[j + 11] == 0x0F
                invariant
                    b == buf@,
                    n == b.len(),
                    n % 32 == 0,
                    i <= j <= n,
                    j % 32 == 0,
                    lfn_end(b, i as int) == lfn_end(b, j as int),
                decreases n - j,
            {
                j = j + 32;
            }
            let mut units: Vec<u16> = Vec::new();
            let mut q = j;
            while q > i
                invariant
                    b == buf@,
                    n == b.len(),
                    i <= q <= j <= n,
                    (q - i) % 32 == 0,
                    units@ == lfn_units(b, q as int, j as int),
                decreases q,
            {
                let ghost before = units@;
                push_record_units(buf, q - 32, &mut units);
                assert(lfn_units(b, q - 32, j as int) == lfn_units(b, q as int, j as int)
                    + record_units(b, q - 32));
                q = q - 32;
            }
            let text = from_utf16_lossy(units.as_slice());
            let lower = to_ascii_lowercase(text.as_str());
            assert(lower@ == ascii_lowercase(utf16_lossy(lfn_units(b, i as int, j as int))));
            assert(j == lfn_end(b, i as int));
            if j < n && str_eq(lower.as_str(), target) {
                return ClusterScan::Found(entry_at(buf, j));
            }
            if j < n {
                i = j + 32;
            } else {
                i = n;
            }
        } else {
            let raw = vstd::slice::slice_subrange(buf, i, i + 11);
            let formatted = parse_8_3_name(raw);
            let lower = to_ascii_lowercase(formatted.as_str());
            assert(raw@ == b.subrange(i as int, i + 11));
            assert(lower@ == ascii_lowercase(short_name_text(b.subrange(i as int, i + 11))));
            if str_eq(lower.as_str(), target) {
                return ClusterScan::Found(entry_at(buf, i));
            }
            i = i + 32;
        }
    }
    ClusterScan::Exhausted
}

// ---------------------------------------------------------------------------
// The allocation table
// ---------------------------------------------------------------------------
/// The link stored for `cluster` in the FAT sector that holds it: the low 28
/// bits of its entry, with end-of-chain marks read as 0.
pub open spec fn fat_link(sector: Seq<u8>, cluster: u32, bps: u16) -> u32 {
    let off = (cluster * 4) % (bps as int);
    let e = le32(sector, off) % 0x1000_0000;
    if e >= 0x0FFF_FFF8 {
        0
    } else {
        e as u32
    }
}

/// Reads the link for `cluster` out of the FAT sector that holds it.
pub fn fat_link_in(sector: &[u8], cluster: u32, bps: u16) -> (res: u32)
    requires
        bps > 0,
        bps % 4 == 0,
        sector@.len() == bps,
    ensures
        res == fat_link(sector@, cluster, bps),
{
    let off = ((cluster as u64 * 4) % (bps as u64)) as usize;
    proof {
        let x = cluster * 4;
        let q: int = bps as int / 4;
        assert(4 * q == bps as int);
        vstd::arithmetic::div_mod::lemma_mod_mod(x, 4, q);
        assert(off % 4 == 0);
    }
    assert(off + 4 <= bps) by (nonlinear_arith)
        requires
            off % 4 == 0,
            bps % 4 == 0,
            off < bps,
    ;
    let v = read_le32(sector, off);
    let e = v & 0x0FFF_FFFF;
    assert(v & 0x0FFF_FFFF == v % 0x1000_0000) by (bit_vector);
    if e >= 0x0FFF_FFF8 {
        0
    } else {
        e
    }
}

// ---------------------------------------------------------------------------
// Building directory records
// ---------------------------------------------------------------------------
/// Which name unit the byte at `q` of a long-name record belongs to, or -1.
pub open spec fn lfn_slot(q: int) -> int {
    if 1 <= q < 11 {
        (q - 1) / 2
    } else if 14 <= q < 26 {
        5 + (q - 14) / 2
    } else if 28 <= q < 32 {
        11 + (q - 28) / 2
    } else {
        -1
    }
}

/// Whether the byte at `q` is the low byte of its unit.
pub open spec fn lfn_low(q: int) -> bool {
    if 1 <= q < 11 {
        q % 2 == 1
    } else {
        q % 2 == 0
    }
}

/// A long-name record: sequence number (with 0x40 on the last piece), the
/// attribute 0x0F, the short-name checksum and the 13 units of its piece.
pub open spec fn lfn_record(chunk: Seq<u16>, seq_no: u8, last: bool, checksum: u8) -> Seq<u8> {
    Seq::new(
        32,
        |q: int|
            if q == 0 {
                if last {
                    0x40u8 | seq_no
                } else {
                    seq_no
                }
            } else if q == 11 {
                0x0Fu8
            } else if q == 13 {
                checksum
            } else if lfn_slot(q) >= 0 {
                let u = chunk[lfn_slot(q)];
                if lfn_low(q) {
                    (u % 256) as u8
                } else {
                    (u / 256) as u8
                }
            } else {
                0u8
            },
    )
}

/// Piece `n` of a name's units, padded.
pub open spec fn name_chunk(units: Seq<u16>, n: int) -> Seq<u16> {
    Seq::new(13, |j: int| chunk_unit(units, 13 * n + j))
}

/// The long-name records of a name as they are laid out on disk: the last
/// piece first (flagged 0x40), down to the first piece.
pub open spec fn lfn_records(units: Seq<u16>, checksum: u8) -> Seq<u8> {
    let count = chunk_count(units.len() as int);
    Seq::new(
        (count * 32) as nat,
        |p: int|
            lfn_record(
                name_chunk(units, count - 1 - p / 32),
                (count - p / 32) as u8,
                p / 32 == 0,
                checksum,
            )[p % 32],
    )
}

/// A short directory record: the 8.3 name, the attribute, the first cluster
/// (high half at 20, low half at 26) and the size, little-endian.
pub open spec fn short_record(short: Seq<u8>, attr: u8, cluster: u32, size: u32) -> Seq<u8> {
    Seq::new(
        32,
        |q: int|
            if q < 11 {
                short[q]
            } else if q == 11 {
                attr
            } else if q == 20 {
                ((cluster / 0x1_0000) % 256) as u8
            } else if q == 21 {
                ((cluster / 0x100_0000) % 256) as u8
            } else if q == 26 {
                (cluster % 256) as u8
            } else if q == 27 {
                ((cluster / 256) % 256) as u8
            } else if q == 28 {
                (size % 256) as u8
            } else if q == 29 {
                ((size / 256) % 256) as u8
            } else if q == 30 {
                ((size / 0x1_0000) % 256) as u8
            } else if q == 31 {
                ((size / 0x100_0000) % 256) as u8
            } else {
                0u8
            },
    )
}

/// All records for one directory entry: its long-name records, then its
/// short record.
pub open spec fn dir_records(
    units: Seq<u16>,
    short: Seq<u8>,
    attr: u8,
    cluster: u32,
    size: u32,
) -> Seq<u8> {
    lfn_records(units, lfn_checksum_spec(short)) + short_record(short, attr, cluster, size)
}

fn lfn_record_exec(chunk: &[u16; 13], seq_no: u8, last: bool, checksum: u8) -> (res: [u8; 32])
    ensures
        res@ == lfn_record(chunk@, seq_no, last, checksum),
{
    let mut e = [0u8; 32];
    e[0] = if last {
        0x40 | seq_no
    } else {
        seq_no
    };
    e[11] = 0x0F;
    e[13] = checksum;
    let mut k: usize = 0;
    while k < 13
        invariant
            k <= 13,
            e@.len() == 32,
            e@[0] == (if last {
                0x40u8 | seq_no
            } else {
                seq_no
            }),
            e@[11] == 0x0Fu8,
            e@[13] == checksum,
            forall|q: int|
                0 <= q < 32 && q != 0 && q != 11 && q != 13 ==> #[trigger] e@[q] == (if 0
                    <= lfn_slot(q) < k {
                    let u = chunk@[lfn_slot(q)];
                    if lfn_low(q) {
                        (u % 256) as u8
                    } else {
                        (u / 256) as u8
                    }
                } else {
                    0u8
                }),
        decreases 13 - k,
    {
        let off = lfn_offset_exec(k);
        let u = chunk[k];
        e[off] = (u % 256) as u8;
        e[off + 1] = (u / 256) as u8;
        k = k + 1;
    }
    assert(e@ =~= lfn_record(chunk@, seq_no, last, checksum));
    e
}

/// Builds the short record for an entry.
pub fn short_record_exec(short: &[u8; 11], attr: u8, cluster: u32, size: u32) -> (res: [u8; 32])
    ensures
        res@ == short_record(short@, attr, cluster, size),
{
    let mut s = [0u8; 32];
    let mut k: usize = 0;
    while k < 11
        invariant
            k <= 11,
            s@.len() == 32,
            forall|q: int| 0 <= q < k ==> s@[q] == short@[q],
            forall|q: int| k <= q < 32 ==> s@[q] == 0u8,
        decreases 11 - k,
    {
        s[k] = short[k];
        k = k + 1;
    }
    s[11] = attr;
    s[20] = ((cluster / 0x1_0000) % 256) as u8;
    s[21] = ((cluster / 0x100_0000) % 256) as u8;
    s[26] = (cluster % 256) as u8;
    s[27] = ((cluster / 256) % 256) as u8;
    s[28] = (size % 256) as u8;
    s[29] = ((size / 256) % 256) as u8;
    s[30] = ((size / 0x1_0000) % 256) as u8;
    s[31] = ((size / 0x100_0000) % 256) as u8;
    assert(s@ =~= short_record(short@, attr, cluster, size));
    s
}

/// Builds the long-name records and the short record for a new entry named
/// `name`, in their on-disk order.
pub fn build_dir_records(name: &str, short: &[u8; 11], attr: u8, cluster: u32, size: u32) -> (res:
    Vec<u8>)
    ensures
        res@ == dir_records(utf16_encode(name@), short@, attr, cluster, size),
{
    let ghost units = utf16_encode(name@);
    let chunks = utf16_chunks(name);
    let checksum = lfn_checksum(short);
    let count = chunks.len();
    let ghost lfn = lfn_records(units, checksum);
    let mut out: Vec<u8> = Vec::new();
    let mut m: usize = 0;
    while m < count
        invariant
            count == chunks@.len(),
            count == chunk_count(units.len() as int),
            checksum == lfn_checksum_spec(short@),
            lfn == lfn_records(units, checksum),
            forall|k: int, j: int|
                0 <= k < chunks@.len() && 0 <= j < 13 ==> #[trigger] chunks@[k]@[j]
                    == chunk_unit(units, 13 * k + j),
            m <= count,
            out@.len() == 32 * m,
            forall|p: int| 0 <= p < out@.len() ==> out@[p] == lfn[p],
        decreases count - m,
    {
        let n = count - 1 - m;
        let rec = lfn_record_exec(&chunks[n], (n + 1) as u8, n == count - 1, checksum);
        assert(chunks@[n as int]@ =~= name_chunk(units, n as int));
        let ghost before = out@;
        let mut q: usize = 0;
        while q < 32
            invariant
                q <= 32,
                out@.len() == before.len() + q,
                forall|p: int| 0 <= p < before.len() ==> out@[p] == before[p],
                forall|p: int| 0 <= p < q ==> out@[before.len() + p] == rec@[p],
            decreases 32 - q,
        {
            out.push(rec[q]);
            q = q + 1;
        }
        assert forall|p: int| 0 <= p < out@.len() implies out@[p] == lfn[p] by {
            if p >= before.len() {
                let r = p - before.len();
                assert(p / 32 == m as int) by (nonlinear_arith)
                    requires
                        p == 32 * m + r,
                        0 <= r < 32,
                ;
                assert(p % 32 == r) by (nonlinear_arith)
                    requires
                        p == 32 * m + r,
                        0 <= r < 32,
                ;
            }
        }
        m = m + 1;
    }
    assert(out@ =~= lfn);
    let s = short_record_exec(short, attr, cluster, size);
    let mut q: usize = 0;
    while q < 32
        invariant
            q <= 32,
            out@ == lfn + s@.take(q as int),
        decreases 32 - q,
    {
        out.push(s[q]);
        assert(s@.take(q + 1) =~= s@.take(q as int).push(s@[q as int]));
        q = q + 1;
    }
    assert(s@.take(32) =~= s@);
    out
}

// ---------------------------------------------------------------------------
// Reading back what was built
// ---------------------------------------------------------------------------
/// No unit of the name is a terminator (0x0000) or filler (0xFFFF) value.
pub open spec fn plain_units(units: Seq<u16>) -> bool {
    forall|i: int| 0 <= i < units.len() ==> #[trigger] units[i] != 0 && units[i] != 0xFFFF
}

proof fn lemma_lfn_byte(units: Seq<u16>, checksum: u8, k: int, q: int)
    requires
        0 <= k < chunk_count(units.len() as int),
        0 <= q < 32,
    ensures
        lfn_records(units, checksum)[32 * k + q] == lfn_record(
            name_chunk(units, chunk_count(units.len() as int) - 1 - k),
            (chunk_count(units.len() as int) - k) as u8,
            k == 0,
            checksum,
        )[q],
{
    vstd::arithmetic::div_mod::lemma_fundamental_div_mod_converse(32 * k + q, 32, k, q);
    assert(32 * k + q < 32 * chunk_count(units.len() as int)) by (nonlinear_arith)
        requires
            k < chunk_count(units.len() as int),
            q < 32,
    ;
}

/// Unit `t` of long-name record `k` reads back as unit `t` of the piece it
/// carries.
proof fn lemma_record_unit(units: Seq<u16>, short: Seq<u8>, attr: u8, cluster: u32, size: u32, k: int, t: int)
    requires
        0 <= k < chunk_count(units.len() as int),
        0 <= t < 13,
    ensures
        le16(dir_records(units, short, attr, cluster, size), 32 * k + lfn_offset(t)) == chunk_unit(
            units,
            13 * (chunk_count(units.len() as int) - 1 - k) + t,
        ),
{
    let n = chunk_count(units.len() as int);
    let b = dir_records(units, short, attr, cluster, size);
    let lfn = lfn_records(units, lfn_checksum_spec(short));
    let o = lfn_offset(t);
    lemma_lfn_byte(units, lfn_checksum_spec(short), k, o);
    lemma_lfn_byte(units, lfn_checksum_spec(short), k, o + 1);
    assert(32 * k + o + 1 < lfn.len()) by (nonlinear_arith)
        requires
            k < n,
            o + 1 < 32,
            lfn.len() == 32 * n,
    ;
    assert(b[32 * k + o] == lfn[32 * k + o]);
    assert(b[32 * k + o + 1] == lfn[32 * k + o + 1]);
    assert(lfn_slot(o) == t && lfn_low(o) && lfn_slot(o + 1) == t && !lfn_low(o + 1));
    let u = name_chunk(units, n - 1 - k)[t];
    assert(u % 256 + 256 * (u / 256) == u);
}

/// The units record `k` yields, over its first `t` slots: the part of its
/// piece that lies within the name.
proof fn lemma_record_units_upto(units: Seq<u16>, short: Seq<u8>, attr: u8, cluster: u32, size: u32, k: int, t: int)
    requires
        plain_units(units),
        0 <= k < chunk_count(units.len() as int),
        0 <= t <= 13,
    ensures
        ({
            let m = chunk_count(units.len() as int) - 1 - k;
            let hi = if 13 * m + t < units.len() { 13 * m + t } else { units.len() as int };
            record_units_upto(dir_records(units, short, attr, cluster, size), 32 * k, t)
                == units.subrange(13 * m, hi)
        }),
    decreases t,
{
    let n = chunk_count(units.len() as int);
    let m = n - 1 - k;
    assert(13 * m < units.len()) by (nonlinear_arith)
        requires
            n == (units.len() + 12) / 13,
            0 <= m < n,
    ;
    if t > 0 {
        lemma_record_units_upto(units, short, attr, cluster, size, k, t - 1);
        lemma_record_unit(units, short, attr, cluster, size, k, t - 1);
        let idx = 13 * m + t - 1;
        if idx < units.len() {
            assert(units.subrange(13 * m, idx + 1) =~= units.subrange(13 * m, idx).push(units[idx]));
        }
    } else {
        assert(units.subrange(13 * m, 13 * m) =~= Seq::<u16>::empty());
    }
}

/// The long-name records from record `k` on read back as the name's first
/// pieces.
proof fn lemma_lfn_units_from(units: Seq<u16>, short: Seq<u8>, attr: u8, cluster: u32, size: u32, k: int)
    requires
        plain_units(units),
        0 <= k <= chunk_count(units.len() as int),
    ensures
        ({
            let n = chunk_count(units.len() as int);
            let hi = if 13 * (n - k) < units.len() { 13 * (n - k) } else { units.len() as int };
            lfn_units(dir_records(units, short, attr, cluster, size), 32 * k, 32 * n) == units.subrange(0, hi)
        }),
    decreases chunk_count(units.len() as int) - k,
{
    let n = chunk_count(units.len() as int);
    let b = dir_records(units, short, attr, cluster, size);
    if k < n {
        lemma_lfn_units_from(units, short, attr, cluster, size, k + 1);
        lemma_record_units_upto(units, short, attr, cluster, size, k, 13);
        let m = n - 1 - k;
        assert(13 * m < units.len()) by (nonlinear_arith)
            requires
                n == (units.len() + 12) / 13,
                0 <= m < n,
        ;
        assert(32 * (k + 1) == 32 * k + 32);
        let lo = if 13 * (n - k - 1) < units.len() { 13 * (n - k - 1) } else { units.len() as int };
        assert(lo == 13 * m);
        let hi = if 13 * (n - k) < units.len() { 13 * (n - k) } else { units.len() as int };
        assert(units.subrange(0, hi) =~= units.subrange(0, lo) + units.subrange(13 * m, hi));
    } else {
        assert(units.subrange(0, 0) =~= Seq::<u16>::empty());
    }
}

/// The run of long-name records from record `k` ends where the short record
/// starts.
proof fn lemma_lfn_end_built(units: Seq<u16>, short: Seq<u8>, attr: u8, cluster: u32, size: u32, k: int)
    requires
        attr != 0x0F,
        0 <= k <= chunk_count(units.len() as int),
    ensures
        lfn_end(dir_records(units, short, attr, cluster, size), 32 * k) == 32 * chunk_count(units.len() as int),
    decreases chunk_count(units.len() as int) - k,
{
    let n = chunk_count(units.len() as int);
    let b = dir_records(units, short, attr, cluster, size);
    if k < n {
        lemma_lfn_byte(units, lfn_checksum_spec(short), k, 11);
        assert(32 * k + 11 < 32 * n);
        assert(b[32 * k + 11] == 0x0F);
        lemma_lfn_end_built(units, short, attr, cluster, size, k + 1);
        assert(32 * k + 32 == 32 * (k + 1));
    } else {
        assert(b[32 * n + 11] == attr);
    }
}

/// The records built for a directory entry read back as written: the
/// long-name records run up to the short record, their units spell the
/// name exactly (for names without terminator or filler units), each
/// carries the short name's checksum, and the short record holds the 8.3
/// name, the attribute, the first cluster and the size.
#[verifier::spinoff_prover]
#[verifier::rlimit(80)]
pub proof fn lemma_dir_records_read_back(units: Seq<u16>, short: Seq<u8>, attr: u8, cluster: u32, size: u32)
    requires
        plain_units(units),
        short.len() == 11,
        attr != 0x0F,
    ensures
        ({
            let b = dir_records(units, short, attr, cluster, size);
            let n = chunk_count(units.len() as int);
            &&& b.len() == 32 * n + 32
            &&& lfn_end(b, 0) == 32 * n
            &&& lfn_units(b, 0, 32 * n) == units
            &&& forall|k: int| 0 <= k < n ==> #[trigger] b[32 * k + 13] == lfn_checksum_spec(short)
            &&& b.subrange(32 * n, 32 * n + 11) == short
            &&& b[32 * n + 11] == attr
            &&& le16(b, 32 * n + 20) * 0x1_0000 + le16(b, 32 * n + 26) == cluster
            &&& le32(b, 32 * n + 28) == size
        }),
{
    let b = dir_records(units, short, attr, cluster, size);
    let n = chunk_count(units.len() as int);
    lemma_lfn_end_built(units, short, attr, cluster, size, 0);
    lemma_lfn_units_from(units, short, attr, cluster, size, 0);
    assert(13 * n >= units.len()) by (nonlinear_arith)
        requires
            n == (units.len() + 12) / 13,
    ;
    assert(units.subrange(0, units.len() as int) =~= units);
    assert forall|k: int| 0 <= k < n implies #[trigger] b[32 * k + 13] == lfn_checksum_spec(short) by {
        lemma_lfn_byte(units, lfn_checksum_spec(short), k, 13);
        assert(32 * k + 13 < 32 * n);
    }
    assert(b.subrange(32 * n, 32 * n + 11) =~= short);
}

proof fn lemma_placed_byte(img: Seq<u8>, i: int, recs: Seq<u8>, x: int)
    requires
        0 <= i,
        i + recs.len() <= img.len(),
        0 <= x < recs.len(),
    ensures
        placed(img, i, recs)[i + x] == recs[x],
        placed(img, i, recs).len() == img.len(),
{
}

proof fn lemma_record_units_placed(img: Seq<u8>, i: int, recs: Seq<u8>, p: int, k: int)
    requires
        0 <= i,
        i + recs.len() <= img.len(),
        0 <= p,
        p + 32 <= recs.len(),
        0 <= k <= 13,
    ensures
        record_units_upto(placed(img, i, recs), i + p, k) == record_units_upto(recs, p, k),
    decreases k,
{
    if k > 0 {
        lemma_record_units_placed(img, i, recs, p, k - 1);
        let o = lfn_offset(k - 1);
        lemma_placed_byte(img, i, recs, p + o);
        lemma_placed_byte(img, i, recs, p + o + 1);
    }
}

proof fn lemma_lfn_units_placed(img: Seq<u8>, i: int, recs: Seq<u8>, a: int, c: int)
    requires
        0 <= i,
        i + recs.len() <= img.len(),
        0 <= a <= c <= recs.len(),
        (c - a) % 32 == 0,
    ensures
        lfn_units(placed(img, i, recs), i + a, i + c) == lfn_units(recs, a, c),
    decreases c - a,
{
    if a + 32 <= c {
        lemma_lfn_units_placed(img, i, recs, a + 32, c);
        lemma_record_units_placed(img, i, recs, a, 13);
    }
}

proof fn lemma_lfn_end_placed(img: Seq<u8>, i: int, units: Seq<u16>, short: Seq<u8>, attr: u8, cluster: u32, size: u32, k: int)
    requires
        attr != 0x0F,
        0 <= i,
        i + 32 * chunk_count(units.len() as int) + 32 <= img.len(),
        0 <= k <= chunk_count(units.len() as int),
    ensures
        lfn_end(placed(img, i, dir_records(units, short, attr, cluster, size)), i + 32 * k) == i + 32
            * chunk_count(units.len() as int),
    decreases chunk_count(units.len() as int) - k,
{
    let n = chunk_count(units.len() as int);
    let recs = dir_records(units, short, attr, cluster, size);
    if k < n {
        lemma_lfn_byte(units, lfn_checksum_spec(short), k, 11);
        lemma_placed_byte(img, i, recs, 32 * k + 11);
        lemma_lfn_end_placed(img, i, units, short, attr, cluster, size, k + 1);
        assert(i + 32 * k + 32 == i + 32 * (k + 1));
    } else {
        lemma_placed_byte(img, i, recs, 32 * n + 11);
    }
}

/// An entry written into a directory cluster is found where it was written:
/// after the records for a name (without terminator or filler units, of at
/// most 63 long-name records) are placed at byte `i`, a scan for the name
/// (as the long-name records decode it, in ASCII lower case) that reaches
/// `i` stops at the new short record, which holds the attribute, the first
/// cluster and the size written.
pub proof fn lemma_scan_finds_placed_entry(
    img: Seq<u8>,
    i: int,
    units: Seq<u16>,
    short: Seq<u8>,
    attr: u8,
    cluster: u32,
    size: u32,
)
    requires
        plain_units(units),
        1 <= units.len(),
        chunk_count(units.len() as int) < 64,
        short.len() == 11,
        attr != 0x0F,
        0 <= i,
        i + 32 * chunk_count(units.len() as int) + 32 <= img.len(),
    ensures
        ({
            let n = chunk_count(units.len() as int);
            let b = placed(img, i, dir_records(units, short, attr, cluster, size));
            &&& scan_from(b, ascii_lowercase(utf16_lossy(units)), i) == DirSlot::Found(i + 32 * n)
            &&& b.subrange(i + 32 * n, i + 32 * n + 11) == short
            &&& b[i + 32 * n + 11] == attr
            &&& le16(b, i + 32 * n + 20) * 0x1_0000 + le16(b, i + 32 * n + 26) == cluster
            &&& le32(b, i + 32 * n + 28) == size
        }),
{
    let n = chunk_count(units.len() as int);
    let recs = dir_records(units, short, attr, cluster, size);
    let b = placed(img, i, recs);
    lemma_dir_records_read_back(units, short, attr, cluster, size);
    assert(n >= 1) by (nonlinear_arith)
        requires
            n == (units.len() + 12) / 13,
            units.len() >= 1,
    ;
    lemma_lfn_byte(units, lfn_checksum_spec(short), 0, 0);
    lemma_lfn_byte(units, lfn_checksum_spec(short), 0, 11);
    lemma_placed_byte(img, i, recs, 0);
    lemma_placed_byte(img, i, recs, 11);
    let seq_no = n as u8;
    assert(seq_no == n);
    assert(forall|x: u8| x < 64 ==> (0x40u8 | x) == 0x40 + x) by (bit_vector);
    assert(b[i] == 0x40 + n);
    lemma_lfn_end_placed(img, i, units, short, attr, cluster, size, 0);
    lemma_lfn_units_placed(img, i, recs, 0, 32 * n);
    assert forall|x: int| 0 <= x < 32 implies #[trigger] b[i + 32 * n + x] == recs[32 * n + x] by {
        lemma_placed_byte(img, i, recs, 32 * n + x);
    }
    assert(b.subrange(i + 32 * n, i + 32 * n + 11) =~= recs.subrange(32 * n, 32 * n + 11));
}

/// A file or directory written under a name is found by that name: after
/// the records of a new entry named `name` (whose UTF-16 form has no NUL or
/// 0xFFFF unit and needs at most 63 long-name records) are placed at byte
/// `i`, a scan for the name in ASCII lower case that reaches `i` stops at
/// the entry's short record, which holds the attribute, the first cluster
/// and the size written.
pub proof fn lemma_scan_finds_named_entry(
    img: Seq<u8>,
    i: int,
    name: Seq<char>,
    attr: u8,
    cluster: u32,
    size: u32,
)
    requires
        plain_units(utf16_encode(name)),
        1 <= utf16_encode(name).len(),
        chunk_count(utf16_encode(name).len() as int) < 64,
        attr != 0x0F,
        0 <= i,
        i + 32 * chunk_count(utf16_encode(name).len() as int) + 32 <= img.len(),
    ensures
        ({
            let n = chunk_count(utf16_encode(name).len() as int);
            let b = placed(img, i, entry_records(name, attr, cluster, size));
            &&& scan_from(b, ascii_lowercase(name), i) == DirSlot::Found(i + 32 * n)
            &&& b.subrange(i + 32 * n, i + 32 * n + 11) == short_name_bytes(encode_utf8(name))
            &&& b[i + 32 * n + 11] == attr
            &&& le16(b, i + 32 * n + 20) * 0x1_0000 + le16(b, i + 32 * n + 26) == cluster
            &&& le32(b, i + 32 * n + 28) == size
        }),
{
    lemma_utf16_round_trip(name);
    lemma_scan_finds_placed_entry(
        img,
        i,
        utf16_encode(name),
        short_name_bytes(encode_utf8(name)),
        attr,
        cluster,
        size,
    );
}

/// Whether the record slot at byte `p` is unused (never used, or deleted).
pub open spec fn slot_free(b: Seq<u8>, p: int) -> bool {
    b[p] == 0 || b[p] == 0xE5
}

pub open spec fn slot_free_at(b: Seq<u8>, i: int, j: int) -> bool {
    slot_free(b, i + 32 * j)
}

/// `n` record slots from byte `i` on are unused.
pub open spec fn run_free(b: Seq<u8>, i: int, n: int) -> bool {
    forall|j: int| 0 <= j < n ==> #[trigger] slot_free_at(b, i, j)
}

/// The first byte offset, from `i` on in steps of 32, where `n` consecutive
/// unused slots fit, or -1.
pub open spec fn first_free_run(b: Seq<u8>, n: int, i: int) -> int
    decreases b.len() - i,
{
    if i < 0 || i + 32 * n > b.len() {
        -1
    } else if run_free(b, i, n) {
        i
    } else if n >= 1 {
        first_free_run(b, n, i + 32)
    } else {
        -1
    }
}

/// Finds room for `n` records in a directory cluster.
pub fn find_free_run(buf: &[u8], n: usize) -> (res: Option<usize>)
    ensures
        res is None <==> first_free_run(buf@, n as int, 0) == -1,
        res matches Some(i) ==> i == first_free_run(buf@, n as int, 0),
{
    let len = buf.len();
    let need = match n.checked_mul(32) {
        Some(v) => v,
        None => {
            return None;
        },
    };
    let mut i: usize = 0;
    while need <= len - i
        invariant
            len == buf@.len(),
            need == 32 * n,
            i <= len,
            first_free_run(buf@, n as int, 0) == first_free_run(buf@, n as int, i as int),
        decreases len - i,
    {
        let mut empty = true;
        let mut j: usize = 0;
        while j < n
            invariant_except_break
                empty,
                forall|k: int| 0 <= k < j ==> #[trigger] slot_free_at(buf@, i as int, k),
            invariant
                len == buf@.len(),
                need == 32 * n,
                i + need <= len,
                j <= n,
            ensures
                empty <==> (forall|k: int| 0 <= k < n ==> #[trigger] slot_free_at(buf@, i as int, k)),
            decreases n - j,
        {
            assert(i + j * 32 < len) by (nonlinear_arith)
                requires
                    j < n,
                    i + 32 * n <= len,
            ;
            let b = buf[i + j * 32];
            if b != 0x00 && b != 0xE5 {
                empty = false;
                assert(!slot_free_at(buf@, i as int, j as int));
                break;
            }
            j = j + 1;
        }
        if empty {
            return Some(i);
        }
        assert(n >= 1);
        if len - i < 32 {
            assert(first_free_run(buf@, n as int, i + 32) == -1);
            return None;
        }
        i = i + 32;
    }
    None
}

/// `b` with `recs` written from byte `i` on.
pub open spec fn placed(b: Seq<u8>, i: int, recs: Seq<u8>) -> Seq<u8> {
    b.subrange(0, i) + recs + b.subrange(i + recs.len(), b.len() as int)
}

/// Writes records into a directory cluster at byte `i`.
pub fn place_records(buf: &mut Vec<u8>, i: usize, recs: &[u8])
    requires
        i + recs@.len() <= old(buf)@.len(),
    ensures
        final(buf)@ == placed(old(buf)@, i as int, recs@),
{
    let n = recs.len();
    let blen = buf.len();
    let mut k: usize = 0;
    while k < n
        invariant
            n == recs@.len(),
            blen == buf@.len(),
            i + n <= buf@.len(),
            buf@.len() == old(buf)@.len(),
            k <= n,
            forall|p: int|
                0 <= p < buf@.len() ==> buf@[p] == (if i <= p < i + k {
                    recs@[p - i]
                } else {
                    old(buf)@[p]
                }),
        decreases n - k,
    {
        buf.set(i + k, recs[k]);
        k = k + 1;
    }
    assert(buf@ =~= placed(old(buf)@, i as int, recs@));
}

/// The name `.` or `..` padded to eleven bytes.
pub open spec fn dots_name(dots: int) -> Seq<u8> {
    Seq::new(11, |k: int| if k < dots { 46u8 } else { 32u8 })
}

/// The first sector of a new directory's cluster: the `.` record for itself,
/// the `..` record for its parent, and zeros.
pub open spec fn directory_image(cluster: u32, parent: u32) -> Seq<u8> {
    short_record(dots_name(1), 0x10, cluster, 0) + short_record(dots_name(2), 0x10, parent, 0)
        + Seq::new(448, |k: int| 0u8)
}

pub fn directory_image_exec(cluster: u32, parent: u32) -> (res: Vec<u8>)
    ensures
        res@ == directory_image(cluster, parent),
{
    let mut dot = [32u8; 11];
    dot[0] = 46;
    let mut dotdot = [32u8; 11];
    dotdot[0] = 46;
    dotdot[1] = 46;
    assert(dot@ =~= dots_name(1));
    assert(dotdot@ =~= dots_name(2));
    let a = short_record_exec(&dot, 0x10, cluster, 0);
    let b = short_record_exec(&dotdot, 0x10, parent, 0);
    let mut out: Vec<u8> = Vec::new();
    let mut k: usize = 0;
    while k < 512
        invariant
            k <= 512,
            out@.len() == k,
            forall|p: int|
                0 <= p < k ==> out@[p] == (if p < 32 {
                    a@[p]
                } else if p < 64 {
                    b@[p - 32]
                } else {
                    0u8
                }),
        decreases 512 - k,
    {
        if k < 32 {
            out.push(a[k]);
        } else if k < 64 {
            out.push(b[k - 32]);
        } else {
            out.push(0);
        }
        k = k + 1;
    }
    assert(out@ =~= directory_image(cluster, parent));
    out
}

/// `b` with the little-endian bytes of `v` stored at `off`.
pub open spec fn with_le32(b: Seq<u8>, off: int, v: u32) -> Seq<u8> {
    Seq::new(
        b.len(),
        |k: int|
            if k == off {
                (v % 256) as u8
            } else if k == off + 1 {
                ((v / 256) % 256) as u8
            } else if k == off + 2 {
                ((v / 0x1_0000) % 256) as u8
            } else if k == off + 3 {
                ((v / 0x100_0000) % 256) as u8
            } else {
                b[k]
            },
    )
}

fn store_le32(b: &mut Vec<u8>, off: usize, v: u32)
    requires
        off + 4 <= old(b)@.len(),
    ensures
        final(b)@ == with_le32(old(b)@, off as int, v),
{
    let blen = b.len();
    assert(off + 4 <= blen);
    b.set(off, (v % 256) as u8);
    b.set(off + 1, ((v / 256) % 256) as u8);
    b.set(off + 2, ((v / 0x1_0000) % 256) as u8);
    b.set(off + 3, ((v / 0x100_0000) % 256) as u8);
    assert(b@ =~= with_le32(old(b)@, off as int, v));
}

/// The free clusters among the first `e` entries of a FAT sector: those
/// whose 32-bit entry is zero, numbered `sector * per_sector + entry`.
pub open spec fn free_entries(buf: Seq<u8>, sector: int, per_sector: int, e: int) -> Seq<u32>
    decreases e,
{
    if e <= 0 {
        Seq::empty()
    } else {
        let prev = free_entries(buf, sector, per_sector, e - 1);
        if le32(buf, 4 * (e - 1)) == 0 {
            prev.push((sector * per_sector + e - 1) as u32)
        } else {
            prev
        }
    }
}

/// What collecting a sector's free clusters leaves in the list: everything
/// when it already held `count` or more, else up to `count` clusters.
pub open spec fn after_collect(prev: Seq<u32>, free: Seq<u32>, count: int) -> Seq<u32> {
    let all = prev + free;
    if prev.len() < count && all.len() > count {
        all.take(count)
    } else {
        all
    }
}

/// The free clusters the allocator holds after the table-sector reads
/// `scan` (sector `k` read by `scan[k]`), `per` entries a sector, when it
/// aims at `count` (see `after_collect`).
pub open spec fn collected(scan: Seq<DiskOp>, per: int, count: int) -> Seq<u32>
    decreases scan.len(),
{
    if scan.len() == 0 {
        Seq::empty()
    } else {
        after_collect(
            collected(scan.drop_last(), per, count),
            free_entries(op_data(scan.last()), scan.len() - 1, per, per),
            count,
        )
    }
}

/// Whether reading table sector `k` made the allocator's list reach `count`.
pub open spec fn filled_at(scan: Seq<DiskOp>, per: int, count: int, k: int) -> bool {
    collected(scan.take(k), per, count).len() < count && collected(scan.take(k + 1), per, count).len()
        == count
}

/// The allocator's scan of the table: 512-byte reads of consecutive table
/// sectors from the first (each addressed as the port, at block 0), in
/// order; it ends at the first failed read, after the sector that made the
/// list reach `count`, or after the last table sector.
pub open spec fn table_scan(s: FatState, scan: Seq<DiskOp>, count: int) -> bool {
    let per = (s.bytes_per_sector / 4) as int;
    &&& scan.len() <= s.sectors_per_fat
    &&& forall|k: int|
        0 <= k < scan.len() ==> (#[trigger] scan[k] matches DiskOp::Read(p, l, d, _) && p
            == s.fat_start_sector + k && l == 0 && d.len() == 512)
    &&& forall|k: int| 0 <= k < scan.len() - 1 ==> op_ok(#[trigger] scan[k]) && !filled_at(scan, per, count, k)
    &&& scan.len() < s.sectors_per_fat ==> scan.len() > 0 && (!op_ok(scan.last()) || filled_at(
        scan,
        per,
        count,
        scan.len() - 1,
    ))
}

/// The table entry a cluster of an allocated list is linked to: the next
/// cluster of the list, or the end mark for the last.
pub open spec fn link_target(list: Seq<u32>, i: int) -> u32 {
    if i == list.len() - 1 { 0x0FFF_FFFFu32 } else { list[i + 1] }
}

/// Linking the clusters of `list` from position `i` on into a chain: each
/// one's table entry set to its target (see `fat_entry_update`), in order,
/// ending at the first failure.
pub open spec fn link_updates(s: FatState, list: Seq<u32>, i: int, run: Seq<DiskOp>, res: Result<(), FSError>) -> bool
    decreases list.len() - i,
{
    if i < 0 || i >= list.len() {
        run.len() == 0 && res == Ok::<(), FSError>(())
    } else {
        exists|m: int, r: Result<(), FSError>|
            #![trigger fat_entry_update(s, list[i], link_target(list, i), run.take(m), r)]
            0 <= m <= run.len() && fat_entry_update(s, list[i], link_target(list, i), run.take(m), r) && match r {
                Err(e) => m == run.len() && res == Err::<(), FSError>(e),
                Ok(_) => link_updates(s, list, i + 1, run.skip(m), res),
            }
    }
}

/// Allocating `count` clusters: the table scan (see `table_scan`), then,
/// when it found at least `count` free clusters (and at least one), the
/// clusters it collected linked into a chain (see `link_updates`), whose
/// first cluster is the result. A failed read reports `ReadError`; too few
/// free clusters report `WriteError` before any write.
pub open spec fn allocation(s: FatState, count: int, run: Seq<DiskOp>, res: Result<u32, FSError>) -> bool {
    exists|m: int|
        #![trigger run.take(m)]
        0 <= m <= run.len() && {
            let scan = run.take(m);
            let found = collected(scan, (s.bytes_per_sector / 4) as int, count);
            &&& table_scan(s, scan, count)
            &&& if scan.len() > 0 && !op_ok(scan.last()) {
                m == run.len() && res == Err::<u32, FSError>(FSError::ReadError)
            } else if found.len() < count || found.len() == 0 {
                m == run.len() && res == Err::<u32, FSError>(FSError::WriteError)
            } else {
                exists|r: Result<(), FSError>|
                    #![trigger link_updates(s, found, 0, run.skip(m), r)]
                    link_updates(s, found, 0, run.skip(m), r) && res == match r {
                        Ok(_) => Ok::<u32, FSError>(found[0]),
                        Err(e) => Err::<u32, FSError>(e),
                    }
            }
        }
}

/// Appends the free clusters of one FAT sector to `allocated`, stopping as
/// soon as it holds `count`; returns whether it stopped there.
pub fn collect_free_entries(
    buf: &[u8],
    sector: u32,
    per_sector: u16,
    allocated: &mut Vec<u32>,
    count: usize,
) -> (full: bool)
    requires
        4 * per_sector <= buf@.len(),
        sector as int * per_sector as int + (per_sector as int) <= 0x1_0000_0000,
    ensures
        final(allocated)@ == after_collect(
            old(allocated)@,
            free_entries(buf@, sector as int, per_sector as int, per_sector as int),
            count as int,
        ),
        full == (old(allocated)@.len() < count && final(allocated)@.len() == count),
{
    let ghost prev = old(allocated)@;
    let ghost all_free = free_entries(buf@, sector as int, per_sector as int, per_sector as int);
    let mut entry: u16 = 0;
    while entry < per_sector
        invariant
            4 * per_sector <= buf@.len(),
            sector as int * per_sector as int + (per_sector as int) <= 0x1_0000_0000,
            entry <= per_sector,
            prev == old(allocated)@,
            all_free == free_entries(buf@, sector as int, per_sector as int, per_sector as int),
            allocated@ == prev + free_entries(buf@, sector as int, per_sector as int, entry as int),
            prev.len() < count ==> allocated@.len() < count,
        decreases per_sector - entry,
    {
        let i = entry as usize * 4;
        let val = read_le32(buf, i);
        if val == 0 {
            proof {
                assert(sector as int * per_sector as int + (entry as int) < 0x1_0000_0000)
                    by (nonlinear_arith)
                    requires
                        sector as int * per_sector as int + (per_sector as int) <= 0x1_0000_0000,
                        entry < per_sector,
                ;
            }
            let cluster_number = sector * (per_sector as u32) + entry as u32;
            allocated.push(cluster_number);
            if allocated.len() == count {
                proof {
                    lemma_free_entries_prefix(buf@, sector as int, per_sector as int, entry + 1, per_sector as int);
                }
                assert(allocated@ =~= after_collect(prev, all_free, count as int));
                return true;
            }
        }
        entry = entry + 1;
    }
    assert(allocated@ =~= after_collect(prev, all_free, count as int));
    false
}

proof fn lemma_free_entries_bound(buf: Seq<u8>, sector: int, per: int, e: int)
    requires
        0 <= e,
        0 <= sector,
        0 <= per,
        sector * per + e <= 0x1_0000_0000,
    ensures
        forall|k: int|
            0 <= k < free_entries(buf, sector, per, e).len() ==> free_entries(buf, sector, per, e)[k]
                < sector * per + e,
    decreases e,
{
    if e > 0 {
        lemma_free_entries_bound(buf, sector, per, e - 1);
        let prev = free_entries(buf, sector, per, e - 1);
        let v = sector * per + e - 1;
        assert(0 <= v < 0x1_0000_0000) by (nonlinear_arith)
            requires
                v == sector * per + e - 1,
                0 <= sector,
                0 <= per,
                e >= 1,
                sector * per + e <= 0x1_0000_0000,
        ;
        if le32(buf, 4 * (e - 1)) == 0 {
            assert(free_entries(buf, sector, per, e) == prev.push(v as u32));
            assert(v as u32 == v);
        } else {
            assert(free_entries(buf, sector, per, e) == prev);
        }
    }
}

proof fn lemma_after_collect_bound(prev: Seq<u32>, free: Seq<u32>, count: int, bound: int)
    requires
        forall|k: int| 0 <= k < prev.len() ==> prev[k] < bound,
        forall|k: int| 0 <= k < free.len() ==> free[k] < bound,
    ensures
        forall|k: int|
            0 <= k < after_collect(prev, free, count).len() ==> after_collect(prev, free, count)[k]
                < bound,
{
    let all = prev + free;
    assert forall|k: int| 0 <= k < all.len() implies all[k] < bound by {
        if k >= prev.len() {
            assert(all[k] == free[k - prev.len()]);
        }
    }
}

proof fn lemma_free_entries_prefix(buf: Seq<u8>, sector: int, per: int, e1: int, e2: int)
    requires
        0 <= e1 <= e2,
    ensures
        free_entries(buf, sector, per, e2).len() >= free_entries(buf, sector, per, e1).len(),
        free_entries(buf, sector, per, e2).take(free_entries(buf, sector, per, e1).len() as int)
            == free_entries(buf, sector, per, e1),
    decreases e2 - e1,
{
    if e1 < e2 {
        lemma_free_entries_prefix(buf, sector, per, e1, e2 - 1);
        let a = free_entries(buf, sector, per, e1);
        let b = free_entries(buf, sector, per, e2 - 1);
        let c = free_entries(buf, sector, per, e2);
        assert(c.take(a.len() as int) =~= b.take(a.len() as int));
    } else {
        let a = free_entries(buf, sector, per, e1);
        assert(a.take(a.len() as int) =~= a);
    }
}

// ---------------------------------------------------------------------------
// The volume
// ---------------------------------------------------------------------------
/// A FAT32 volume on a sector device.
pub struct FAT<'a, D: SectorDevice> {
    device: &'a mut D,
    mounted: bool,
    current_cluster: u32,
    bytes_per_sector: u16,
    sectors_per_cluster: u8,
    reserved_sectors: u16,
    num_fats: u8,
    sectors_per_fat: u32,
    root_cluster: u32,
    fat_start_sector: u64,
    /// The sector transfers asked of the device so far.
    ops: Ghost<Seq<DiskOp>>,
}

/// One sector transfer a volume asks of its device: the port and block
/// handed over, the sector's bytes (for a read, as they landed in the
/// buffer: the device's bytes where it reported success), and whether the
/// device reported success.
pub enum DiskOp {
    Read(usize, u64, Seq<u8>, bool),
    Write(usize, u64, Seq<u8>, bool),
}

/// Whether the device reported success for a transfer.
pub open spec fn op_ok(op: DiskOp) -> bool {
    match op {
        DiskOp::Read(_, _, _, ok) => ok,
        DiskOp::Write(_, _, _, ok) => ok,
    }
}

/// The bytes of a transfer.
pub open spec fn op_data(op: DiskOp) -> Seq<u8> {
    match op {
        DiskOp::Read(_, _, d, _) => d,
        DiskOp::Write(_, _, d, _) => d,
    }
}

/// Whether `new` is `old` with more transfers after it.
pub open spec fn extends(old: Seq<DiskOp>, new: Seq<DiskOp>) -> bool {
    old.len() <= new.len() && new.take(old.len() as int) == old
}

/// The transfers made after `old`.
pub open spec fn added(old: Seq<DiskOp>, new: Seq<DiskOp>) -> Seq<DiskOp> {
    new.skip(old.len() as int)
}

/// A run of reads holds no write.
proof fn lemma_read_run_no_writes(run: Seq<DiskOp>, lba: int, count: int, len: int, data: Seq<u8>)
    requires
        block_run(run, false, lba, count, len, data),
    ensures
        no_writes(run),
{
    assert forall|k: int| 0 <= k < run.len() implies !is_write(#[trigger] run[k]) by {
        assert(run_step(run[k], false, lba, len, data, k));
    }
}

/// A run of writes that did not go through all its blocks, or hit a
/// failure, holds a refused write.
proof fn lemma_write_run_refused(run: Seq<DiskOp>, lba: int, count: int, len: int, data: Seq<u8>)
    requires
        block_run(run, true, lba, count, len, data),
        !run_done(run, count),
    ensures
        write_refused(run),
{
    if run.len() < count {
        let k = run.len() - 1;
        assert(run_step(run[k], true, lba, len, data, k));
        assert(is_write(run[k]) && !op_ok(run[k]));
    } else {
        let k = choose|k: int| 0 <= k < run.len() && !op_ok(#[trigger] run[k]);
        assert(run_step(run[k], true, lba, len, data, k));
        if k < run.len() - 1 {
            assert(op_ok(run[k]));
        }
        assert(is_write(run[k]) && !op_ok(run[k]));
    }
}

/// Joining two logs without writes gives one without writes; a refused
/// write in either part is one in the whole.
proof fn lemma_join_writes(x: Seq<DiskOp>, y: Seq<DiskOp>)
    ensures
        no_writes(x) && no_writes(y) ==> no_writes(x + y),
        write_refused(x) ==> write_refused(x + y),
        write_refused(y) ==> write_refused(x + y),
{
    if no_writes(x) && no_writes(y) {
        assert forall|k: int| 0 <= k < (x + y).len() implies !is_write(#[trigger] (x + y)[k]) by {
            if k < x.len() {
                assert((x + y)[k] == x[k]);
            } else {
                assert((x + y)[k] == y[k - x.len()]);
            }
        }
    }
    if write_refused(x) {
        let k = choose|k: int| 0 <= k < x.len() && is_write(#[trigger] x[k]) && !op_ok(x[k]);
        assert((x + y)[k] == x[k]);
    }
    if write_refused(y) {
        let k = choose|k: int| 0 <= k < y.len() && is_write(#[trigger] y[k]) && !op_ok(y[k]);
        assert((x + y)[x.len() + k] == y[k]);
    }
}

/// A chain write that reports `WriteError` had a write refused.
proof fn lemma_chain_write_refused(s: FatState, data: Seq<u8>, offset: int, cluster: u32, run: Seq<DiskOp>, res: Result<(), FSError>)
    requires
        chain_write(s, data, offset, cluster, run, res),
        res == Err::<(), FSError>(FSError::WriteError),
    ensures
        write_refused(run),
    decreases data.len() - offset,
{
    if offset >= data.len() || cluster < 2 || cluster_bytes(s) <= 0 {
    } else {
        let end = piece_end(s, data, offset);
        let m = choose|m: int|
            #![trigger run.take(m)]
            0 <= m <= run.len() && {
                &&& block_run(
                    run.take(m),
                    true,
                    cluster_lba(s, cluster),
                    s.sectors_per_cluster as int,
                    s.bytes_per_sector as int,
                    padded_piece(data, offset, end),
                )
                &&& if !run_done(run.take(m), s.sectors_per_cluster as int) {
                    m == run.len() && res == Err::<(), FSError>(FSError::WriteError)
                } else if end >= data.len() {
                    m == run.len() && res == Ok::<(), FSError>(())
                } else {
                    &&& m < run.len()
                    &&& link_read(s, cluster, run[m])
                    &&& if !op_ok(run[m]) {
                        run.len() == m + 1 && res == Err::<(), FSError>(FSError::ReadError)
                    } else {
                        chain_write(
                            s,
                            data,
                            end,
                            fat_link(op_data(run[m]), cluster, s.bytes_per_sector),
                            run.skip(m + 1),
                            res,
                        )
                    }
                }
            };
        if !run_done(run.take(m), s.sectors_per_cluster as int) {
            lemma_write_run_refused(
                run.take(m),
                cluster_lba(s, cluster),
                s.sectors_per_cluster as int,
                s.bytes_per_sector as int,
                padded_piece(data, offset, end),
            );
            assert(run.take(m) =~= run);
        } else {
            lemma_chain_write_refused(
                s,
                data,
                end,
                fat_link(op_data(run[m]), cluster, s.bytes_per_sector),
                run.skip(m + 1),
                res,
            );
            lemma_join_writes(run.take(m + 1), run.skip(m + 1));
            assert(run.take(m + 1) + run.skip(m + 1) =~= run);
        }
    }
}

/// What was added over two stretches is what was added over each, in turn.
pub(crate) proof fn lemma_added_concat(a: Seq<DiskOp>, b: Seq<DiskOp>, c: Seq<DiskOp>)
    requires
        extends(a, b),
        extends(b, c),
    ensures
        added(a, c) == added(a, b) + added(b, c),
{
    assert(c.take(b.len() as int) =~= b);
    assert forall|k: int| 0 <= k < added(a, c).len() implies #[trigger] added(a, c)[k] == (added(a, b) + added(b, c))[k] by {
        if k < b.len() - a.len() {
            assert(c.take(b.len() as int)[a.len() + k] == c[a.len() + k]);
        }
    }
    assert(added(a, c) =~= added(a, b) + added(b, c));
}

/// A log that extends one that extends `a` extends `a`.
pub(crate) proof fn lemma_extends_trans(a: Seq<DiskOp>, b: Seq<DiskOp>, c: Seq<DiskOp>)
    requires
        extends(a, b),
        extends(b, c),
    ensures
        extends(a, c),
{
    assert(c.take(a.len() as int) =~= b.take(a.len() as int));
}

/// The transfers made between two points of a growing log, as a slice of
/// those made since an earlier point.
proof fn lemma_added_between(start: Seq<DiskOp>, x: Seq<DiskOp>, y: Seq<DiskOp>, fin: Seq<DiskOp>)
    requires
        extends(start, x),
        extends(x, y),
        extends(y, fin),
    ensures
        added(start, fin).subrange(x.len() - start.len(), y.len() - start.len()) == added(x, y),
        added(start, fin).skip(y.len() - start.len()) == added(y, fin),
{
    assert(fin.take(y.len() as int) =~= y);
    assert forall|k: int| 0 <= k < y.len() - x.len() implies #[trigger] added(start, fin).subrange(
        x.len() - start.len(),
        y.len() - start.len(),
    )[k] == added(x, y)[k] by {
        assert(fin.take(y.len() as int)[x.len() + k] == fin[x.len() + k]);
    }
    assert(added(start, fin).subrange(x.len() - start.len(), y.len() - start.len()) =~= added(x, y));
    assert(added(start, fin).skip(y.len() - start.len()) =~= added(y, fin));
}

/// Transfer `k` of a run from block `lba` of port 0: a read of `len`
/// bytes, or a write of the `k`-th `len`-byte piece of `data`.
pub open spec fn run_step(op: DiskOp, write: bool, lba: int, len: int, data: Seq<u8>, k: int) -> bool {
    match op {
        DiskOp::Read(p, l, d, _) => !write && p == 0 && l == lba + k && d.len() == len,
        DiskOp::Write(p, l, d, _) => write && p == 0 && l == lba + k && d == data.subrange(
            k * len,
            k * len + len,
        ),
    }
}

/// The transfers of a run over `count` consecutive blocks from `lba`, one
/// per block and in order, ending at the first that fails.
pub open spec fn block_run(run: Seq<DiskOp>, write: bool, lba: int, count: int, len: int, data: Seq<u8>) -> bool {
    &&& run.len() <= count
    &&& forall|k: int| 0 <= k < run.len() ==> #[trigger] run_step(run[k], write, lba, len, data, k)
    &&& forall|k: int| 0 <= k < run.len() - 1 ==> op_ok(#[trigger] run[k])
    &&& run.len() < count ==> run.len() > 0 && !op_ok(run.last())
}

/// Whether a run went through all `count` blocks.
pub open spec fn run_done(run: Seq<DiskOp>, count: int) -> bool {
    run.len() == count && forall|k: int| 0 <= k < run.len() ==> op_ok(#[trigger] run[k])
}

/// `base` with the bytes of the run's reads laid one after the other from
/// its start, `len` bytes each.
pub open spec fn read_image(run: Seq<DiskOp>, len: int, base: Seq<u8>) -> Seq<u8> {
    Seq::new(
        base.len(),
        |i: int|
            if i < run.len() * len {
                op_data(run[i / len])[i % len]
            } else {
                base[i]
            },
    )
}

/// A cluster read: the run over the cluster's sectors, its outcome, and
/// the buffer it leaves (`before` with the sectors read laid over it).
pub open spec fn cluster_read(
    s: FatState,
    cluster: u32,
    run: Seq<DiskOp>,
    before: Seq<u8>,
    after: Seq<u8>,
    res: Result<(), FSError>,
) -> bool {
    &&& block_run(
        run,
        false,
        cluster_lba(s, cluster),
        s.sectors_per_cluster as int,
        s.bytes_per_sector as int,
        Seq::empty(),
    )
    &&& (res is Ok <==> run_done(run, s.sectors_per_cluster as int))
    &&& (res is Err ==> res == Err::<(), FSError>(FSError::ReadError))
    &&& after == read_image(run, s.bytes_per_sector as int, before)
}

/// A cluster write of the front of `data`: the run over the cluster's
/// sectors with successive pieces of it, and its outcome.
pub open spec fn cluster_written(s: FatState, cluster: u32, run: Seq<DiskOp>, data: Seq<u8>, res: Result<(), FSError>) -> bool {
    &&& block_run(
        run,
        true,
        cluster_lba(s, cluster),
        s.sectors_per_cluster as int,
        s.bytes_per_sector as int,
        data,
    )
    &&& (res is Ok <==> run_done(run, s.sectors_per_cluster as int))
    &&& (res is Err ==> res == Err::<(), FSError>(FSError::WriteError))
}

/// The outcome of checking the boot sector read by `op`.
pub open spec fn boot_check(op: DiskOp, res: Result<(), FSError>) -> bool {
    &&& op matches DiskOp::Read(p, l, d, _) && p == 0 && l == 0 && d.len() == 512
    &&& res == if !op_ok(op) {
        Err::<(), FSError>(FSError::ReadError)
    } else if !fat32_signature(op_data(op)) {
        Err::<(), FSError>(FSError::BadFS)
    } else {
        Ok::<(), FSError>(())
    }
}

/// The port the allocation-table sector holding `cluster`'s entry is
/// addressed as (the sector number; the block is 0).
pub open spec fn fat_entry_port(s: FatState, cluster: u32) -> usize {
    (s.fat_start_sector + (cluster * 4) / (s.bytes_per_sector as int)) as usize
}

/// An allocation-table update: a read of the 512-byte sector holding the
/// entry, then (if it succeeded) a write of it back with `value` stored
/// little-endian at the entry's offset, and the outcome.
pub open spec fn fat_entry_update(s: FatState, cluster: u32, value: u32, run: Seq<DiskOp>, res: Result<(), FSError>) -> bool {
    let port = fat_entry_port(s, cluster);
    let offset = (cluster * 4) % (s.bytes_per_sector as int);
    &&& run.len() >= 1
    &&& run[0] matches DiskOp::Read(p, l, d, _) && p == port && l == 0 && d.len() == 512
    &&& !op_ok(run[0]) ==> run.len() == 1 && res == Err::<(), FSError>(FSError::ReadError)
    &&& op_ok(run[0]) ==> run.len() == 2 && run[1] == DiskOp::Write(
        port,
        0,
        with_le32(op_data(run[0]), offset, value),
        op_ok(run[1]),
    ) && res == if op_ok(run[1]) {
        Ok::<(), FSError>(())
    } else {
        Err::<(), FSError>(FSError::WriteError)
    }
}

/// Adding records `recs` to the first cluster of the directory at
/// `parent`: a read of the cluster into a 4096-byte zeroed buffer, then
/// (if it succeeded and the buffer has a free run for them) a write of the
/// buffer back with the records placed in the first such run.
pub open spec fn dir_insert(s: FatState, parent: u32, recs: Seq<u8>, run: Seq<DiskOp>, res: Result<(), FSError>) -> bool {
    exists|m: int|
        #![trigger run.take(m)]
        0 <= m <= run.len() && {
            let reads = run.take(m);
            let img = read_image(reads, s.bytes_per_sector as int, Seq::new(4096, |k: int| 0u8));
            &&& block_run(
                reads,
                false,
                cluster_lba(s, parent),
                s.sectors_per_cluster as int,
                s.bytes_per_sector as int,
                Seq::empty(),
            )
            &&& if !run_done(reads, s.sectors_per_cluster as int) {
                m == run.len() && res == Err::<(), FSError>(FSError::ReadError)
            } else if first_free_run(img, (recs.len() / 32) as int, 0) == -1 {
                m == run.len() && res == Err::<(), FSError>(FSError::WriteError)
            } else {
                cluster_written(
                    s,
                    parent,
                    run.skip(m),
                    placed(img, first_free_run(img, (recs.len() / 32) as int, 0), recs),
                    res,
                )
            }
        }
}

/// A read of the allocation-table sector holding `cluster`'s entry (port
/// 0), a sector long.
pub open spec fn link_read(s: FatState, cluster: u32, op: DiskOp) -> bool {
    op matches DiskOp::Read(p, l, d, _) && p == 0 && l == fat_entry_sector(s, cluster) && d.len()
        == s.bytes_per_sector
}

/// Where the piece of `data` written to one cluster from `offset` ends.
pub open spec fn piece_end(s: FatState, data: Seq<u8>, offset: int) -> int {
    if data.len() - offset > cluster_bytes(s) {
        offset + cluster_bytes(s)
    } else {
        data.len() as int
    }
}

/// The buffer written for a piece: the piece, then zeros up to 8192 bytes.
pub open spec fn padded_piece(data: Seq<u8>, offset: int, end: int) -> Seq<u8> {
    copied_over(Seq::new(8192, |k: int| 0u8), 0, data.subrange(offset, end), end - offset)
}

/// Writing `data` from byte `offset` on over the cluster chain from
/// `cluster`: for each cluster-sized piece, the cluster's run of sector
/// writes of the padded piece, then, while data remains, a read of the
/// allocation-table sector that gives the next cluster; ending at the first
/// failure (a failed write, a failed read) or at a cluster number below 2.
pub open spec fn chain_write(s: FatState, data: Seq<u8>, offset: int, cluster: u32, run: Seq<DiskOp>, res: Result<(), FSError>) -> bool
    decreases data.len() - offset,
{
    if offset >= data.len() {
        run.len() == 0 && res == Ok::<(), FSError>(())
    } else if cluster < 2 {
        run.len() == 0 && res == Err::<(), FSError>(FSError::BadFS)
    } else if cluster_bytes(s) <= 0 {
        false
    } else {
        let end = piece_end(s, data, offset);
        exists|m: int|
            #![trigger run.take(m)]
            0 <= m <= run.len() && {
                &&& block_run(
                    run.take(m),
                    true,
                    cluster_lba(s, cluster),
                    s.sectors_per_cluster as int,
                    s.bytes_per_sector as int,
                    padded_piece(data, offset, end),
                )
                &&& if !run_done(run.take(m), s.sectors_per_cluster as int) {
                    m == run.len() && res == Err::<(), FSError>(FSError::WriteError)
                } else if end >= data.len() {
                    m == run.len() && res == Ok::<(), FSError>(())
                } else {
                    &&& m < run.len()
                    &&& link_read(s, cluster, run[m])
                    &&& if !op_ok(run[m]) {
                        run.len() == m + 1 && res == Err::<(), FSError>(FSError::ReadError)
                    } else {
                        chain_write(
                            s,
                            data,
                            end,
                            fat_link(op_data(run[m]), cluster, s.bytes_per_sector),
                            run.skip(m + 1),
                            res,
                        )
                    }
                }
            }
    }
}

/// Which block of `len`-byte blocks byte `idx` falls in, and where in it.
pub(crate) proof fn lemma_block_of(idx: int, len: int, i: int)
    requires
        len > 0,
        0 <= idx,
        0 <= i,
    ensures
        idx < i * len <==> idx / len < i,
        i * len <= idx < i * len + len ==> idx / len == i && idx % len == idx - i * len,
{
    vstd::arithmetic::div_mod::lemma_fundamental_div_mod(idx, len);
    let q = idx / len;
    let r = idx % len;
    assert(idx < i * len <==> q < i) by (nonlinear_arith)
        requires
            idx == len * q + r,
            0 <= r < len,
            len > 0,
    ;
    if i * len <= idx < i * len + len {
        vstd::arithmetic::div_mod::lemma_fundamental_div_mod_converse(idx, len, i, idx - i * len);
    }
}

/// What a volume knows of itself: whether it is mounted and the geometry it
/// read from the boot sector.
pub struct FatState {
    pub mounted: bool,
    pub bytes_per_sector: u16,
    pub sectors_per_cluster: u8,
    pub reserved_sectors: u16,
    pub num_fats: u8,
    pub sectors_per_fat: u32,
    pub root_cluster: u32,
    pub fat_start_sector: u64,
}

impl<'a, D: SectorDevice> View for FAT<'a, D> {
    type V = FatState;

    closed spec fn view(&self) -> FatState {
        FatState {
            mounted: self.mounted,
            bytes_per_sector: self.bytes_per_sector,
            sectors_per_cluster: self.sectors_per_cluster,
            reserved_sectors: self.reserved_sectors,
            num_fats: self.num_fats,
            sectors_per_fat: self.sectors_per_fat,
            root_cluster: self.root_cluster,
            fat_start_sector: self.fat_start_sector,
        }
    }
}

/// Bytes in one cluster.
pub open spec fn cluster_bytes(s: FatState) -> int {
    s.bytes_per_sector * s.sectors_per_cluster
}

/// Entries in the allocation table.
pub open spec fn total_entries(s: FatState) -> int {
    s.sectors_per_fat * (s.bytes_per_sector / 4)
}

/// A geometry the volume's operations can work with: sectors of 32 to 512
/// bytes in steps of 32, at least one sector per cluster, and a table whose
/// entry numbers, times four, fit in 32 bits.
pub open spec fn geometry_supported(s: FatState) -> bool {
    &&& 32 <= s.bytes_per_sector <= 512
    &&& s.bytes_per_sector % 32 == 0
    &&& s.sectors_per_cluster >= 1
    &&& total_entries(s) <= 0x4000_0000
    &&& s.fat_start_sector <= 0xFFFF
}

/// The FAT32 signature at 0x36 of the boot sector.
pub open spec fn fat32_signature(b: Seq<u8>) -> bool {
    b.subrange(0x36, 0x3E) == seq![70u8, 65u8, 84u8, 51u8, 50u8, 32u8, 32u8, 32u8]
}

/// The mounted state read from a boot sector.
pub open spec fn mounted_state(b: Seq<u8>) -> FatState {
    FatState {
        mounted: true,
        bytes_per_sector: le16(b, 0x0B) as u16,
        sectors_per_cluster: b[0x0D],
        reserved_sectors: le16(b, 0x0E) as u16,
        num_fats: b[0x10],
        sectors_per_fat: le32(b, 0x24) as u32,
        root_cluster: le32(b, 0x2C) as u32,
        fat_start_sector: le16(b, 0x0E) as u64,
    }
}

/// The first sector of a data cluster.
pub open spec fn cluster_lba(s: FatState, cluster: u32) -> int {
    s.reserved_sectors + s.num_fats * s.sectors_per_fat + (cluster - 2) * s.sectors_per_cluster
}

/// The sector of the allocation table that holds a cluster's entry.
pub open spec fn fat_entry_sector(s: FatState, cluster: u32) -> int {
    s.reserved_sectors + (cluster * 4) / (s.bytes_per_sector as int)
}

/// Whether a transfer is a write.
pub open spec fn is_write(op: DiskOp) -> bool {
    op matches DiskOp::Write(..)
}

/// Whether some write among the transfers was refused by the device.
pub open spec fn write_refused(ops: Seq<DiskOp>) -> bool {
    exists|k: int| 0 <= k < ops.len() && is_write(#[trigger] ops[k]) && !op_ok(ops[k])
}

/// Whether the transfers hold no write at all.
pub open spec fn no_writes(ops: Seq<DiskOp>) -> bool {
    forall|k: int| 0 <= k < ops.len() ==> !is_write(#[trigger] ops[k])
}

/// Reading a file's chain from `cluster` into a buffer with `want` bytes of
/// room left: the run of sector reads of the cluster into a zeroed
/// cluster-sized buffer; where it succeeded, the front of the cluster (as
/// much as there is room for) is copied into the buffer (`got` collects
/// what was copied, in order), then the cluster's allocation-table entry is
/// read and reading goes on from the cluster it links to. Reading stops,
/// successfully, at a cluster number at or past the end mark or below 2,
/// or when the buffer is full; a failed read reports `ReadError`.
pub open spec fn chain_read(s: FatState, cluster: u32, want: int, run: Seq<DiskOp>, got: Seq<u8>, res: Result<(), FSError>) -> bool
    decreases want,
{
    if cluster >= 0x0FFF_FFF8 || want <= 0 || cluster < 2 {
        run.len() == 0 && got.len() == 0 && res == Ok::<(), FSError>(())
    } else if cluster_bytes(s) <= 0 {
        false
    } else {
        exists|m: int|
            #![trigger run.take(m)]
            0 <= m <= run.len() && {
                let reads = run.take(m);
                let img = read_image(
                    reads,
                    s.bytes_per_sector as int,
                    Seq::new(cluster_bytes(s) as nat, |k: int| 0u8),
                );
                let k = if want < cluster_bytes(s) { want } else { cluster_bytes(s) as int };
                &&& block_run(
                    reads,
                    false,
                    cluster_lba(s, cluster),
                    s.sectors_per_cluster as int,
                    s.bytes_per_sector as int,
                    Seq::empty(),
                )
                &&& if !run_done(reads, s.sectors_per_cluster as int) {
                    m == run.len() && got.len() == 0 && res == Err::<(), FSError>(FSError::ReadError)
                } else {
                    &&& m < run.len()
                    &&& link_read(s, cluster, run[m])
                    &&& got.len() >= k
                    &&& got.take(k) == img.take(k)
                    &&& if !op_ok(run[m]) {
                        run.len() == m + 1 && got.len() == k && res == Err::<(), FSError>(FSError::ReadError)
                    } else {
                        chain_read(
                            s,
                            fat_link(op_data(run[m]), cluster, s.bytes_per_sector),
                            want - k,
                            run.skip(m + 1),
                            got.skip(k),
                            res,
                        )
                    }
                }
            }
    }
}

/// Walking the directories named by `comps` from `cluster`: each name is
/// looked up in turn (see `dir_search`) over the transfers that follow; a
/// failed lookup ends the walk with its error, a record that is not a
/// directory ends it with `not_dir`, and a directory record leads on to its
/// first cluster. With no names left the walk stands at `cluster`.
pub open spec fn dir_walk(
    s: FatState,
    comps: Seq<Seq<char>>,
    cluster: u32,
    run: Seq<DiskOp>,
    not_dir: FSError,
    res: Result<u32, FSError>,
) -> bool
    decreases comps.len(),
{
    if comps.len() == 0 {
        run.len() == 0 && res == Ok::<u32, FSError>(cluster)
    } else {
        exists|m: int, found: Result<DirEntry, FSError>|
            #![trigger dir_search(s, ascii_lowercase(comps[0]), cluster, dir_fuel(s), run.take(m), found)]
            0 <= m <= run.len() && dir_search(
                s,
                ascii_lowercase(comps[0]),
                cluster,
                dir_fuel(s),
                run.take(m),
                found,
            ) && match found {
                Err(e) => m == run.len() && res == Err::<u32, FSError>(e),
                Ok(e) => if e.attr & 0x10 == 0 {
                    m == run.len() && res == Err::<u32, FSError>(not_dir)
                } else {
                    dir_walk(s, comps.drop_first(), e.cluster() as u32, run.skip(m), not_dir, res)
                },
            }
    }
}

/// The transfers since `start` split at a later point `x` of the log.
pub(crate) proof fn lemma_added_split(start: Seq<DiskOp>, x: Seq<DiskOp>, fin: Seq<DiskOp>)
    requires
        extends(start, x),
        extends(x, fin),
    ensures
        added(start, fin).take(x.len() - start.len()) == added(start, x),
        added(start, fin).skip(x.len() - start.len()) == added(x, fin),
{
    assert(fin.take(x.len() as int) =~= x);
    assert forall|k: int| 0 <= k < x.len() - start.len() implies #[trigger] added(start, fin).take(
        x.len() - start.len(),
    )[k] == added(start, x)[k] by {
        assert(fin.take(x.len() as int)[start.len() + k] == fin[start.len() + k]);
    }
    assert(added(start, fin).take(x.len() - start.len()) =~= added(start, x));
    assert(added(start, fin).skip(x.len() - start.len()) =~= added(x, fin));
}

/// The records of a new entry named `name`: its long-name records, then a
/// short record with the 8.3 name made from the name's UTF-8 bytes.
pub open spec fn entry_records(name: Seq<char>, attr: u8, cluster: u32, size: u32) -> Seq<u8> {
    dir_records(utf16_encode(name), short_name_bytes(encode_utf8(name)), attr, cluster, size)
}

/// The clusters a file of `len` bytes takes, as the driver counts them.
pub open spec fn clusters_for(s: FatState, len: int) -> int {
    (len + cluster_bytes(s) - 1) / cluster_bytes(s)
}

/// Creating a file named `name` holding `data` in the directory at `dir`,
/// over the transfers `ops`: a directory cluster below 2 reports `BadFS`;
/// else the directory's first cluster is read into a zeroed cluster-sized
/// buffer (`ReadError` if a read fails); without a free run of slots for the
/// records in it, `WriteError` before any write; else the clusters for the
/// data are allocated (see `allocation`), the cluster is written back with
/// the records (attribute 0x20, first cluster 0, the length as size) in the
/// first free run, and the data is written along the allocated chain (see
/// `chain_write`); each step's failure is the result.
pub open spec fn file_creation(s: FatState, dir: u32, name: Seq<char>, data: Seq<u8>, ops: Seq<DiskOp>, res: Result<(), FSError>) -> bool {
    let recs = entry_records(name, 0x20, 0, data.len() as u32);
    if dir < 2 {
        ops.len() == 0 && res == Err::<(), FSError>(FSError::BadFS)
    } else {
        exists|b: int|
            #![trigger ops.take(b)]
            0 <= b <= ops.len() && {
                let reads = ops.take(b);
                let img = read_image(
                    reads,
                    s.bytes_per_sector as int,
                    Seq::new(cluster_bytes(s) as nat, |k: int| 0u8),
                );
                let slot = first_free_run(img, (recs.len() / 32) as int, 0);
                &&& block_run(
                    reads,
                    false,
                    cluster_lba(s, dir),
                    s.sectors_per_cluster as int,
                    s.bytes_per_sector as int,
                    Seq::empty(),
                )
                &&& if !run_done(reads, s.sectors_per_cluster as int) {
                    b == ops.len() && res == Err::<(), FSError>(FSError::ReadError)
                } else if slot == -1 {
                    b == ops.len() && res == Err::<(), FSError>(FSError::WriteError)
                } else {
                    exists|c: int, ar: Result<u32, FSError>|
                        #![trigger allocation(s, clusters_for(s, data.len() as int), ops.subrange(b, c), ar)]
                        b <= c <= ops.len() && allocation(s, clusters_for(s, data.len() as int), ops.subrange(b, c), ar)
                            && match ar {
                            Err(e) => c == ops.len() && res == Err::<(), FSError>(e),
                            Ok(first) => exists|d: int, wr: Result<(), FSError>|
                                #![trigger cluster_written(s, dir, ops.subrange(c, d), placed(img, slot, recs), wr)]
                                c <= d <= ops.len() && cluster_written(s, dir, ops.subrange(c, d), placed(img, slot, recs), wr)
                                    && match wr {
                                    Err(e) => d == ops.len() && res == Err::<(), FSError>(e),
                                    Ok(_) => chain_write(s, data, 0, first, ops.skip(d), res),
                                },
                        }
                }
            }
    }
}

/// What `write_file` does over its transfers: `NotMounted` on an unmounted
/// volume and `BadPath` for a path without components, both before any
/// transfer; else the walk to the parent directory (see `dir_walk`, with
/// `NotADirectory` for a component naming a file), whose failure is the
/// result, then the file's creation there (see `file_creation`).
pub open spec fn write_file_outcome(s: FatState, comps: Seq<Seq<char>>, data: Seq<u8>, ops: Seq<DiskOp>, res: Result<(), FSError>) -> bool {
    if !s.mounted {
        ops.len() == 0 && res == Err::<(), FSError>(FSError::NotMounted)
    } else if comps.len() == 0 {
        ops.len() == 0 && res == Err::<(), FSError>(FSError::BadPath)
    } else {
        exists|a: int, w: Result<u32, FSError>|
            #![trigger dir_walk(s, comps.drop_last(), s.root_cluster, ops.take(a), FSError::NotADirectory, w)]
            0 <= a <= ops.len() && dir_walk(s, comps.drop_last(), s.root_cluster, ops.take(a), FSError::NotADirectory, w)
                && match w {
                Err(e) => a == ops.len() && res == Err::<(), FSError>(e),
                Ok(dir) => file_creation(s, dir, comps.last(), data, ops.skip(a), res),
            }
    }
}

/// What `read_file` does over its transfers, with a buffer that held
/// `before` and holds `after`: `NotMounted` on an unmounted volume and
/// `BadFS` for a path without components, both before any transfer; else
/// the walk to the parent directory (see `dir_walk`, `BadFS` for a component
/// naming a file), then the lookup of the last component there (see
/// `dir_search`), `BadFS` for a directory record; then the file's chain is
/// read into the buffer (see `chain_read`): the bytes collected are at the
/// buffer's front, and the result is their count, at most the record's
/// size. Each step's failure is the result.
pub open spec fn read_file_outcome(
    s: FatState,
    comps: Seq<Seq<char>>,
    before: Seq<u8>,
    after: Seq<u8>,
    ops: Seq<DiskOp>,
    res: Result<usize, FSError>,
) -> bool {
    if !s.mounted {
        ops.len() == 0 && res == Err::<usize, FSError>(FSError::NotMounted)
    } else if comps.len() == 0 {
        ops.len() == 0 && res == Err::<usize, FSError>(FSError::BadFS)
    } else {
        exists|a: int, w: Result<u32, FSError>|
            #![trigger dir_walk(s, comps.drop_last(), s.root_cluster, ops.take(a), FSError::BadFS, w)]
            0 <= a <= ops.len() && dir_walk(s, comps.drop_last(), s.root_cluster, ops.take(a), FSError::BadFS, w)
                && match w {
                Err(e) => a == ops.len() && res == Err::<usize, FSError>(e),
                Ok(dir) => exists|b: int, f: Result<DirEntry, FSError>|
                    #![trigger dir_search(s, ascii_lowercase(comps.last()), dir, dir_fuel(s), ops.subrange(a, b), f)]
                    a <= b <= ops.len() && dir_search(s, ascii_lowercase(comps.last()), dir, dir_fuel(s), ops.subrange(a, b), f)
                        && match f {
                        Err(e) => b == ops.len() && res == Err::<usize, FSError>(e),
                        Ok(e) => if e.attr & 0x10 != 0 {
                            b == ops.len() && res == Err::<usize, FSError>(FSError::BadFS)
                        } else {
                            exists|got: Seq<u8>, cr: Result<(), FSError>|
                                #![trigger chain_read(s, e.cluster() as u32, before.len() as int, ops.skip(b), got, cr)]
                                chain_read(s, e.cluster() as u32, before.len() as int, ops.skip(b), got, cr) && match cr {
                                    Err(x) => res == Err::<usize, FSError>(x),
                                    Ok(_) => after == got + before.skip(got.len() as int) && res == Ok::<usize, FSError>(
                                        (if got.len() < e.size { got.len() as int } else { e.size as int }) as usize,
                                    ),
                                }
                        },
                    },
            }
    }
}

/// What `create_dir` does over its transfers: `NotMounted` on an unmounted
/// volume and `BadFS` for a path without components, both before any
/// transfer; else the walk to the parent directory (see `dir_walk`, `BadFS`
/// for a component naming a file), then one cluster allocated (see
/// `allocation`), `BadFS` if it or the parent is below 2, the new cluster
/// written with its `.` and `..` records (see `directory_image`), and the
/// directory's records (attribute 0x10, first cluster the new one, size 0)
/// added to the parent's first cluster (see `dir_insert`). Each step's
/// failure is the result.
pub open spec fn create_dir_outcome(s: FatState, comps: Seq<Seq<char>>, ops: Seq<DiskOp>, res: Result<(), FSError>) -> bool {
    if !s.mounted {
        ops.len() == 0 && res == Err::<(), FSError>(FSError::NotMounted)
    } else if comps.len() == 0 {
        ops.len() == 0 && res == Err::<(), FSError>(FSError::BadFS)
    } else {
        exists|a: int, w: Result<u32, FSError>|
            #![trigger dir_walk(s, comps.drop_last(), s.root_cluster, ops.take(a), FSError::BadFS, w)]
            0 <= a <= ops.len() && dir_walk(s, comps.drop_last(), s.root_cluster, ops.take(a), FSError::BadFS, w)
                && match w {
                Err(e) => a == ops.len() && res == Err::<(), FSError>(e),
                Ok(dir) => exists|c: int, ar: Result<u32, FSError>|
                    #![trigger allocation(s, 1, ops.subrange(a, c), ar)]
                    a <= c <= ops.len() && allocation(s, 1, ops.subrange(a, c), ar) && match ar {
                        Err(e) => c == ops.len() && res == Err::<(), FSError>(e),
                        Ok(fresh) => if (fresh < 2 || dir < 2) {
                            c == ops.len() && res == Err::<(), FSError>(FSError::BadFS)
                        } else {
                            (exists|d: int, ir: Result<(), FSError>|
                                #![trigger cluster_written(s, fresh, ops.subrange(c, d), directory_image(fresh, dir), ir)]
                                c <= d <= ops.len() && cluster_written(s, fresh, ops.subrange(c, d), directory_image(fresh, dir), ir)
                                    && match ir {
                                    Err(e) => d == ops.len() && res == Err::<(), FSError>(e),
                                    Ok(_) => dir_insert(
                                        s,
                                        dir,
                                        entry_records(comps.last(), 0x10, fresh, 0),
                                        ops.skip(d),
                                        res,
                                    ),
                                })
                        },
                    },
            }
    }
}

/// The clusters a directory lookup may read before it gives up.
pub open spec fn dir_fuel(s: FatState) -> int {
    total_entries(s) + 1
}

/// Looking up `target` along a directory's chain from `cluster`, with at
/// most `fuel` clusters left to read: the run of sector reads of the
/// cluster into a zeroed cluster-sized buffer; then, where it succeeded,
/// the scan of that buffer decides: a found record is the result, an
/// end-of-directory record reports `BadFS`, and a cluster without either
/// is followed by a read of its allocation-table entry and the lookup goes
/// on from the cluster it links to. A cluster number at or past the end
/// mark, below 2, or no fuel left reports `BadFS`; a failed read
/// `ReadError`.
pub open spec fn dir_search(
    s: FatState,
    target: Seq<char>,
    cluster: u32,
    fuel: int,
    run: Seq<DiskOp>,
    res: Result<DirEntry, FSError>,
) -> bool
    decreases fuel,
{
    if cluster >= 0x0FFF_FFF8 || cluster < 2 || fuel <= 0 {
        run.len() == 0 && res == Err::<DirEntry, FSError>(FSError::BadFS)
    } else {
        exists|m: int|
            #![trigger run.take(m)]
            0 <= m <= run.len() && {
                let reads = run.take(m);
                let img = read_image(
                    reads,
                    s.bytes_per_sector as int,
                    Seq::new(cluster_bytes(s) as nat, |k: int| 0u8),
                );
                &&& block_run(
                    reads,
                    false,
                    cluster_lba(s, cluster),
                    s.sectors_per_cluster as int,
                    s.bytes_per_sector as int,
                    Seq::empty(),
                )
                &&& if !run_done(reads, s.sectors_per_cluster as int) {
                    m == run.len() && res == Err::<DirEntry, FSError>(FSError::ReadError)
                } else {
                    match scan_from(img, target, 0) {
                        DirSlot::Found(p) => m == run.len() && (res matches Ok(e) && entry_matches(
                            e,
                            img,
                            p,
                        )),
                        DirSlot::End => m == run.len() && res == Err::<DirEntry, FSError>(
                            FSError::BadFS,
                        ),
                        DirSlot::Exhausted => {
                            &&& m < run.len()
                            &&& link_read(s, cluster, run[m])
                            &&& if !op_ok(run[m]) {
                                run.len() == m + 1 && res == Err::<DirEntry, FSError>(
                                    FSError::ReadError,
                                )
                            } else {
                                dir_search(
                                    s,
                                    target,
                                    fat_link(op_data(run[m]), cluster, s.bytes_per_sector),
                                    fuel - 1,
                                    run.skip(m + 1),
                                    res,
                                )
                            }
                        },
                    }
                }
            }
    }
}

impl<'a, D: SectorDevice> FAT<'a, D> {
    /// A volume on `device`, not yet mounted.
    pub fn new(device: &'a mut D) -> (res: Self)
        ensures
            res.ops() == Seq::<DiskOp>::empty(),
            !res@.mounted,
            res@.bytes_per_sector == 0,
            res@.sectors_per_cluster == 0,
    {
        FAT {
            device,
            mounted: false,
            current_cluster: 0,
            bytes_per_sector: 0,
            sectors_per_cluster: 0,
            reserved_sectors: 0,
            num_fats: 0,
            sectors_per_fat: 0,
            root_cluster: 0,
            fat_start_sector: 0,
            ops: Ghost(Seq::empty()),
        }
    }

    /// Whether the geometry read at mount time is one the operations support.
    pub fn supports_geometry(&self) -> (res: bool)
        ensures
            res == geometry_supported(self@),
    {
        let bps = self.bytes_per_sector;
        let spf = self.sectors_per_fat as u64;
        let eps = (bps / 4) as u64;
        assert(spf * eps <= 0xFFFF_FFFF * 0x4000) by (nonlinear_arith)
            requires
                spf <= 0xFFFF_FFFF,
                eps <= 0x4000,
        ;
        32 <= bps && bps <= 512 && bps % 32 == 0 && self.sectors_per_cluster >= 1 && spf * eps
            <= 0x4000_0000 && self.fat_start_sector <= 0xFFFF
    }

    /// Bytes in one cluster.
    pub fn cluster_size(&self) -> (res: usize)
        ensures
            res == cluster_bytes(self@),
    {
        let bps = self.bytes_per_sector as usize;
        let spc = self.sectors_per_cluster as usize;
        assert(bps * spc <= 0xFFFF * 0xFF) by (nonlinear_arith)
            requires
                bps <= 0xFFFF,
                spc <= 0xFF,
        ;
        bps * spc
    }

    /// The sector transfers asked of the device so far, in order.
    pub closed spec fn ops(&self) -> Seq<DiskOp> {
        self.ops@
    }

    /// Reads one sector of `n` bytes at `port` and `lba` into `out` at
    /// `at`, and records the transfer with the bytes that landed there.
    fn read_into(&mut self, port: usize, lba: u64, out: &mut Vec<u8>, at: usize, n: usize) -> (ok:
        bool)
        requires
            at + n <= old(out)@.len(),
        ensures
            final(self)@ == old(self)@,
            final(self).ops() == old(self).ops().push(
                DiskOp::Read(port, lba, final(out)@.subrange(at as int, at + n), ok),
            ),
            final(out)@.len() == old(out)@.len(),
            !ok ==> final(out)@ == old(out)@,
            forall|k: int|
                0 <= k < old(out)@.len() && !(at <= k < at + n) ==> #[trigger] final(out)@[k]
                    == old(out)@[k],
    {
        let (ok, _got) = read_sector_into(self.device, port, lba, out, at, n);
        proof {
            self.ops@ = self.ops@.push(DiskOp::Read(port, lba, out@.subrange(at as int, at + n), ok));
        }
        ok
    }

    /// Writes the sector in `buf` at `port` and `lba`, and records the
    /// transfer.
    fn write_to(&mut self, port: usize, lba: u64, buf: &[u8]) -> (ok: bool)
        ensures
            final(self)@ == old(self)@,
            final(self).ops() == old(self).ops().push(DiskOp::Write(port, lba, buf@, ok)),
    {
        let ok = self.device.write_sector(port, lba, buf);
        proof {
            self.ops@ = self.ops@.push(DiskOp::Write(port, lba, buf@, ok));
        }
        ok
    }

    /// Checks that sector 0 carries the FAT32 signature: one read of 512
    /// bytes at port 0, block 0.
    pub fn validate(&mut self) -> (res: Result<(), FSError>)
        ensures
            final(self)@ == old(self)@,
            final(self).ops().len() == old(self).ops().len() + 1,
            final(self).ops().drop_last() == old(self).ops(),
            boot_check(final(self).ops().last(), res),
            res matches Err(e) ==> e == FSError::ReadError || e == FSError::BadFS,
    {
        let mut buf = zeros(512);
        let ok = self.read_into(0, 0, &mut buf, 0, 512);
        proof {
            assert(buf@.subrange(0, 512) =~= buf@);
            assert(self.ops().drop_last() =~= old(self).ops());
        }
        if !ok {
            return Err(FSError::ReadError);
        }
        if !has_fat32_signature(&buf) {
            return Err(FSError::BadFS);
        }
        Ok(())
    }

    /// The first sector of a data cluster.
    fn cluster_to_lba(&self, cluster: u32) -> (res: u64)
        requires
            cluster >= 2,
        ensures
            res == cluster_lba(self@, cluster),
            res < 0x0400_0000_0000,
    {
        let nf = self.num_fats as u64;
        let spf = self.sectors_per_fat as u64;
        let spc = self.sectors_per_cluster as u64;
        let cluster_number = (cluster - 2) as u64;
        assert(nf * spf <= 255 * 0xFFFF_FFFF) by (nonlinear_arith)
            requires
                nf <= 255,
                spf <= 0xFFFF_FFFF,
        ;
        assert(cluster_number * spc <= 0xFFFF_FFFF * 255) by (nonlinear_arith)
            requires
                spc <= 255,
                cluster_number <= 0xFFFF_FFFF,
        ;
        let first_data_sector = self.reserved_sectors as u64 + nf * spf;
        first_data_sector + cluster_number * spc
    }

    /// The sector of the allocation table that holds a cluster's entry.
    fn fat_entry_lba(&self, cluster: u32) -> (res: u64)
        requires
            self@.bytes_per_sector > 0,
        ensures
            res == fat_entry_sector(self@, cluster),
    {
        let fat_offset = cluster as u64 * 4;
        let fat_sector = fat_offset / self.bytes_per_sector as u64;
        self.reserved_sectors as u64 + fat_sector
    }

    /// Reads a data cluster into the front of `buf`.
    fn read_cluster(&mut self, cluster: u32, buf: &mut Vec<u8>) -> (res: Result<(), FSError>)
        requires
            cluster >= 2,
            cluster_bytes(old(self)@) <= old(buf)@.len(),
        ensures
            final(buf)@.len() == old(buf)@.len(),
            final(self)@ == old(self)@,
            extends(old(self).ops(), final(self).ops()),
            cluster_read(
                old(self)@,
                cluster,
                added(old(self).ops(), final(self).ops()),
                old(buf)@,
                final(buf)@,
                res,
            ),
            res matches Err(e) ==> e == FSError::ReadError,
    {
        let lba = self.cluster_to_lba(cluster);
        let bps = self.bytes_per_sector as usize;
        let spc = self.sectors_per_cluster as u64;
        let blen = buf.len();
        let ghost start = self.ops();
        proof {
            assert(start.take(start.len() as int) =~= start);
            assert(added(start, self.ops()) =~= Seq::<DiskOp>::empty());
            let e = Seq::<DiskOp>::empty();
            assert(e.len() == 0);
            assert(e.len() * (bps as int) == 0) by (nonlinear_arith) requires e.len() == 0;
            assert(buf@ =~= read_image(e, bps as int, old(buf)@));
        }
        let mut i: u64 = 0;
        while i < spc
            invariant
                self@ == old(self)@,
                start == old(self).ops(),
                bps == self@.bytes_per_sector,
                spc == self@.sectors_per_cluster,
                lba == cluster_lba(self@, cluster),
                lba < 0x0400_0000_0000,
                blen == buf@.len(),
                bps * spc <= buf@.len(),
                buf@.len() == old(buf)@.len(),
                i <= spc,
                extends(start, self.ops()),
                added(start, self.ops()).len() == i,
                forall|k: int|
                    0 <= k < i ==> #[trigger] run_step(
                        added(start, self.ops())[k],
                        false,
                        lba as int,
                        bps as int,
                        Seq::empty(),
                        k,
                    ),
                forall|k: int| 0 <= k < i ==> op_ok(#[trigger] added(start, self.ops())[k]),
                buf@ == read_image(added(start, self.ops()), bps as int, old(buf)@),
            decreases spc - i,
        {
            assert(i * bps + bps <= bps * spc) by (nonlinear_arith)
                requires
                    i < spc,
            ;
            let offset = i as usize * bps;
            let ghost run0 = added(start, self.ops());
            let ghost buf0 = buf@;
            let ok = self.read_into(0, lba + i, buf, offset, bps);
            proof {
                let run1 = added(start, self.ops());
                let op = DiskOp::Read(0, (lba + i) as u64, buf@.subrange(offset as int, offset + bps), ok);
                assert(run1 =~= run0.push(op));
                assert(self.ops().take(start.len() as int) =~= start);
                assert forall|idx: int| 0 <= idx < buf@.len() implies #[trigger] buf@[idx] == read_image(
                    run1,
                    bps as int,
                    old(buf)@,
                )[idx] by {
                    if bps == 0 {
                        assert(run1.len() * (bps as int) == 0);
                        assert(run0.len() * (bps as int) == 0);
                        assert(buf@[idx] == buf0[idx]);
                    } else {
                    lemma_block_of(idx, bps as int, i as int);
                    lemma_block_of(idx, bps as int, (i + 1) as int);
                    assert((i + 1) * bps == i * bps + bps) by (nonlinear_arith);
                    if idx < i * bps {
                        assert(buf@[idx] == buf0[idx]);
                        assert(run1[idx / (bps as int)] == run0[idx / (bps as int)]);
                    } else if idx < i * bps + bps {
                        assert(idx / (bps as int) == i);
                        assert(run1[i as int] == op);
                    }
                    }
                }
                assert(buf@ =~= read_image(run1, bps as int, old(buf)@));
            }
            if !ok {
                proof {
                    assert((i + 1) * spc >= i + 1) by (nonlinear_arith) requires spc >= 1;
                }
                return Err(FSError::ReadError);
            }
            i = i + 1;
        }
        Ok(())
    }

    /// Writes a data cluster from the front of `buf`.
    fn write_cluster(&mut self, cluster: u32, buf: &[u8]) -> (res: Result<(), FSError>)
        requires
            cluster >= 2,
            cluster_bytes(old(self)@) <= buf@.len(),
        ensures
            final(self)@ == old(self)@,
            extends(old(self).ops(), final(self).ops()),
            cluster_written(old(self)@, cluster, added(old(self).ops(), final(self).ops()), buf@, res),
            res matches Err(e) ==> e == FSError::WriteError,
    {
        let lba = self.cluster_to_lba(cluster);
        let bps = self.bytes_per_sector as usize;
        let spc = self.sectors_per_cluster as u64;
        let blen = buf.len();
        let ghost start = self.ops();
        proof {
            assert(start.take(start.len() as int) =~= start);
            assert(added(start, self.ops()) =~= Seq::<DiskOp>::empty());
        }
        let mut i: u64 = 0;
        while i < spc
            invariant
                self@ == old(self)@,
                start == old(self).ops(),
                bps == self@.bytes_per_sector,
                spc == self@.sectors_per_cluster,
                lba == cluster_lba(self@, cluster),
                lba < 0x0400_0000_0000,
                blen == buf@.len(),
                bps * spc <= buf@.len(),
                i <= spc,
                extends(start, self.ops()),
                added(start, self.ops()).len() == i,
                forall|k: int|
                    0 <= k < i ==> #[trigger] run_step(
                        added(start, self.ops())[k],
                        true,
                        lba as int,
                        bps as int,
                        buf@,
                        k,
                    ),
                forall|k: int| 0 <= k < i ==> op_ok(#[trigger] added(start, self.ops())[k]),
            decreases spc - i,
        {
            assert(i * bps + bps <= bps * spc) by (nonlinear_arith)
                requires
                    i < spc,
            ;
            let offset = i as usize * bps;
            let slice = vstd::slice::slice_subrange(buf, offset, offset + bps);
            let ghost run0 = added(start, self.ops());
            let ok = self.write_to(0, lba + i, slice);
            proof {
                let run1 = added(start, self.ops());
                assert(run1 =~= run0.push(DiskOp::Write(0, (lba + i) as u64, slice@, ok)));
                assert(self.ops().take(start.len() as int) =~= start);
                assert(run_step(run1[i as int], true, lba as int, bps as int, buf@, i as int));
            }
            if !ok {
                return Err(FSError::WriteError);
            }
            i = i + 1;
        }
        Ok(())
    }

    /// The cluster that follows `cluster` in its chain, 0 at the end.
    fn next_cluster(&mut self, cluster: u32) -> (res: Result<u32, FSError>)
        requires
            geometry_supported(old(self)@),
        ensures
            final(self)@ == old(self)@,
            final(self).ops().len() == old(self).ops().len() + 1,
            final(self).ops().drop_last() == old(self).ops(),
            link_read(old(self)@, cluster, final(self).ops().last()),
            res == if op_ok(final(self).ops().last()) {
                Ok::<u32, FSError>(
                    fat_link(op_data(final(self).ops().last()), cluster, old(self)@.bytes_per_sector),
                )
            } else {
                Err::<u32, FSError>(FSError::ReadError)
            },
            res matches Err(e) ==> e == FSError::ReadError,
            res matches Ok(v) ==> exists|sector: Seq<u8>|
                sector.len() == old(self)@.bytes_per_sector && v == fat_link(
                    sector,
                    cluster,
                    old(self)@.bytes_per_sector,
                ),
    {
        let lba = self.fat_entry_lba(cluster);
        let bps = self.bytes_per_sector;
        let mut sector = zeros(bps as usize);
        let ok = self.read_into(0, lba, &mut sector, 0, bps as usize);
        proof {
            assert(sector@.subrange(0, bps as int) =~= sector@);
            assert(self.ops().drop_last() =~= old(self).ops());
        }
        if !ok {
            return Err(FSError::ReadError);
        }
        Ok(fat_link_in(sector.as_slice(), cluster, bps))
    }
}

/// Whether bytes 0x36..0x3E of a boot sector read `FAT32` and three spaces.
pub fn has_fat32_signature(buf: &[u8]) -> (res: bool)
    requires
        buf@.len() >= 0x3E,
    ensures
        res == fat32_signature(buf@),
{
    let sig: [u8; 8] = [70, 65, 84, 51, 50, 32, 32, 32];
    let mut k: usize = 0;
    while k < 8
        invariant
            buf@.len() >= 0x3E,
            k <= 8,
            sig@ == seq![70u8, 65u8, 84u8, 51u8, 50u8, 32u8, 32u8, 32u8],
            forall|m: int| 0 <= m < k ==> buf@[0x36 + m] == sig@[m],
        decreases 8 - k,
    {
        if buf[0x36 + k] != sig[k] {
            assert(buf@.subrange(0x36, 0x3E)[k as int] != sig@[k as int]);
            return false;
        }
        k = k + 1;
    }
    assert(buf@.subrange(0x36, 0x3E) =~= sig@);
    true
}

impl<'a, D: SectorDevice> FAT<'a, D> {
    /// Looks up `name` (ASCII case-insensitively) in the directory whose
    /// chain starts at `start_cluster` (see `dir_search`). A chain that
    /// ends, runs into a cluster number below 2 or runs longer than the
    /// table has entries reports `BadFS`, as does an end-of-directory record.
    fn find_in_directory(&mut self, start_cluster: u32, name: &str) -> (res: Result<
        DirEntry,
        FSError,
    >)
        requires
            geometry_supported(old(self)@),
        ensures
            final(self)@ == old(self)@,
            extends(old(self).ops(), final(self).ops()),
            dir_search(
                old(self)@,
                ascii_lowercase(name@),
                start_cluster,
                dir_fuel(old(self)@),
                added(old(self).ops(), final(self).ops()),
                res,
            ),
            no_writes(added(old(self).ops(), final(self).ops())),
            res matches Err(e) ==> e == FSError::ReadError || e == FSError::BadFS,
    {
        let ghost s0 = self@;
        let ghost start = self.ops();
        let ghost t = ascii_lowercase(name@);
        proof {
            assert(added(start, start) =~= Seq::<DiskOp>::empty());
        }
        let target = to_ascii_lowercase(name);
        let cs = self.cluster_size();
        let mut cluster = start_cluster;
        let mut fuel: u64 = self.sectors_per_fat as u64 * (self.bytes_per_sector / 4) as u64 + 1;
        proof {
            assert(start.take(start.len() as int) =~= start);
            assert forall|r: Seq<DiskOp>, x: Result<DirEntry, FSError>|
                #[trigger] dir_search(s0, t, cluster, fuel as int, r, x) implies dir_search(
                    s0,
                    t,
                    start_cluster,
                    dir_fuel(s0),
                    added(start, self.ops()) + r,
                    x,
                ) by {
                assert(added(start, self.ops()) + r =~= r);
            }
        }
        while cluster < 0x0FFF_FFF8
            invariant
                self@ == old(self)@,
                s0 == old(self)@,
                start == old(self).ops(),
                t == ascii_lowercase(name@),
                geometry_supported(self@),
                cs == cluster_bytes(self@),
                target@ == t,
                extends(start, self.ops()),
                no_writes(added(start, self.ops())),
                forall|r: Seq<DiskOp>, x: Result<DirEntry, FSError>|
                    #[trigger] dir_search(s0, t, cluster, fuel as int, r, x) ==> dir_search(
                        s0,
                        t,
                        start_cluster,
                        dir_fuel(s0),
                        added(start, self.ops()) + r,
                        x,
                    ),
            decreases fuel,
        {
            if cluster < 2 || fuel == 0 {
                proof {
                    let e = Seq::<DiskOp>::empty();
                    assert(dir_search(s0, t, cluster, fuel as int, e, Err::<DirEntry, FSError>(FSError::BadFS)));
                    assert(added(start, self.ops()) + e =~= added(start, self.ops()));
                }
                return Err(FSError::BadFS);
            }
            let ghost f = fuel as int;
            let ghost iter_ops = self.ops();
            fuel = fuel - 1;
            let mut buf = zeros(cs);
            let ghost zero_buf = buf@;
            let rd = self.read_cluster(cluster, &mut buf);
            let ghost rrun = added(iter_ops, self.ops());
            let ghost m = rrun.len() as int;
            proof {
                assert(self.ops().take(start.len() as int) =~= start);
                assert(added(start, self.ops()) =~= added(start, iter_ops) + rrun);
                assert(rrun.take(m) =~= rrun);
                assert(zero_buf =~= Seq::new(cluster_bytes(s0) as nat, |k: int| 0u8));
                lemma_read_run_no_writes(rrun, cluster_lba(s0, cluster), s0.sectors_per_cluster as int, s0.bytes_per_sector as int, Seq::empty());
                lemma_join_writes(added(start, iter_ops), rrun);
            }
            match rd {
                Ok(()) => {},
                Err(e) => {
                    proof {
                        assert(dir_search(s0, t, cluster, f, rrun, Err::<DirEntry, FSError>(FSError::ReadError)));
                        assert(added(start, self.ops()) + Seq::<DiskOp>::empty() =~= added(start, self.ops()));
                    }
                    return Err(e);
                },
            }
            proof {
                let a: int = self@.bytes_per_sector as int / 32;
                let spc: int = self@.sectors_per_cluster as int;
                assert(self@.bytes_per_sector == 32 * a);
                assert(cs == 32 * (a * spc)) by (nonlinear_arith)
                    requires
                        cs == self@.bytes_per_sector * spc,
                        self@.bytes_per_sector == 32 * a,
                ;
            }
            match scan_cluster(buf.as_slice(), target.as_str()) {
                ClusterScan::Found(e) => {
                    proof {
                        assert(dir_search(s0, t, cluster, f, rrun, Ok::<DirEntry, FSError>(e)));
                        assert(added(start, self.ops()) + Seq::<DiskOp>::empty() =~= added(start, self.ops()));
                    }
                    return Ok(e);
                },
                ClusterScan::End => {
                    proof {
                        assert(dir_search(s0, t, cluster, f, rrun, Err::<DirEntry, FSError>(FSError::BadFS)));
                        assert(added(start, self.ops()) + Seq::<DiskOp>::empty() =~= added(start, self.ops()));
                    }
                    return Err(FSError::BadFS);
                },
                ClusterScan::Exhausted => {},
            }
            let ghost old_cluster = cluster;
            let ghost before_link = self.ops();
            let nc = self.next_cluster(cluster);
            let ghost op = self.ops().last();
            proof {
                assert(self.ops().take(start.len() as int) =~= start);
                assert(added(start, self.ops()) =~= added(start, iter_ops) + rrun.push(op));
                assert(added(start, self.ops()) =~= added(start, before_link) + seq![op]);
                assert(no_writes(seq![op]));
                lemma_join_writes(added(start, before_link), seq![op]);
            }
            match nc {
                Ok(c) => {
                    proof {
                        assert forall|r: Seq<DiskOp>, x: Result<DirEntry, FSError>|
                            #[trigger] dir_search(s0, t, c, f - 1, r, x) implies dir_search(
                                s0,
                                t,
                                start_cluster,
                                dir_fuel(s0),
                                added(start, self.ops()) + r,
                                x,
                            ) by {
                            let full = rrun.push(op) + r;
                            assert(full.take(m) =~= rrun);
                            assert(full[m] == op);
                            assert(full.skip(m + 1) =~= r);
                            assert(dir_search(s0, t, old_cluster, f, full, x));
                            assert(added(start, iter_ops) + full =~= added(start, self.ops()) + r);
                        }
                    }
                    cluster = c;
                },
                Err(e) => {
                    proof {
                        let full = rrun.push(op);
                        assert(full.take(m) =~= rrun);
                        assert(full[m] == op);
                        assert(dir_search(s0, t, old_cluster, f, full, Err::<DirEntry, FSError>(FSError::ReadError)));
                        assert(added(start, iter_ops) + full =~= added(start, self.ops()));
                        assert(added(start, self.ops()) + Seq::<DiskOp>::empty() =~= added(start, self.ops()));
                    }
                    return Err(e);
                },
            }
        }
        proof {
            let e = Seq::<DiskOp>::empty();
            assert(dir_search(s0, t, cluster, fuel as int, e, Err::<DirEntry, FSError>(FSError::BadFS)));
            assert(added(start, self.ops()) + e =~= added(start, self.ops()));
        }
        Err(FSError::BadFS)
    }

    /// Stores `value` in the allocation-table entry of `cluster`. The sector
    /// is addressed as the device's port, at block 0.
    pub fn set_fat_entry(&mut self, cluster: u32, value: u32) -> (res: Result<(), FSError>)
        requires
            geometry_supported(old(self)@),
            cluster <= 0x3FFF_FFFF,
        ensures
            final(self)@ == old(self)@,
            extends(old(self).ops(), final(self).ops()),
            fat_entry_update(old(self)@, cluster, value, added(old(self).ops(), final(self).ops()), res),
            res matches Err(e) ==> e == FSError::ReadError || e == FSError::WriteError,
    {
        let ghost start = self.ops();
        let bps = self.bytes_per_sector as u32;
        let fat_offset = cluster * 4;
        let sector = self.fat_start_sector + (fat_offset / bps) as u64;
        let offset = (fat_offset % bps) as usize;
        proof {
            let q: int = bps as int / 4;
            assert(4 * q == bps as int);
            vstd::arithmetic::div_mod::lemma_mod_mod(fat_offset as int, 4, q);
        }
        assert(offset + 4 <= 512) by (nonlinear_arith)
            requires
                offset % 4 == 0,
                bps % 4 == 0,
                offset < bps,
                bps <= 512,
        ;
        assert(sector as usize == fat_entry_port(self@, cluster));
        let mut buf = zeros(512);
        let ok = self.read_into(sector as usize, 0, &mut buf, 0, 512);
        let ghost after_read = self.ops();
        proof {
            assert(buf@.subrange(0, 512) =~= buf@);
            assert(after_read.take(start.len() as int) =~= start);
            assert(added(start, after_read) =~= seq![after_read.last()]);
        }
        if !ok {
            return Err(FSError::ReadError);
        }
        store_le32(&mut buf, offset, value);
        let ok2 = self.write_to(sector as usize, 0, buf.as_slice());
        proof {
            assert(self.ops().take(start.len() as int) =~= start);
            assert(added(start, self.ops()) =~= seq![after_read.last(), self.ops().last()]);
        }
        if !ok2 {
            return Err(FSError::WriteError);
        }
        Ok(())
    }

    /// Finds `count` free clusters (entries that read 0), scanning the
    /// table's sectors in order (each addressed as the device's port, at
    /// block 0), chains them in that order with an end mark after the last,
    /// and returns the first. With `count` 0 every free cluster is taken.
    pub fn allocate_clusters(&mut self, count: usize) -> (res: Result<u32, FSError>)
        requires
            geometry_supported(old(self)@),
        ensures
            final(self)@ == old(self)@,
            extends(old(self).ops(), final(self).ops()),
            allocation(old(self)@, count as int, added(old(self).ops(), final(self).ops()), res),
            res == Err::<u32, FSError>(FSError::WriteError) ==> write_refused(
                added(old(self).ops(), final(self).ops()),
            ) || no_writes(added(old(self).ops(), final(self).ops())),
            res matches Err(e) ==> e == FSError::ReadError || e == FSError::WriteError,
            res matches Ok(c) ==> c < total_entries(old(self)@),
    {
        let ghost s0 = self@;
        let ghost start = self.ops();
        let ghost per = (s0.bytes_per_sector / 4) as int;
        proof {
            assert(old(self).ops().take(old(self).ops().len() as int) =~= old(self).ops());
            assert(added(old(self).ops(), old(self).ops()) =~= Seq::<DiskOp>::empty());
        }
        let fat_sectors = self.sectors_per_fat;
        let eps = self.bytes_per_sector / 4;
        let ghost total = total_entries(self@);
        let mut allocated: Vec<u32> = Vec::new();
        let mut sector: u32 = 0;
        let mut done = false;
        while !done && sector < fat_sectors
            invariant
                extends(old(self).ops(), self.ops()),
                no_writes(added(old(self).ops(), self.ops())),
                self@ == old(self)@,
                s0 == old(self)@,
                start == old(self).ops(),
                per == eps,
                geometry_supported(self@),
                fat_sectors == self@.sectors_per_fat,
                eps == self@.bytes_per_sector / 4,
                total == total_entries(self@),
                total == fat_sectors * eps,
                sector <= fat_sectors,
                forall|k: int| 0 <= k < allocated@.len() ==> allocated@[k] < sector * eps,
                added(start, self.ops()).len() == sector,
                allocated@ == collected(added(start, self.ops()), per, count as int),
                forall|k: int|
                    0 <= k < sector ==> (#[trigger] added(start, self.ops())[k] matches DiskOp::Read(p, l, d, _)
                        && p == s0.fat_start_sector + k && l == 0 && d.len() == 512),
                forall|k: int| 0 <= k < sector ==> op_ok(#[trigger] added(start, self.ops())[k]),
                forall|k: int|
                    0 <= k < sector && (k < sector - 1 || !done) ==> !filled_at(added(start, self.ops()), per, count as int, k),
                done ==> sector > 0 && filled_at(added(start, self.ops()), per, count as int, sector - 1),
                done ==> allocated@.len() == count && count > 0,
            decreases fat_sectors - sector,
        {
            let mut buf = zeros(512);
            assert(sector < 0x1000_0000) by (nonlinear_arith)
                requires
                    sector < fat_sectors,
                    fat_sectors * eps == total,
                    total <= 0x4000_0000,
                    eps >= 8,
            ;
            let port = (self.fat_start_sector + sector as u64) as usize;
            assert(port == s0.fat_start_sector + sector);
            let ghost before = self.ops();
            let ghost scan0 = added(start, before);
            let ok = self.read_into(port, 0, &mut buf, 0, 512);
            let ghost op = self.ops().last();
            let ghost scan1 = added(start, self.ops());
            proof {
                assert(self.ops().take(before.len() as int) =~= before);
                lemma_extends_trans(old(self).ops(), before, self.ops());
                lemma_added_concat(old(self).ops(), before, self.ops());
                assert(added(before, self.ops()) =~= seq![self.ops().last()]);
                assert(no_writes(seq![self.ops().last()]));
                lemma_join_writes(added(old(self).ops(), before), added(before, self.ops()));
                assert(scan1 =~= scan0.push(op));
                assert(buf@.subrange(0, 512) =~= buf@);
                assert(op == DiskOp::Read(port, 0, buf@, ok));
                assert forall|k: int| 0 <= k < scan1.len() implies (#[trigger] scan1[k] matches DiskOp::Read(p, l, d, _)
                    && p == s0.fat_start_sector + k && l == 0 && d.len() == 512) by {
                    if k < sector {
                        assert(scan1[k] == scan0[k]);
                    }
                }
                assert forall|k: int| 0 <= k < sector implies op_ok(#[trigger] scan1[k]) by {
                    assert(scan1[k] == scan0[k]);
                }
                assert forall|k: int| 0 <= k <= sector implies #[trigger] scan1.take(k) == scan0.take(k) by {
                    assert(scan1.take(k) =~= scan0.take(k));
                }
                assert(scan0.take(sector as int) =~= scan0);
                assert(scan1.take(sector + 1) =~= scan1);
                assert forall|k: int| 0 <= k < sector implies filled_at(scan1, per, count as int, k) == filled_at(scan0, per, count as int, k) by {
                    assert(scan1.take(k) == scan0.take(k));
                    assert(scan1.take(k + 1) == scan0.take(k + 1));
                }
            }
            if !ok {
                proof {
                    assert(table_scan(s0, scan1, count as int));
                    assert(scan1.take(scan1.len() as int) =~= scan1);
                    assert(allocation(s0, count as int, scan1, Err::<u32, FSError>(FSError::ReadError)));
                }
                return Err(FSError::ReadError);
            }
            assert(sector * eps + eps <= fat_sectors * eps) by (nonlinear_arith)
                requires
                    sector < fat_sectors,
            ;
            let ghost prev = allocated@;
            let full = collect_free_entries(buf.as_slice(), sector, eps, &mut allocated, count);
            proof {
                let free = free_entries(buf@, sector as int, eps as int, eps as int);
                lemma_free_entries_bound(buf@, sector as int, eps as int, eps as int);
                assert(sector * eps <= (sector + 1) * eps && (sector + 1) * eps == sector * eps
                    + eps) by (nonlinear_arith);
                lemma_after_collect_bound(prev, free, count as int, (sector + 1) * eps);
                assert(scan1.drop_last() =~= scan0);
                assert(op_data(op) == buf@);
                assert(allocated@ == collected(scan1, per, count as int));
                assert(collected(scan1.take(sector as int), per, count as int) == prev);
                assert(full == filled_at(scan1, per, count as int, sector as int));
            }
            sector = sector + 1;
            if full {
                done = true;
            }
        }
        assert(sector * eps <= total) by (nonlinear_arith)
            requires
                sector <= fat_sectors,
                total == fat_sectors * eps,
        ;
        let ghost mid = self.ops();
        let ghost scan = added(start, mid);
        proof {
            assert(table_scan(s0, scan, count as int));
        }
        let n = allocated.len();
        if n < count || n == 0 {
            proof {
                assert(scan.take(scan.len() as int) =~= scan);
                assert(allocation(s0, count as int, scan, Err::<u32, FSError>(FSError::WriteError)));
            }
            return Err(FSError::WriteError);
        }
        let ghost found = allocated@;
        proof {
            assert(mid.take(mid.len() as int) =~= mid);
            assert(start.take(start.len() as int) =~= start);
            assert forall|r: Seq<DiskOp>, x: Result<(), FSError>|
                #[trigger] link_updates(s0, found, 0, r, x) implies link_updates(
                    s0,
                    found,
                    0,
                    added(mid, self.ops()) + r,
                    x,
                ) by {
                assert(added(mid, self.ops()) + r =~= r);
            }
        }
        let mut i: usize = 0;
        while i < n
            invariant
                extends(old(self).ops(), self.ops()),
                extends(mid, self.ops()),
                start == old(self).ops(),
                extends(start, mid),
                extends(start, start),
                scan == added(start, mid),
                table_scan(s0, scan, count as int),
                !(scan.len() > 0 && !op_ok(scan.last())),
                per == (s0.bytes_per_sector / 4) as int,
                found == collected(scan, per, count as int),
                !(found.len() < count || found.len() == 0),
                self@ == old(self)@,
                s0 == old(self)@,
                geometry_supported(self@),
                n == allocated@.len(),
                found == allocated@,
                i <= n,
                total == total_entries(self@),
                total <= 0x4000_0000,
                forall|k: int| 0 <= k < allocated@.len() ==> allocated@[k] < total,
                forall|r: Seq<DiskOp>, x: Result<(), FSError>|
                    #[trigger] link_updates(s0, found, i as int, r, x) ==> link_updates(
                        s0,
                        found,
                        0,
                        added(mid, self.ops()) + r,
                        x,
                    ),
            decreases n - i,
        {
            let curr = allocated[i];
            let next = if i == n - 1 {
                0x0FFF_FFFF
            } else {
                allocated[i + 1]
            };
            assert(next == link_target(found, i as int));
            let ghost before = self.ops();
            let set = self.set_fat_entry(curr, next);
            let ghost urun = added(before, self.ops());
            proof {
                lemma_extends_trans(old(self).ops(), before, self.ops());
                lemma_extends_trans(mid, before, self.ops());
                lemma_added_concat(old(self).ops(), before, self.ops());
                lemma_added_concat(mid, before, self.ops());
                if set == Err::<(), FSError>(FSError::WriteError) {
                    assert(is_write(urun[1]) && !op_ok(urun[1]));
                    assert(write_refused(urun));
                    lemma_join_writes(added(old(self).ops(), before), urun);
                }
                assert(urun.take(urun.len() as int) =~= urun);
            }
            match set {
                Ok(()) => {
                    proof {
                        assert forall|r: Seq<DiskOp>, x: Result<(), FSError>|
                            #[trigger] link_updates(s0, found, i + 1, r, x) implies link_updates(
                                s0,
                                found,
                                0,
                                added(mid, self.ops()) + r,
                                x,
                            ) by {
                            let full = urun + r;
                            let m = urun.len() as int;
                            assert(full.take(m) =~= urun);
                            assert(full.skip(m) =~= r);
                            assert(fat_entry_update(s0, found[i as int], link_target(found, i as int), full.take(m), set));
                            assert(link_updates(s0, found, i as int, full, x));
                            assert(added(mid, before) + full =~= added(mid, self.ops()) + r);
                        }
                    }
                },
                Err(e) => {
                    proof {
                        assert(fat_entry_update(s0, found[i as int], link_target(found, i as int), urun.take(urun.len() as int), set));
                        assert(link_updates(s0, found, i as int, urun, Err::<(), FSError>(e)));
                        assert(added(mid, before) + urun =~= added(mid, self.ops()) + Seq::<DiskOp>::empty());
                        let all = added(start, self.ops());
                        lemma_added_between(start, start, mid, self.ops());
                        assert(all.take(scan.len() as int) =~= scan);
                        assert(all.skip(scan.len() as int) == added(mid, self.ops()));
                        assert(link_updates(s0, found, 0, all.skip(scan.len() as int), Err::<(), FSError>(e)));
                        assert(allocation(s0, count as int, all, Err::<u32, FSError>(e)));
                    }
                    return Err(e);
                },
            }
            i = i + 1;
        }
        proof {
            let e = Seq::<DiskOp>::empty();
            assert(link_updates(s0, found, n as int, e, Ok::<(), FSError>(())));
            assert(added(mid, self.ops()) + e =~= added(mid, self.ops()));
            let all = added(start, self.ops());
            lemma_added_between(start, start, mid, self.ops());
            assert(all.take(scan.len() as int) =~= scan);
            assert(all.skip(scan.len() as int) == added(mid, self.ops()));
            assert(link_updates(s0, found, 0, all.skip(scan.len() as int), Ok::<(), FSError>(())));
            assert(allocation(s0, count as int, all, Ok::<u32, FSError>(found[0])));
        }
        Ok(allocated[0])
    }

    /// Writes `data` over the cluster chain that starts at `start_cluster`,
    /// one cluster at a time, the last one padded with zeros. A chain that
    /// ends early (a cluster number below 2) reports `BadFS`.
    pub fn write_file_data(&mut self, start_cluster: u32, data: &[u8]) -> (res: Result<
        (),
        FSError,
    >)
        requires
            geometry_supported(old(self)@),
            cluster_bytes(old(self)@) <= 8192,
        ensures
            final(self)@ == old(self)@,
            extends(old(self).ops(), final(self).ops()),
            chain_write(old(self)@, data@, 0, start_cluster, added(old(self).ops(), final(self).ops()), res),
            res matches Err(e) ==> e == FSError::ReadError || e == FSError::WriteError || e
                == FSError::BadFS,
    {
        let ghost s0 = self@;
        let ghost start = self.ops();
        let mut cluster = start_cluster;
        let mut offset: usize = 0;
        let cs = self.cluster_size();
        let len = data.len();
        proof {
            assert(start.take(start.len() as int) =~= start);
            assert forall|r: Seq<DiskOp>, x: Result<(), FSError>|
                #[trigger] chain_write(s0, data@, 0, cluster, r, x) implies chain_write(
                    s0,
                    data@,
                    0,
                    start_cluster,
                    added(start, self.ops()) + r,
                    x,
                ) by {
                assert(added(start, self.ops()) + r =~= r);
            }
        }
        while offset < len
            invariant
                self@ == old(self)@,
                s0 == old(self)@,
                start == old(self).ops(),
                geometry_supported(self@),
                cluster_bytes(self@) <= 8192,
                cs == cluster_bytes(self@),
                len == data@.len(),
                offset <= len,
                extends(start, self.ops()),
                forall|r: Seq<DiskOp>, x: Result<(), FSError>|
                    #[trigger] chain_write(s0, data@, offset as int, cluster, r, x) ==> chain_write(
                        s0,
                        data@,
                        0,
                        start_cluster,
                        added(start, self.ops()) + r,
                        x,
                    ),
            decreases len - offset,
        {
            assert(cs >= 32) by (nonlinear_arith)
                requires
                    cs == self@.bytes_per_sector * self@.sectors_per_cluster,
                    self@.bytes_per_sector >= 32,
                    self@.sectors_per_cluster >= 1,
            ;
            let ghost iter_ops = self.ops();
            let end = if len - offset > cs {
                offset + cs
            } else {
                len
            };
            assert(end == piece_end(s0, data@, offset as int));
            let chunk = vstd::slice::slice_subrange(data, offset, end);
            let mut buf = zeros(8192);
            copy_into(&mut buf, 0, chunk, end - offset);
            assert(buf@ == padded_piece(data@, offset as int, end as int));
            if cluster < 2 {
                proof {
                    let e = Seq::<DiskOp>::empty();
                    assert(chain_write(s0, data@, offset as int, cluster, e, Err::<(), FSError>(FSError::BadFS)));
                    assert(added(start, self.ops()) + e =~= added(start, self.ops()));
                }
                return Err(FSError::BadFS);
            }
            let w = self.write_cluster(cluster, buf.as_slice());
            let ghost wrun = added(iter_ops, self.ops());
            let ghost m = wrun.len() as int;
            proof {
                assert(self.ops().take(start.len() as int) =~= start);
                assert(added(start, self.ops()) =~= added(start, iter_ops) + wrun);
            }
            match w {
                Ok(()) => {},
                Err(e) => {
                    proof {
                        assert(wrun.take(m) =~= wrun);
                        assert(chain_write(s0, data@, offset as int, cluster, wrun, Err::<(), FSError>(FSError::WriteError)));
                    }
                    return Err(e);
                },
            }
            let ghost old_offset = offset as int;
            let ghost old_cluster = cluster;
            offset = end;
            if offset < len {
                let nc = self.next_cluster(cluster);
                let ghost op = self.ops().last();
                proof {
                    assert(self.ops().take(start.len() as int) =~= start);
                    assert(added(start, self.ops()) =~= added(start, iter_ops) + wrun.push(op));
                }
                match nc {
                    Ok(c) => {
                        proof {
                            assert forall|r: Seq<DiskOp>, x: Result<(), FSError>|
                                #[trigger] chain_write(s0, data@, end as int, c, r, x) implies chain_write(
                                    s0,
                                    data@,
                                    0,
                                    start_cluster,
                                    added(start, self.ops()) + r,
                                    x,
                                ) by {
                                let full = wrun.push(op) + r;
                                assert(full.take(m) =~= wrun);
                                assert(full[m] == op);
                                assert(full.skip(m + 1) =~= r);
                                assert(chain_write(s0, data@, old_offset, old_cluster, full, x));
                                assert(added(start, iter_ops) + full =~= added(start, self.ops()) + r);
                            }
                        }
                        cluster = c;
                    },
                    Err(e) => {
                        proof {
                            let full = wrun.push(op);
                            assert(full.take(m) =~= wrun);
                            assert(full[m] == op);
                            assert(chain_write(s0, data@, old_offset, old_cluster, full, Err::<(), FSError>(FSError::ReadError)));
                            assert(added(start, iter_ops) + full =~= added(start, self.ops()));
                        }
                        return Err(e);
                    },
                }
            } else {
                proof {
                    assert(wrun.take(m) =~= wrun);
                    assert(chain_write(s0, data@, old_offset, old_cluster, wrun, Ok::<(), FSError>(())));
                    let e = Seq::<DiskOp>::empty();
                    assert(chain_write(s0, data@, offset as int, cluster, e, Ok::<(), FSError>(())));
                    assert(added(start, self.ops()) + e =~= added(start, self.ops()));
                    assert forall|r: Seq<DiskOp>, x: Result<(), FSError>|
                        #[trigger] chain_write(s0, data@, offset as int, cluster, r, x) implies chain_write(
                            s0,
                            data@,
                            0,
                            start_cluster,
                            added(start, self.ops()) + r,
                            x,
                        ) by {
                        assert(r.len() == 0);
                        assert(wrun + r =~= wrun);
                        assert(added(start, iter_ops) + wrun =~= added(start, self.ops()) + r);
                    }
                }
            }
        }
        proof {
            let e = Seq::<DiskOp>::empty();
            assert(chain_write(s0, data@, offset as int, cluster, e, Ok::<(), FSError>(())));
            assert(added(start, self.ops()) + e =~= added(start, self.ops()));
        }
        Ok(())
    }

    /// Writes the first sector image of a new directory to `cluster`.
    fn init_directory_cluster(&mut self, cluster: u32, parent_cluster: u32) -> (res: Result<
        (),
        FSError,
    >)
        requires
            cluster >= 2,
            cluster_bytes(old(self)@) <= 512,
        ensures
            final(self)@ == old(self)@,
            extends(old(self).ops(), final(self).ops()),
            cluster_written(
                old(self)@,
                cluster,
                added(old(self).ops(), final(self).ops()),
                directory_image(cluster, parent_cluster),
                res,
            ),
            res matches Err(e) ==> e == FSError::WriteError,
    {
        let buf = directory_image_exec(cluster, parent_cluster);
        self.write_cluster(cluster, buf.as_slice())
    }

    /// Adds the records of an entry named `name` (a directory when `is_dir`)
    /// whose data starts at `cluster` to the first cluster of the directory
    /// at `parent_cluster`, in the first run of unused slots (searched over
    /// a 4096-byte buffer) that holds them all.
    fn insert_dir_entry(&mut self, parent_cluster: u32, name: &str, cluster: u32, is_dir: bool) -> (res:
        Result<(), FSError>)
        requires
            parent_cluster >= 2,
            cluster_bytes(old(self)@) <= 4096,
        ensures
            final(self)@ == old(self)@,
            extends(old(self).ops(), final(self).ops()),
            dir_insert(
                old(self)@,
                parent_cluster,
                dir_records(
                    utf16_encode(name@),
                    short_name_bytes(name.spec_bytes()),
                    if is_dir { 0x10u8 } else { 0x20u8 },
                    cluster,
                    0,
                ),
                added(old(self).ops(), final(self).ops()),
                res,
            ),
            res matches Err(e) ==> e == FSError::ReadError || e == FSError::WriteError,
    {
        let ghost start = self.ops();
        let short_name = generate_8_3(name);
        let attr: u8 = if is_dir {
            0x10
        } else {
            0x20
        };
        let records = build_dir_records(name, &short_name, attr, cluster, 0);
        let mut dir_buf = zeros(4096);
        let r = self.read_cluster(parent_cluster, &mut dir_buf);
        let ghost mid = self.ops();
        let ghost reads = added(start, mid);
        let ghost m = reads.len() as int;
        proof {
            assert(mid.skip(start.len() as int).take(m) =~= reads);
        }
        match r {
            Ok(()) => {},
            Err(e) => {
                proof {
                    assert(added(start, mid).take(m) =~= reads);
                }
                return Err(e);
            },
        }
        match find_free_run(dir_buf.as_slice(), records.len() / 32) {
            None => {
                proof {
                    assert(added(start, mid).take(m) =~= reads);
                }
                Err(FSError::WriteError)
            },
            Some(i) => {
                proof {
                    lemma_run_fits(dir_buf@, (records@.len() / 32) as int);
                    assert(records@.len() % 32 == 0);
                }
                place_records(&mut dir_buf, i, records.as_slice());
                let w = self.write_cluster(parent_cluster, dir_buf.as_slice());
                proof {
                    let all = added(start, self.ops());
                    assert(self.ops().take(start.len() as int) =~= start);
                    assert(all.take(m) =~= reads);
                    assert(all.skip(m) =~= added(mid, self.ops()));
                }
                w
            },
        }
    }
}

/// A run found by `first_free_run` lies inside the buffer.
proof fn lemma_run_fits(b: Seq<u8>, n: int)
    requires
        n >= 0,
    ensures
        first_free_run(b, n, 0) != -1 ==> first_free_run(b, n, 0) + 32 * n <= b.len(),
{
    lemma_run_fits_from(b, n, 0);
}

proof fn lemma_run_fits_from(b: Seq<u8>, n: int, i: int)
    requires
        n >= 0,
    ensures
        first_free_run(b, n, i) != -1 ==> first_free_run(b, n, i) + 32 * n <= b.len(),
    decreases b.len() - i,
{
    if !(i < 0 || i + 32 * n > b.len()) && !run_free(b, i, n) && n >= 1 {
        lemma_run_fits_from(b, n, i + 32);
    }
}

/// Splits a path at its slashes, leaving out empty components.
pub fn split_path(path: &str) -> (res: Vec<&str>)
    ensures
        str_views(res@) == path_components(path@),
{
    crate::fs::split_path(path)
}

impl<'a, D: SectorDevice> FAT<'a, D> {
    /// Reads the boot sector and takes the volume's geometry from it.
    pub fn mount(&mut self) -> (res: Result<(), FSError>)
        ensures
            old(self)@.mounted ==> res == Err::<(), FSError>(FSError::AlreadyMounted) && final(self)@ == old(self)@,
            !old(self)@.mounted ==> match res {
                Ok(()) => exists|b: Seq<u8>|
                    #![trigger mounted_state(b)]
                    b.len() == 512 && fat32_signature(b) && final(self)@ == mounted_state(b),
                Err(e) => (e == FSError::ReadError || e == FSError::BadFS) && final(self)@ == old(self)@,
            },
            old(self)@.mounted ==> final(self).ops() == old(self).ops(),
            !old(self)@.mounted ==> final(self).ops().len() == old(self).ops().len() + 1
                && final(self).ops().drop_last() == old(self).ops() && boot_check(
                final(self).ops().last(),
                res,
            ) && (res is Ok ==> final(self)@ == mounted_state(op_data(final(self).ops().last()))),
    {
        if self.mounted {
            return Err(FSError::AlreadyMounted);
        }
        let mut buf = zeros(512);
        let ok = self.read_into(0, 0, &mut buf, 0, 512);
        proof {
            assert(buf@.subrange(0, 512) =~= buf@);
            assert(self.ops().drop_last() =~= old(self).ops());
        }
        if !ok {
            return Err(FSError::ReadError);
        }
        if !has_fat32_signature(buf.as_slice()) {
            return Err(FSError::BadFS);
        }
        let b = buf.as_slice();
        self.bytes_per_sector = read_le16(b, 0x0B);
        self.sectors_per_cluster = b[0x0D];
        self.reserved_sectors = read_le16(b, 0x0E);
        self.num_fats = b[0x10];
        self.sectors_per_fat = read_le32(b, 0x24);
        self.root_cluster = read_le32(b, 0x2C);
        self.fat_start_sector = self.reserved_sectors as u64;
        self.mounted = true;
        assert(self@ == mounted_state(buf@));
        Ok(())
    }

    pub fn unmount(&mut self) -> (res: Result<(), FSError>)
        ensures
            old(self)@.mounted ==> res is Ok && final(self)@ == (FatState {
                mounted: false,
                ..old(self)@
            }),
            !old(self)@.mounted ==> res == Err::<(), FSError>(FSError::NotMounted) && final(self)@
                == old(self)@,
    {
        if !self.mounted {
            return Err(FSError::NotMounted);
        }
        self.mounted = false;
        Ok(())
    }

    /// Walks the directories named by all but the last component of `parts`,
    /// from the root (see `dir_walk`); `not_dir` is reported for a component
    /// that names a file.
    fn walk_dirs(&mut self, parts: &Vec<&str>, not_dir: FSError) -> (res: Result<u32, FSError>)
        requires
            geometry_supported(old(self)@),
            parts@.len() >= 1,
        ensures
            final(self)@ == old(self)@,
            extends(old(self).ops(), final(self).ops()),
            no_writes(added(old(self).ops(), final(self).ops())),
            dir_walk(
                old(self)@,
                str_views(parts@).drop_last(),
                old(self)@.root_cluster,
                added(old(self).ops(), final(self).ops()),
                not_dir,
                res,
            ),
            res matches Err(e) ==> e == FSError::ReadError || e == FSError::BadFS || e == not_dir,
            parts@.len() == 1 ==> res == Ok::<u32, FSError>(old(self)@.root_cluster),
    {
        let ghost s0 = self@;
        let ghost start = self.ops();
        let ghost comps = str_views(parts@);
        let mut dir_cluster = self.root_cluster;
        let n = parts.len();
        let mut k: usize = 0;
        proof {
            assert(old(self).ops().take(old(self).ops().len() as int) =~= old(self).ops());
            assert(added(old(self).ops(), old(self).ops()) =~= Seq::<DiskOp>::empty());
            assert(comps.subrange(0, n - 1) =~= comps.drop_last());
            assert forall|r: Seq<DiskOp>, x: Result<u32, FSError>|
                #[trigger] dir_walk(s0, comps.subrange(0, n - 1), dir_cluster, r, not_dir, x) implies dir_walk(
                    s0,
                    comps.drop_last(),
                    s0.root_cluster,
                    added(start, self.ops()) + r,
                    not_dir,
                    x,
                ) by {
                assert(added(start, self.ops()) + r =~= r);
            }
        }
        while k + 1 < n
            invariant
                extends(old(self).ops(), self.ops()),
                no_writes(added(old(self).ops(), self.ops())),
                self@ == old(self)@,
                s0 == old(self)@,
                start == old(self).ops(),
                comps == str_views(parts@),
                geometry_supported(self@),
                n == parts@.len(),
                n >= 1,
                k + 1 <= n,
                n == 1 ==> dir_cluster == self@.root_cluster,
                forall|r: Seq<DiskOp>, x: Result<u32, FSError>|
                    #[trigger] dir_walk(s0, comps.subrange(k as int, n - 1), dir_cluster, r, not_dir, x) ==> dir_walk(
                        s0,
                        comps.drop_last(),
                        s0.root_cluster,
                        added(start, self.ops()) + r,
                        not_dir,
                        x,
                    ),
            decreases n - k,
        {
            let ghost before = self.ops();
            let ghost cur = dir_cluster;
            let ghost rest = comps.subrange(k as int, n - 1);
            assert(rest[0] == parts@[k as int]@);
            let found = self.find_in_directory(dir_cluster, parts[k]);
            let ghost frun = added(before, self.ops());
            proof {
                lemma_extends_trans(old(self).ops(), before, self.ops());
                lemma_added_concat(old(self).ops(), before, self.ops());
                lemma_join_writes(added(old(self).ops(), before), added(before, self.ops()));
                assert(frun.take(frun.len() as int) =~= frun);
                assert(dir_search(s0, ascii_lowercase(rest[0]), cur, dir_fuel(s0), frun.take(frun.len() as int), found));
            }
            let entry = match found {
                Ok(e) => e,
                Err(e) => {
                    proof {
                        assert(dir_walk(s0, rest, cur, frun, not_dir, Err::<u32, FSError>(e)));
                        assert(added(start, before) + frun =~= added(start, self.ops()) + Seq::<DiskOp>::empty());
                    }
                    return Err(e);
                },
            };
            if !entry.is_directory() {
                proof {
                    assert(dir_walk(s0, rest, cur, frun, not_dir, Err::<u32, FSError>(not_dir)));
                    assert(added(start, before) + frun =~= added(start, self.ops()) + Seq::<DiskOp>::empty());
                }
                return Err(not_dir);
            }
            dir_cluster = entry.full_cluster();
            proof {
                assert(rest.drop_first() =~= comps.subrange(k + 1, n - 1));
                assert forall|r: Seq<DiskOp>, x: Result<u32, FSError>|
                    #[trigger] dir_walk(s0, comps.subrange(k + 1, n - 1), dir_cluster, r, not_dir, x) implies dir_walk(
                        s0,
                        comps.drop_last(),
                        s0.root_cluster,
                        added(start, self.ops()) + r,
                        not_dir,
                        x,
                    ) by {
                    let full = frun + r;
                    let m = frun.len() as int;
                    assert(full.take(m) =~= frun);
                    assert(full.skip(m) =~= r);
                    assert(dir_search(s0, ascii_lowercase(rest[0]), cur, dir_fuel(s0), full.take(m), found));
                    assert(dir_walk(s0, rest, cur, full, not_dir, x));
                    assert(added(start, before) + full =~= added(start, self.ops()) + r);
                }
            }
            k = k + 1;
        }
        proof {
            let e = Seq::<DiskOp>::empty();
            assert(comps.subrange(k as int, n - 1) =~= Seq::<Seq<char>>::empty());
            assert(dir_walk(s0, comps.subrange(k as int, n - 1), dir_cluster, e, not_dir, Ok::<u32, FSError>(dir_cluster)));
            assert(added(start, self.ops()) + e =~= added(start, self.ops()));
        }
        Ok(dir_cluster)
    }

    /// Reads the file at `path` into `buf`, cluster by cluster along its
    /// chain until the buffer is full or the chain ends (a link below 2),
    /// and returns how many bytes were read, at most the size its record
    /// gives (see `read_file_outcome`).
    pub fn read_file(&mut self, path: &str, buf: &mut [u8]) -> (res: Result<usize, FSError>)
        requires
            old(self)@.mounted ==> geometry_supported(old(self)@),
        ensures
            final(self)@ == old(self)@,
            final(buf)@.len() == old(buf)@.len(),
            extends(old(self).ops(), final(self).ops()),
            read_file_outcome(
                old(self)@,
                path_components(path@),
                old(buf)@,
                final(buf)@,
                added(old(self).ops(), final(self).ops()),
                res,
            ),
            res == Err::<usize, FSError>(FSError::NotMounted) <==> !old(self)@.mounted,
            old(self)@.mounted && path_components(path@).len() == 0 ==> res == Err::<
                usize,
                FSError,
            >(FSError::BadFS),
            res matches Err(e) ==> e == FSError::NotMounted || e == FSError::BadFS || e
                == FSError::ReadError,
            res matches Ok(n) ==> n <= old(buf)@.len(),
    {
        let ghost s0 = self@;
        let ghost start = self.ops();
        proof {
            assert(start.take(start.len() as int) =~= start);
            assert(added(start, start) =~= Seq::<DiskOp>::empty());
        }
        if !self.mounted {
            return Err(FSError::NotMounted);
        }
        let parts = split_path(path);
        let ghost comps = path_components(path@);
        assert(parts@.len() == comps.len());
        if parts.len() == 0 {
            return Err(FSError::BadFS);
        }
        let walked = self.walk_dirs(&parts, FSError::BadFS);
        let ghost ops_a = self.ops();
        let ghost a = ops_a.len() - start.len();
        proof {
            assert(str_views(parts@) == comps);
            assert(ops_a.take(ops_a.len() as int) =~= ops_a);
            lemma_added_split(start, ops_a, ops_a);
        }
        let dir_cluster = match walked {
            Ok(c) => c,
            Err(e) => {
                proof {
                    let all = added(start, self.ops());
                    assert(all.take(a) =~= all);
                    assert(dir_walk(s0, comps.drop_last(), s0.root_cluster, all.take(a), FSError::BadFS, walked));
                }
                return Err(e);
            },
        };
        let last = parts[parts.len() - 1];
        assert(last@ == comps.last()) by {
            assert(str_views(parts@)[parts@.len() - 1] == last@);
        }
        let found = self.find_in_directory(dir_cluster, last);
        let ghost ops_b = self.ops();
        let ghost b = ops_b.len() - start.len();
        proof {
            lemma_extends_trans(start, ops_a, ops_b);
            assert(ops_b.take(ops_b.len() as int) =~= ops_b);
            lemma_added_split(start, ops_a, ops_b);
            lemma_added_between(start, ops_a, ops_b, ops_b);
        }
        let file_entry = match found {
            Ok(e) => e,
            Err(e) => {
                proof {
                    let all = added(start, self.ops());
                    assert(dir_walk(s0, comps.drop_last(), s0.root_cluster, all.take(a), FSError::BadFS, walked));
                    assert(dir_search(s0, ascii_lowercase(comps.last()), dir_cluster, dir_fuel(s0), all.subrange(a, b), found));
                }
                return Err(e);
            },
        };
        if file_entry.is_directory() {
            proof {
                let all = added(start, self.ops());
                assert(dir_walk(s0, comps.drop_last(), s0.root_cluster, all.take(a), FSError::BadFS, walked));
                assert(dir_search(s0, ascii_lowercase(comps.last()), dir_cluster, dir_fuel(s0), all.subrange(a, b), found));
            }
            return Err(FSError::BadFS);
        }
        let first = file_entry.full_cluster();
        let blen = buf.len();
        let total = self.read_chain(first, buf);
        proof {
            lemma_extends_trans(start, ops_b, self.ops());
            lemma_extends_trans(ops_a, ops_b, self.ops());
            lemma_added_between(start, ops_a, ops_b, self.ops());
            lemma_added_split(start, ops_a, self.ops());
            lemma_added_split(start, ops_b, self.ops());
            let all = added(start, self.ops());
            assert(dir_walk(s0, comps.drop_last(), s0.root_cluster, all.take(a), FSError::BadFS, walked));
            assert(dir_search(s0, ascii_lowercase(comps.last()), dir_cluster, dir_fuel(s0), all.subrange(a, b), found));
            assert(all.skip(b) == added(ops_b, self.ops()));
            assert(file_entry.cluster() as u32 == first);
        }
        let ghost (got, cr) = choose|got: Seq<u8>, cr: Result<(), FSError>|
            chain_read(s0, first, old(buf)@.len() as int, added(ops_b, self.ops()), got, cr) && match cr {
                Err(x) => total == Err::<usize, FSError>(x),
                Ok(_) => total == Ok::<usize, FSError>(got.len() as usize) && got.len() <= old(buf)@.len()
                    && buf@ == got + old(buf)@.skip(got.len() as int),
            };
        proof {
            let all = added(start, self.ops());
            assert(chain_read(s0, file_entry.cluster() as u32, old(buf)@.len() as int, all.skip(b), got, cr));
        }
        match total {
            Ok(t) => {
                let size = file_entry.size as usize;
                let n = if t < size {
                    t
                } else {
                    size
                };
                proof {
                    assert(cr is Ok);
                    assert(got.len() <= blen);
                    assert(t == got.len());
                    assert(n as int == (if got.len() < file_entry.size { got.len() as int } else { file_entry.size as int }));
                    let all = added(start, self.ops());
                    assert(read_file_outcome(s0, comps, old(buf)@, buf@, all, Ok::<usize, FSError>(n)));
                }
                Ok(n)
            },
            Err(e) => Err(e),
        }
    }

    /// Reads the chain from cluster `first` into `buf` (see `chain_read`),
    /// and returns how many bytes it collected.
    fn read_chain(&mut self, first: u32, buf: &mut [u8]) -> (res: Result<usize, FSError>)
        requires
            geometry_supported(old(self)@),
        ensures
            final(self)@ == old(self)@,
            final(buf)@.len() == old(buf)@.len(),
            extends(old(self).ops(), final(self).ops()),
            exists|got: Seq<u8>, cr: Result<(), FSError>|
                #![trigger chain_read(old(self)@, first, old(buf)@.len() as int, added(old(self).ops(), final(self).ops()), got, cr)]
                chain_read(old(self)@, first, old(buf)@.len() as int, added(old(self).ops(), final(self).ops()), got, cr)
                    && match cr {
                    Err(x) => res == Err::<usize, FSError>(x),
                    Ok(_) => res == Ok::<usize, FSError>(got.len() as usize) && got.len() <= old(buf)@.len()
                        && final(buf)@ == got + old(buf)@.skip(got.len() as int),
                },
            res matches Err(e) ==> e == FSError::ReadError,
    {
        let ghost s0 = self@;
        let ghost start_ops = self.ops();
        let mut cluster = first;
        let mut total_read: usize = 0;
        let cs = self.cluster_size();
        let len = buf.len();
        let ghost mut copied: Seq<u8> = Seq::empty();
        proof {
            assert(start_ops.take(start_ops.len() as int) =~= start_ops);
            assert forall|r: Seq<DiskOp>, g: Seq<u8>, x: Result<(), FSError>|
                #[trigger] chain_read(s0, cluster, len - total_read, r, g, x) implies chain_read(
                    s0,
                    first,
                    len as int,
                    added(start_ops, self.ops()) + r,
                    copied + g,
                    x,
                ) by {
                assert(added(start_ops, self.ops()) + r =~= r);
                assert(copied + g =~= g);
            }
            assert(buf@ =~= copied + old(buf)@.skip(0));
        }
        while cluster < 0x0FFF_FFF8 && total_read < len
            invariant
                start_ops == old(self).ops(),
                self@ == old(self)@,
                s0 == old(self)@,
                geometry_supported(self@),
                cs == cluster_bytes(self@),
                len == buf@.len(),
                buf@.len() == old(buf)@.len(),
                total_read <= len,
                copied.len() == total_read,
                buf@ == copied + old(buf)@.skip(total_read as int),
                extends(start_ops, self.ops()),
                extends(old(self).ops(), self.ops()),
                forall|r: Seq<DiskOp>, g: Seq<u8>, x: Result<(), FSError>|
                    #[trigger] chain_read(s0, cluster, len - total_read, r, g, x) ==> chain_read(
                        s0,
                        first,
                        len as int,
                        added(start_ops, self.ops()) + r,
                        copied + g,
                        x,
                    ),
            ensures
                cluster >= 0x0FFF_FFF8 || total_read >= len || cluster < 2,
            decreases len - total_read,
        {
            if cluster < 2 {
                break;
            }
            assert(cs >= 32) by (nonlinear_arith)
                requires
                    cs == self@.bytes_per_sector * self@.sectors_per_cluster,
                    self@.bytes_per_sector >= 32,
                    self@.sectors_per_cluster >= 1,
            ;
            let ghost iter_ops = self.ops();
            let ghost old_cluster = cluster;
            let ghost want = len - total_read;
            let mut cluster_buf = zeros(cs);
            let ghost zero_buf = cluster_buf@;
            let rd = self.read_cluster(cluster, &mut cluster_buf);
            let ghost rrun = added(iter_ops, self.ops());
            let ghost m = rrun.len() as int;
            proof {
                assert(self.ops().take(start_ops.len() as int) =~= start_ops);
                assert(added(start_ops, self.ops()) =~= added(start_ops, iter_ops) + rrun);
                assert(rrun.take(m) =~= rrun);
                assert(zero_buf =~= Seq::new(cluster_bytes(s0) as nat, |k: int| 0u8));
                lemma_extends_trans(old(self).ops(), iter_ops, self.ops());
            }
            match rd {
                Ok(()) => {},
                Err(e) => {
                    proof {
                        assert(chain_read(s0, old_cluster, want, rrun, Seq::<u8>::empty(), Err::<(), FSError>(FSError::ReadError)));
                        assert(added(start_ops, iter_ops) + rrun =~= added(start_ops, self.ops()));
                        assert(copied + Seq::<u8>::empty() =~= copied);
                        assert(chain_read(s0, first, len as int, added(start_ops, self.ops()), copied, Err::<(), FSError>(FSError::ReadError)));
                    }
                    return Err(e);
                },
            }
            let to_copy = if len - total_read < cs {
                len - total_read
            } else {
                cs
            };
            let ghost before_copy = buf@;
            let mut k: usize = 0;
            while k < to_copy
                invariant
                    total_read + to_copy <= len,
                    to_copy <= cluster_buf@.len(),
                    len == buf@.len(),
                    k <= to_copy,
                    forall|i: int| 0 <= i < len && !(total_read <= i < total_read + k) ==> #[trigger] buf@[i] == before_copy[i],
                    forall|i: int| total_read <= i < total_read + k ==> #[trigger] buf@[i] == cluster_buf@[i - total_read],
                decreases to_copy - k,
            {
                buf[total_read + k] = cluster_buf[k];
                k = k + 1;
            }
            let ghost piece = cluster_buf@.take(to_copy as int);
            proof {
                assert(buf@ =~= (copied + piece) + old(buf)@.skip(total_read + to_copy));
            }
            let ghost old_copied = copied;
            proof {
                copied = copied + piece;
            }
            total_read = total_read + to_copy;
            let ghost before_link = self.ops();
            let nc = self.next_cluster(cluster);
            let ghost op = self.ops().last();
            proof {
                assert(self.ops().take(start_ops.len() as int) =~= start_ops);
                assert(added(start_ops, self.ops()) =~= added(start_ops, iter_ops) + rrun.push(op));
                assert(self.ops().take(before_link.len() as int) =~= before_link);
                lemma_extends_trans(old(self).ops(), before_link, self.ops());
            }
            match nc {
                Ok(c) => {
                    proof {
                        assert forall|r: Seq<DiskOp>, g: Seq<u8>, x: Result<(), FSError>|
                            #[trigger] chain_read(s0, c, len - total_read, r, g, x) implies chain_read(
                                s0,
                                first,
                                len as int,
                                added(start_ops, self.ops()) + r,
                                copied + g,
                                x,
                            ) by {
                            let full = rrun.push(op) + r;
                            let gg = piece + g;
                            assert(full.take(m) =~= rrun);
                            assert(full[m] == op);
                            assert(full.skip(m + 1) =~= r);
                            assert(gg.take(to_copy as int) =~= piece);
                            assert(gg.skip(to_copy as int) =~= g);
                            assert(chain_read(s0, old_cluster, want, full, gg, x));
                            assert(added(start_ops, iter_ops) + full =~= added(start_ops, self.ops()) + r);
                            assert(old_copied + gg =~= copied + g);
                        }
                    }
                    cluster = c;
                },
                Err(e) => {
                    proof {
                        let full = rrun.push(op);
                        assert(full.take(m) =~= rrun);
                        assert(full[m] == op);
                        assert(piece.take(to_copy as int) =~= piece);
                        assert(chain_read(s0, old_cluster, want, full, piece, Err::<(), FSError>(FSError::ReadError)));
                        assert(added(start_ops, iter_ops) + full =~= added(start_ops, self.ops()));
                        assert(chain_read(s0, first, len as int, added(start_ops, self.ops()), old_copied + piece, Err::<(), FSError>(FSError::ReadError)));
                    }
                    return Err(e);
                },
            }
        }
        proof {
            let e = Seq::<DiskOp>::empty();
            let g = Seq::<u8>::empty();
            assert(chain_read(s0, cluster, len - total_read, e, g, Ok::<(), FSError>(())));
            assert(added(start_ops, self.ops()) + e =~= added(start_ops, self.ops()));
            assert(copied + g =~= copied);
        }
        Ok(total_read)
    }

    /// Creates the file at `path` holding `buf` (see `write_file_outcome`):
    /// its records go into the first cluster of the parent directory,
    /// `ceil(len / cluster size)` clusters are allocated and the data is
    /// written over them. The short record carries attribute 0x20, first
    /// cluster 0 and the length as its size.
    #[verifier::spinoff_prover]
    pub fn write_file(&mut self, path: &str, buf: &[u8]) -> (res: Result<(), FSError>)
        requires
            old(self)@.mounted ==> geometry_supported(old(self)@) && cluster_bytes(old(self)@)
                <= 8192,
            buf@.len() + 8192 <= usize::MAX,
        ensures
            final(self)@ == old(self)@,
            extends(old(self).ops(), final(self).ops()),
            write_file_outcome(
                old(self)@,
                path_components(path@),
                buf@,
                added(old(self).ops(), final(self).ops()),
                res,
            ),
            res == Err::<(), FSError>(FSError::NotMounted) <==> !old(self)@.mounted,
            res == Err::<(), FSError>(FSError::BadPath) <==> old(self)@.mounted && path_components(
                path@,
            ).len() == 0,
            res matches Err(e) ==> e == FSError::NotMounted || e == FSError::BadPath || e
                == FSError::NotADirectory || e == FSError::ReadError || e == FSError::WriteError
                || e == FSError::BadFS,
            res == Err::<(), FSError>(FSError::WriteError) ==> write_refused(
                added(old(self).ops(), final(self).ops()),
            ) || no_writes(added(old(self).ops(), final(self).ops())),
    {
        let ghost s0 = self@;
        let ghost start = self.ops();
        proof {
            assert(start.take(start.len() as int) =~= start);
            assert(added(start, start) =~= Seq::<DiskOp>::empty());
        }
        if !self.mounted {
            return Err(FSError::NotMounted);
        }
        let parts = split_path(path);
        let ghost comps = path_components(path@);
        assert(parts@.len() == comps.len());
        if parts.len() == 0 {
            return Err(FSError::BadPath);
        }
        let walked = self.walk_dirs(&parts, FSError::NotADirectory);
        let ghost ops_a = self.ops();
        let ghost a = ops_a.len() - start.len();
        proof {
            assert(str_views(parts@) == comps);
            assert(ops_a.take(ops_a.len() as int) =~= ops_a);
            lemma_added_split(start, ops_a, ops_a);
        }
        let dir_cluster = match walked {
            Ok(c) => c,
            Err(e) => {
                proof {
                    let all = added(start, self.ops());
                    assert(all.take(a) =~= all);
                    assert(dir_walk(s0, comps.drop_last(), s0.root_cluster, all.take(a), FSError::NotADirectory, walked));
                }
                return Err(e);
            },
        };
        let filename = parts[parts.len() - 1];
        assert(filename@ == comps.last()) by {
            assert(str_views(parts@)[parts@.len() - 1] == filename@);
        }
        let res = self.create_file_in(dir_cluster, filename, buf);
        proof {
            lemma_extends_trans(start, ops_a, self.ops());
            lemma_added_split(start, ops_a, self.ops());
            lemma_added_concat(start, ops_a, self.ops());
            lemma_join_writes(added(start, ops_a), added(ops_a, self.ops()));
            let all = added(start, self.ops());
            assert(dir_walk(s0, comps.drop_last(), s0.root_cluster, all.take(a), FSError::NotADirectory, walked));
            assert(file_creation(s0, dir_cluster, comps.last(), buf@, all.skip(a), res));
        }
        res
    }

    /// Creates the file `name` holding `buf` in the directory whose first
    /// cluster is `dir_cluster` (see `file_creation`).
    #[verifier::spinoff_prover]
    fn create_file_in(&mut self, dir_cluster: u32, filename: &str, buf: &[u8]) -> (res: Result<(), FSError>)
        requires
            geometry_supported(old(self)@),
            cluster_bytes(old(self)@) <= 8192,
            buf@.len() + 8192 <= usize::MAX,
        ensures
            final(self)@ == old(self)@,
            extends(old(self).ops(), final(self).ops()),
            file_creation(old(self)@, dir_cluster, filename@, buf@, added(old(self).ops(), final(self).ops()), res),
            res matches Err(e) ==> e == FSError::ReadError || e == FSError::WriteError || e == FSError::BadFS,
            res == Err::<(), FSError>(FSError::WriteError) ==> write_refused(
                added(old(self).ops(), final(self).ops()),
            ) || no_writes(added(old(self).ops(), final(self).ops())),
    {
        let ghost s0 = self@;
        let ghost ops_a = self.ops();
        proof {
            assert(ops_a.take(ops_a.len() as int) =~= ops_a);
            assert(added(ops_a, ops_a) =~= Seq::<DiskOp>::empty());
        }
        let short_name = generate_8_3(filename);
        let len = buf.len();
        let records = build_dir_records(filename, &short_name, 0x20, 0, len as u32);
        let ghost recs = entry_records(filename@, 0x20, 0, buf@.len() as u32);
        assert(records@ == recs);
        let cs = self.cluster_size();
        if dir_cluster < 2 {
            proof {
                assert(added(ops_a, self.ops()) =~= Seq::<DiskOp>::empty());
            }
            return Err(FSError::BadFS);
        }
        let mut dir_buf = zeros(cs);
        let ghost zero_buf = dir_buf@;
        let rd = self.read_cluster(dir_cluster, &mut dir_buf);
        let ghost ops_b = self.ops();
        let ghost b = ops_b.len() - ops_a.len();
        let ghost img = dir_buf@;
        proof {
            assert(zero_buf =~= Seq::new(cluster_bytes(s0) as nat, |k: int| 0u8));
            lemma_read_run_no_writes(
                added(ops_a, ops_b),
                cluster_lba(s0, dir_cluster),
                s0.sectors_per_cluster as int,
                s0.bytes_per_sector as int,
                Seq::empty(),
            );
            assert(added(ops_a, ops_a) + added(ops_a, ops_b) =~= added(ops_a, ops_b));
        }
        match rd {
            Ok(()) => {},
            Err(e) => {
                proof {
                    let rest = added(ops_a, self.ops());
                    assert(rest.take(b) =~= rest);
                    assert(file_creation(s0, dir_cluster, filename@, buf@, rest, Err::<(), FSError>(FSError::ReadError)));
                }
                return Err(e);
            },
        }
        let free = find_free_run(dir_buf.as_slice(), records.len() / 32);
        proof {
            let rest = added(ops_a, self.ops());
            assert(rest.take(b) =~= rest);
            if free is None {
                assert(file_creation(s0, dir_cluster, filename@, buf@, rest, Err::<(), FSError>(FSError::WriteError)));
            }
        }
        match free {
            None => Err(FSError::WriteError),
            Some(i) => {
                assert(cs >= 32) by (nonlinear_arith)
                    requires
                        cs == self@.bytes_per_sector * self@.sectors_per_cluster,
                        self@.bytes_per_sector >= 32,
                        self@.sectors_per_cluster >= 1,
                ;
                let cluster_count = (len + cs - 1) / cs;
                assert(cluster_count == clusters_for(s0, buf@.len() as int));
                let alloc = self.allocate_clusters(cluster_count);
                let ghost ops_c = self.ops();
                let ghost c = ops_c.len() - ops_a.len();
                proof {
                    lemma_extends_trans(ops_a, ops_b, ops_c);
                    lemma_extends_trans(ops_a, ops_b, ops_c);
                    lemma_added_concat(ops_a, ops_b, ops_c);
                    lemma_join_writes(added(ops_a, ops_b), added(ops_b, ops_c));
                }
                let start_cluster = match alloc {
                    Ok(c) => c,
                    Err(e) => {
                        proof {
                                                        lemma_added_split(ops_a, ops_b, ops_c);
                            let rest = added(ops_a, self.ops());
                            assert(rest.take(b) == added(ops_a, ops_b));
                            assert(rest.subrange(b, c) =~= rest.skip(b));
                            assert(rest.skip(b) == added(ops_b, ops_c));
                            assert(allocation(s0, clusters_for(s0, buf@.len() as int), rest.subrange(b, c), alloc));
                                    assert(file_creation(s0, dir_cluster, filename@, buf@, rest, Err::<(), FSError>(e)));
                        }
                        return Err(e);
                    },
                };
                proof {
                    lemma_run_fits(dir_buf@, (records@.len() / 32) as int);
                    assert(records@.len() % 32 == 0);
                }
                place_records(&mut dir_buf, i, records.as_slice());
                let wr = self.write_cluster(dir_cluster, dir_buf.as_slice());
                let ghost ops_d = self.ops();
                let ghost d = ops_d.len() - ops_a.len();
                proof {
                    lemma_extends_trans(ops_a, ops_c, ops_d);
                    lemma_extends_trans(ops_a, ops_c, ops_d);
                    lemma_extends_trans(ops_b, ops_c, ops_d);
                    lemma_added_concat(ops_a, ops_c, ops_d);
                    if wr is Err {
                        lemma_write_run_refused(
                            added(ops_c, ops_d),
                            cluster_lba(s0, dir_cluster),
                            s0.sectors_per_cluster as int,
                            s0.bytes_per_sector as int,
                            dir_buf@,
                        );
                        lemma_join_writes(added(ops_a, ops_c), added(ops_c, ops_d));
                    }
                }
                match wr {
                    Ok(()) => {},
                    Err(e) => {
                        proof {
                                                        lemma_added_split(ops_a, ops_b, ops_d);
                            lemma_added_between(ops_a, ops_b, ops_c, ops_d);
                            lemma_added_split(ops_a, ops_c, ops_d);
                            let rest = added(ops_a, self.ops());
                            assert(rest.subrange(c, d) =~= rest.skip(c));
                            assert(rest.skip(c) == added(ops_c, ops_d));
                            assert(allocation(s0, clusters_for(s0, buf@.len() as int), rest.subrange(b, c), alloc));
                            assert(cluster_written(s0, dir_cluster, rest.subrange(c, d), placed(img, i as int, recs), wr));
                                    assert(file_creation(s0, dir_cluster, filename@, buf@, rest, Err::<(), FSError>(e)));
                        }
                        return Err(e);
                    },
                }
                let res = self.write_file_data(start_cluster, buf);
                proof {
                    lemma_extends_trans(ops_a, ops_d, self.ops());
                    lemma_extends_trans(ops_a, ops_d, self.ops());
                    lemma_extends_trans(ops_b, ops_d, self.ops());
                    lemma_extends_trans(ops_c, ops_d, self.ops());
                    lemma_added_concat(ops_a, ops_d, self.ops());
                    if res == Err::<(), FSError>(FSError::WriteError) {
                        lemma_chain_write_refused(s0, buf@, 0, start_cluster, added(ops_d, self.ops()), res);
                        lemma_join_writes(added(ops_a, ops_d), added(ops_d, self.ops()));
                    }
                                        lemma_added_split(ops_a, ops_b, self.ops());
                    lemma_added_between(ops_a, ops_b, ops_c, self.ops());
                    lemma_added_between(ops_a, ops_c, ops_d, self.ops());
                    lemma_added_split(ops_a, ops_d, self.ops());
                    let rest = added(ops_a, self.ops());
                    assert(allocation(s0, clusters_for(s0, buf@.len() as int), rest.subrange(b, c), alloc));
                    assert(cluster_written(s0, dir_cluster, rest.subrange(c, d), placed(img, i as int, recs), wr));
                    assert(chain_write(s0, buf@, 0, start_cluster, rest.skip(d), res));
                    assert(file_creation(s0, dir_cluster, filename@, buf@, rest, res));
                }
                res
            },
        }
    }

    /// Creates the directory at `path` (see `create_dir_outcome`): one
    /// cluster is allocated, given its `.` and `..` records, and recorded in
    /// the parent directory.
    pub fn create_dir(&mut self, path: &str) -> (res: Result<(), FSError>)
        requires
            old(self)@.mounted ==> geometry_supported(old(self)@) && cluster_bytes(old(self)@)
                <= 512,
        ensures
            final(self)@ == old(self)@,
            extends(old(self).ops(), final(self).ops()),
            create_dir_outcome(old(self)@, path_components(path@), added(old(self).ops(), final(self).ops()), res),
            res == Err::<(), FSError>(FSError::NotMounted) <==> !old(self)@.mounted,
            old(self)@.mounted && path_components(path@).len() == 0 ==> res == Err::<
                (),
                FSError,
            >(FSError::BadFS),
            res matches Err(e) ==> e == FSError::NotMounted || e == FSError::ReadError || e
                == FSError::WriteError || e == FSError::BadFS,
    {
        let ghost s0 = self@;
        let ghost start = self.ops();
        proof {
            assert(start.take(start.len() as int) =~= start);
            assert(added(start, start) =~= Seq::<DiskOp>::empty());
        }
        if !self.mounted {
            return Err(FSError::NotMounted);
        }
        let parts = split_path(path);
        let ghost comps = path_components(path@);
        assert(parts@.len() == comps.len());
        if parts.len() == 0 {
            return Err(FSError::BadFS);
        }
        let walked = self.walk_dirs(&parts, FSError::BadFS);
        let ghost ops_a = self.ops();
        let ghost a = ops_a.len() - start.len();
        proof {
            assert(str_views(parts@) == comps);
            assert(ops_a.take(ops_a.len() as int) =~= ops_a);
            lemma_added_split(start, ops_a, ops_a);
        }
        let dir_cluster = match walked {
            Ok(c) => c,
            Err(e) => {
                proof {
                    let all = added(start, self.ops());
                    assert(all.take(a) =~= all);
                    assert(dir_walk(s0, comps.drop_last(), s0.root_cluster, all.take(a), FSError::BadFS, walked));
                }
                return Err(e);
            },
        };
        let alloc = self.allocate_clusters(1);
        let ghost ops_b = self.ops();
        let ghost c = ops_b.len() - start.len();
        proof {
            lemma_extends_trans(start, ops_a, ops_b);
            assert(ops_b.take(ops_b.len() as int) =~= ops_b);
            lemma_added_split(start, ops_a, ops_b);
            lemma_added_between(start, ops_a, ops_b, ops_b);
            let all = added(start, ops_b);
            assert(dir_walk(s0, comps.drop_last(), s0.root_cluster, all.take(a), FSError::BadFS, walked));
            assert(allocation(s0, 1, all.subrange(a, c), alloc));
            assert(all.skip(c) =~= Seq::<DiskOp>::empty());
        }
        let new_cluster = match alloc {
            Ok(c) => c,
            Err(e) => {
                return Err(e);
            },
        };
        if new_cluster < 2 || dir_cluster < 2 {
            return Err(FSError::BadFS);
        }
        let init = self.init_directory_cluster(new_cluster, dir_cluster);
        let ghost ops_c = self.ops();
        let ghost d = ops_c.len() - start.len();
        proof {
            lemma_extends_trans(start, ops_b, ops_c);
            lemma_extends_trans(ops_a, ops_b, ops_c);
            assert(ops_c.take(ops_c.len() as int) =~= ops_c);
            lemma_added_split(start, ops_a, ops_c);
            lemma_added_between(start, ops_a, ops_b, ops_c);
            lemma_added_between(start, ops_b, ops_c, ops_c);
            let all = added(start, ops_c);
            assert(dir_walk(s0, comps.drop_last(), s0.root_cluster, all.take(a), FSError::BadFS, walked));
            assert(allocation(s0, 1, all.subrange(a, c), alloc));
            assert(cluster_written(s0, new_cluster, all.subrange(c, d), directory_image(new_cluster, dir_cluster), init));
        }
        match init {
            Ok(()) => {},
            Err(e) => {
                proof {
                    assert(added(start, self.ops()).skip(d) =~= Seq::<DiskOp>::empty());
                }
                return Err(e);
            },
        }
        let last = parts[parts.len() - 1];
        assert(last@ == comps.last()) by {
            assert(str_views(parts@)[parts@.len() - 1] == last@);
        }
        let res = self.insert_dir_entry(dir_cluster, last, new_cluster, true);
        proof {
            lemma_extends_trans(start, ops_c, self.ops());
            lemma_extends_trans(ops_a, ops_c, self.ops());
            lemma_extends_trans(ops_b, ops_c, self.ops());
            lemma_added_split(start, ops_a, self.ops());
            lemma_added_between(start, ops_a, ops_b, self.ops());
            lemma_added_between(start, ops_b, ops_c, self.ops());
            let all = added(start, self.ops());
            assert(dir_walk(s0, comps.drop_last(), s0.root_cluster, all.take(a), FSError::BadFS, walked));
            assert(allocation(s0, 1, all.subrange(a, c), alloc));
            assert(cluster_written(s0, new_cluster, all.subrange(c, d), directory_image(new_cluster, dir_cluster), init));
            assert(all.skip(d) == added(ops_c, self.ops()));
            assert(dir_insert(s0, dir_cluster, entry_records(comps.last(), 0x10, new_cluster, 0), all.skip(d), res));
        }
        res
    }
}

} // verus!
