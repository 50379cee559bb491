//! Read-only access to a USTAR archive held in memory.
use crate::text::{bytes_eq, str_from_utf8};
use vstd::prelude::*;
use vstd::utf8::{decode_utf8, valid_utf8};

verus! {

const BLOCK_SIZE: usize = 512;

const USTAR_SIGNATURE_OFFSET: usize = 257;

const FILE_SIZE_OFFSET: usize = 0x7c;

const FILE_SIZE_LENGTH: usize = 11;

const HEADER_SIZE: usize = 512;

const NAME_FIELD_LENGTH: usize = 100;

/// A file found in the archive: its name, its bytes and its recorded size.
pub struct USTarFile {
    filename: &'static str,
    data: &'static [u8],
    size: usize,
}

impl USTarFile {
    pub closed spec fn name_view(&self) -> Seq<char> {
        self.filename@
    }

    pub closed spec fn data_view(&self) -> Seq<u8> {
        self.data@
    }

    pub closed spec fn size_view(&self) -> usize {
        self.size
    }

    pub fn new(filename: &'static str, data: &'static [u8], size: usize) -> (res: Self)
        ensures
            res.name_view() == filename@,
            res.data_view() == data@,
            res.size_view() == size,
    {
        Self { filename, data, size }
    }

    /// The `bytes` bytes that start at `offset`.
    pub fn read(&self, offset: usize, bytes: usize) -> (res: &'static [u8])
        requires
            offset + bytes <= self.data_view().len(),
        ensures
            res@ == self.data_view().subrange(offset as int, offset + bytes),
    {
        let len = self.data.len();
        &self.data[offset..offset + bytes]
    }

    /// The bytes from `offset` up to, but not including, the last byte of the
    /// recorded size.
    pub fn read_to_end(&self, offset: usize) -> (res: &'static [u8])
        requires
            1 <= self.size_view(),
            offset <= self.size_view() - 1 <= self.data_view().len(),
        ensures
            res@ == self.data_view().subrange(offset as int, self.size_view() - 1),
    {
        &self.data[offset..self.get_size() - 1]
    }

    pub fn read_all(&self) -> (res: &'static [u8])
        ensures
            res@ == self.data_view(),
    {
        self.data
    }

    pub fn get_size(&self) -> (res: usize)
        ensures
            res == self.size_view(),
    {
        self.size
    }

    pub fn get_name(&self) -> (res: &'static str)
        ensures
            res@ == self.name_view(),
    {
        self.filename
    }
}

/// `is_ascii_digit`: the bytes `0` to `9` (so `8` and `9` are accepted too).
pub open spec fn is_digit(b: u8) -> bool {
    48 <= b <= 57
}

/// Index of the first non-digit at or after `i`, or the length.
pub open spec fn digits_end(s: Seq<u8>, i: int) -> int
    decreases s.len() - i,
{
    if i < 0 || i >= s.len() || !is_digit(s[i]) {
        if i < 0 { 0 } else { i }
    } else {
        digits_end(s, i + 1)
    }
}

/// Value of the first `k` bytes read as base-8 digits.
pub open spec fn octal_value(s: Seq<u8>, k: int) -> int
    decreases k,
{
    if k <= 0 {
        0
    } else {
        octal_value(s, k - 1) * 8 + (s[k - 1] - 48)
    }
}

/// What `oct2bin` reads from `s`: its leading digits as a base-8 number.
pub open spec fn octal_number(s: Seq<u8>) -> int {
    octal_value(s, digits_end(s, 0))
}

pub open spec fn pow8(k: nat) -> int
    decreases k,
{
    if k == 0 {
        1
    } else {
        8 * pow8((k - 1) as nat)
    }
}

proof fn lemma_digits_end_bounds(s: Seq<u8>, i: int)
    requires
        0 <= i <= s.len(),
    ensures
        i <= digits_end(s, i) <= s.len(),
        forall|j: int| i <= j < digits_end(s, i) ==> is_digit(#[trigger] s[j]),
        digits_end(s, i) < s.len() ==> !is_digit(s[digits_end(s, i)]),
    decreases s.len() - i,
{
    if i < s.len() && is_digit(s[i]) {
        lemma_digits_end_bounds(s, i + 1);
    }
}

proof fn lemma_octal_monotone(s: Seq<u8>, i: int, j: int)
    requires
        0 <= i <= j <= s.len(),
        forall|k: int| 0 <= k < j ==> is_digit(#[trigger] s[k]),
    ensures
        0 <= octal_value(s, i) <= octal_value(s, j),
    decreases j - i,
{
    if i < j {
        lemma_octal_monotone(s, i, j - 1);
        assert(is_digit(s[j - 1]));
    } else {
        lemma_octal_nonneg(s, i);
    }
}

proof fn lemma_octal_nonneg(s: Seq<u8>, k: int)
    requires
        0 <= k <= s.len(),
        forall|j: int| 0 <= j < k ==> is_digit(#[trigger] s[j]),
    ensures
        0 <= octal_value(s, k),
    decreases k,
{
    if k > 0 {
        lemma_octal_nonneg(s, k - 1);
        assert(is_digit(s[k - 1]));
    }
}

proof fn lemma_octal_bound(s: Seq<u8>, k: nat)
    requires
        k <= s.len(),
        forall|j: int| 0 <= j < k ==> is_digit(#[trigger] s[j]),
    ensures
        octal_value(s, k as int) <= 10 * pow8(k) - 2,
    decreases k,
{
    if k > 0 {
        lemma_octal_bound(s, (k - 1) as nat);
        assert(is_digit(s[k - 1]));
    }
}

/// The value of an eleven-byte size field fits comfortably in a `usize`.
proof fn lemma_size_field_bound(s: Seq<u8>)
    requires
        s.len() == 11,
    ensures
        0 <= octal_number(s) <= 85899345918,
{
    lemma_digits_end_bounds(s, 0);
    let d = digits_end(s, 0);
    lemma_octal_bound(s, d as nat);
    lemma_octal_nonneg(s, d);
    lemma_pow8_monotone(d as nat, 11);
    reveal_with_fuel(pow8, 12);
    assert(pow8(11) == 8589934592);
}

proof fn lemma_pow8_monotone(a: nat, b: nat)
    requires
        a <= b,
    ensures
        0 < pow8(a) <= pow8(b),
    decreases b,
{
    if a < b {
        lemma_pow8_monotone(a, (b - 1) as nat);
    } else if a > 0 {
        lemma_pow8_monotone((a - 1) as nat, (a - 1) as nat);
    }
}

/// Reads the leading ASCII digits of `octal_bytes` as a base-8 number; the
/// first non-digit ends the number.
fn oct2bin(octal_bytes: &[u8]) -> (result: usize)
    requires
        octal_number(octal_bytes@) <= usize::MAX,
    ensures
        result == octal_number(octal_bytes@),
{
    let ghost s = octal_bytes@;
    proof {
        lemma_digits_end_bounds(s, 0);
    }
    let mut result: usize = 0;
    let mut i: usize = 0;
    while i < octal_bytes.len()
        invariant
            i <= s.len(),
            s == octal_bytes@,
            i <= digits_end(s, 0) <= s.len(),
            forall|j: int| 0 <= j < digits_end(s, 0) ==> is_digit(#[trigger] s[j]),
            digits_end(s, 0) < s.len() ==> !is_digit(s[digits_end(s, 0)]),
            octal_value(s, digits_end(s, 0)) <= usize::MAX,
            result == octal_value(s, i as int),
        ensures
            result == octal_number(s),
        decreases s.len() - i,
    {
        let byte = octal_bytes[i];
        if byte >= 48 && byte <= 57 {
            proof {
                lemma_octal_monotone(s, i + 1, digits_end(s, 0));
            }
            result = result * 8 + (byte - 48) as usize;
        } else {
            assert(i == digits_end(s, 0));
            break;
        }
        i = i + 1;
    }
    result
}

/// Whether the five bytes at offset 257 of the header at `ptr` spell `ustar`.
pub open spec fn has_signature(data: Seq<u8>, ptr: int) -> bool {
    data.subrange(ptr + 257, ptr + 262) == seq![117u8, 115u8, 116u8, 97u8, 114u8]
}

/// Length of the name in the header at `ptr`: up to its first zero byte, at
/// most 100.
pub open spec fn name_len_from(data: Seq<u8>, ptr: int, j: int) -> int
    decreases 100 - j,
{
    if j >= 100 || j < 0 {
        100
    } else if data[ptr + j] == 0 {
        j
    } else {
        name_len_from(data, ptr, j + 1)
    }
}

pub open spec fn header_name(data: Seq<u8>, ptr: int) -> Seq<u8> {
    data.subrange(ptr, ptr + name_len_from(data, ptr, 0))
}

pub open spec fn header_file_size(data: Seq<u8>, ptr: int) -> int {
    octal_number(data.subrange(ptr + 124, ptr + 135))
}

pub open spec fn blocks_needed(size: int) -> int {
    if size <= 0 {
        0
    } else {
        (size + 511) / 512
    }
}

/// Where the header that follows the entry at `ptr` would start.
pub open spec fn next_header(ptr: int, size: int) -> int {
    ptr + (blocks_needed(size) + 1) * 512
}

/// The header position of the first entry, from `ptr` on, whose name is
/// `name` and whose data lies inside the archive; `None` when the headers
/// run out, a signature is missing, or the walk would leave the archive.
pub open spec fn lookup_from(data: Seq<u8>, name: Seq<u8>, ptr: int) -> Option<int>
    decreases data.len() - ptr,
{
    if ptr < 0 || ptr + 512 > data.len() || !has_signature(data, ptr) {
        None
    } else {
        let size = header_file_size(data, ptr);
        if header_name(data, ptr) == name && ptr + 512 + size <= data.len() {
            Some(ptr)
        } else if next_header(ptr, size) > usize::MAX || next_header(ptr, size) > data.len() {
            None
        } else {
            lookup_from(data, name, next_header(ptr, size))
        }
    }
}

/// One step of the file iterator at `ptr`: the header position of the file
/// it yields (if any) and the position it moves to.
pub open spec fn iter_step(data: Seq<u8>, ptr: int) -> (Option<int>, int) {
    if ptr >= data.len() || ptr + 512 > data.len() || !has_signature(data, ptr) {
        (None, ptr)
    } else {
        let size = header_file_size(data, ptr);
        if ptr + 512 + size > data.len() {
            (None, ptr)
        } else if !valid_utf8(header_name(data, ptr)) {
            (None, data.len() as int)
        } else if next_header(ptr, size) > usize::MAX {
            (Some(ptr), data.len() as int)
        } else {
            (Some(ptr), next_header(ptr, size))
        }
    }
}

/// Entries are laid out in whole 512-byte blocks: the header after an
/// entry with `size` bytes of data starts a whole number of blocks after the
/// entry's header, past the header and all the data, with less than one
/// block of padding after the data (so a 512-byte file is followed by the
/// next header two blocks on, and an empty one by the next header one block
/// on).
pub proof fn lemma_next_header_pads_to_blocks(ptr: int, size: int)
    requires
        size >= 0,
    ensures
        (next_header(ptr, size) - ptr) % 512 == 0,
        ptr + 512 + size <= next_header(ptr, size) < ptr + 1024 + size,
{
    if size > 0 {
        let k = (size + 511) / 512;
        assert(512 * k <= size + 511 < 512 * k + 512);
        assert((next_header(ptr, size) - ptr) == (k + 1) * 512);
    }
}

/// Walking the archive steps over each entry's data to the next block
/// boundary: for a valid header at `ptr` whose size field reads `s`, and
/// any block boundary `q` counted from `ptr` with `ptr + 512 + s <= q <
/// ptr + 1024 + s` that lies inside the archive, a lookup that does not stop
/// at `ptr` (another name, or data running past the end) goes on at `q`,
/// and the file iterator yields the entry at `ptr` and moves to `q`.
pub proof fn lemma_walk_steps_over_data(data: Seq<u8>, name: Seq<u8>, ptr: int, q: int)
    requires
        0 <= ptr,
        ptr + 512 <= data.len(),
        has_signature(data, ptr),
        (q - ptr) % 512 == 0,
        ptr + 512 + header_file_size(data, ptr) <= q < ptr + 1024 + header_file_size(data, ptr),
        q <= data.len(),
        q <= usize::MAX,
    ensures
        (header_name(data, ptr) != name || ptr + 512 + header_file_size(data, ptr) > data.len())
            ==> lookup_from(data, name, ptr) == lookup_from(data, name, q),
        ptr + 512 + header_file_size(data, ptr) <= data.len() && valid_utf8(header_name(data, ptr))
            ==> iter_step(data, ptr) == (Some(ptr), q),
{
    let size = header_file_size(data, ptr);
    lemma_size_field_bound(data.subrange(ptr + 124, ptr + 135));
    lemma_next_header_pads_to_blocks(ptr, size);
    let n = next_header(ptr, size);
    assert(n == q) by {
        let a = (n - ptr) / 512;
        let b = (q - ptr) / 512;
        assert(n - ptr == 512 * a);
        assert(q - ptr == 512 * b);
    }
}

proof fn lemma_name_len_bounds(data: Seq<u8>, ptr: int, j: int)
    requires
        0 <= j <= 100,
        0 <= ptr,
        ptr + 100 <= data.len(),
    ensures
        j <= name_len_from(data, ptr, j) <= 100,
        name_len_from(data, ptr, j) < 100 ==> data[ptr + name_len_from(data, ptr, j)] == 0,
    decreases 100 - j,
{
    if j < 100 && data[ptr + j] != 0 {
        lemma_name_len_bounds(data, ptr, j + 1);
    }
}

fn has_ustar_signature(data: &[u8], ptr: usize) -> (res: bool)
    requires
        ptr + 512 <= data@.len(),
        data@.len() <= isize::MAX,
    ensures
        res == has_signature(data@, ptr as int),
{
    let signature = &data[ptr + USTAR_SIGNATURE_OFFSET..ptr + USTAR_SIGNATURE_OFFSET + 5];
    let res = signature[0] == 117 && signature[1] == 115 && signature[2] == 116 && signature[3]
        == 97 && signature[4] == 114;
    assert(res == (signature@ =~= seq![117u8, 115u8, 116u8, 97u8, 114u8]));
    res
}

/// Reads the name length and the file size of the header at `ptr`.
fn parse_header(data: &[u8], ptr: usize) -> (res: (usize, usize))
    requires
        ptr + 512 <= data@.len(),
        data@.len() <= isize::MAX,
        usize::BITS == 64,
    ensures
        res.0 <= 100,
        res.0 == name_len_from(data@, ptr as int, 0),
        res.1 == header_file_size(data@, ptr as int),
        res.1 <= 85899345918,
{
    let size_slice = &data[ptr + FILE_SIZE_OFFSET..ptr + FILE_SIZE_OFFSET + FILE_SIZE_LENGTH];
    proof {
        lemma_size_field_bound(size_slice@);
    }
    let filesize = oct2bin(size_slice);
    let ghost d = data@;
    proof {
        lemma_name_len_bounds(d, ptr as int, 0);
    }
    let mut name_len: usize = 0;
    while name_len < NAME_FIELD_LENGTH
        invariant
            ptr + 512 <= d.len(),
            d.len() <= isize::MAX,
            d == data@,
            name_len <= 100,
            name_len_from(d, ptr as int, 0) == name_len_from(d, ptr as int, name_len as int),
        ensures
            name_len == name_len_from(d, ptr as int, 0),
        decreases 100 - name_len,
    {
        if data[ptr + name_len] == 0 {
            break;
        }
        name_len = name_len + 1;
    }
    (name_len, filesize)
}

/// A walk over the files of an archive, one header after the other.
pub struct USTarFileIterator {
    data: &'static [u8],
    ptr: usize,
}

impl USTarFileIterator {
    pub closed spec fn data_view(&self) -> Seq<u8> {
        self.data@
    }

    pub closed spec fn position(&self) -> int {
        self.ptr as int
    }

    /// Yields the next file: `None` when the headers end, a signature is
    /// missing, the data would run past the archive, or the name is not
    /// UTF-8 (which also ends the walk).
    pub fn next(&mut self) -> (res: Option<USTarFile>)
        requires
            old(self).data_view().len() <= isize::MAX,
            usize::BITS == 64,
        ensures
            final(self).data_view() == old(self).data_view(),
            final(self).position() == iter_step(old(self).data_view(), old(self).position()).1,
            match iter_step(old(self).data_view(), old(self).position()).0 {
                None => res is None,
                Some(p) => res matches Some(f) && {
                    let size = header_file_size(old(self).data_view(), p);
                    &&& f.name_view() == decode_utf8(header_name(old(self).data_view(), p))
                    &&& f.data_view() == old(self).data_view().subrange(p + 512, p + 512 + size)
                    &&& f.size_view() == size
                },
            },
    {
        let data = self.data;
        let ptr = self.ptr;
        if ptr >= data.len() {
            return None;
        }
        if ptr + HEADER_SIZE > data.len() {
            return None;
        }
        if ptr + USTAR_SIGNATURE_OFFSET + 5 > data.len() {
            return None;
        }
        if !has_ustar_signature(data, ptr) {
            return None;
        }
        let (name_len, filesize) = parse_header(data, ptr);
        let name_slice = &data[ptr..ptr + name_len];
        let data_start = ptr + HEADER_SIZE;
        let data_end = data_start + filesize;
        if data_end > data.len() {
            return None;
        }
        let file_data = &data[data_start..data_end];
        let name = match str_from_utf8(name_slice) {
            Some(n) => n,
            None => {
                self.ptr = data.len();
                return None;
            },
        };
        let blocks_needed = if filesize == 0 {
            0
        } else {
            (filesize + BLOCK_SIZE - 1) / BLOCK_SIZE
        };
        let next_ptr = match ptr.checked_add((blocks_needed + 1) * BLOCK_SIZE) {
            Some(p) => p,
            None => {
                self.ptr = data.len();
                return Some(USTarFile::new(name, file_data, filesize));
            },
        };
        self.ptr = next_ptr;
        Some(USTarFile::new(name, file_data, filesize))
    }
}

/// An in-memory USTAR archive.
pub struct USTar {
    data: &'static [u8],
}

impl USTar {
    pub closed spec fn data_view(&self) -> Seq<u8> {
        self.data@
    }

    pub fn new(data: &'static [u8]) -> (res: Self)
        ensures
            res.data_view() == data@,
    {
        Self { data }
    }

    /// Finds the first file named `filename` (walking the headers from the
    /// start) whose data lies inside the archive. The name of a match must be
    /// UTF-8.
    pub fn read_file(&self, filename: &[u8]) -> (res: Option<USTarFile>)
        requires
            self.data_view().len() <= isize::MAX,
            usize::BITS == 64,
            lookup_from(self.data_view(), filename@, 0) is Some ==> valid_utf8(filename@),
        ensures
            match lookup_from(self.data_view(), filename@, 0) {
                None => res is None,
                Some(p) => res matches Some(f) && {
                    let size = header_file_size(self.data_view(), p);
                    &&& f.name_view() == decode_utf8(filename@)
                    &&& f.data_view() == self.data_view().subrange(p + 512, p + 512 + size)
                    &&& f.size_view() == size
                },
            },
    {
        let data = self.data;
        let mut ptr: usize = 0;
        while ptr + HEADER_SIZE <= data.len()
            invariant
                data@ == self.data_view(),
                data@.len() <= isize::MAX,
                usize::BITS == 64,
                ptr <= data@.len(),
                lookup_from(data@, filename@, 0) == lookup_from(data@, filename@, ptr as int),
                lookup_from(data@, filename@, 0) is Some ==> valid_utf8(filename@),
            ensures
                lookup_from(data@, filename@, 0) is None,
            decreases data@.len() - ptr,
        {
            if !has_ustar_signature(data, ptr) {
                break;
            }
            let (name_len, filesize) = parse_header(data, ptr);
            let header_name = &data[ptr..ptr + name_len];
            if bytes_eq(header_name, filename) {
                let data_start = ptr + HEADER_SIZE;
                let data_end = data_start + filesize;
                if data_end <= data.len() {
                    let file_data = &data[data_start..data_end];
                    let name = match str_from_utf8(header_name) {
                        Some(n) => n,
                        None => {
                            assert(false);
                            return None;
                        },
                    };
                    return Some(USTarFile::new(name, file_data, filesize));
                }
            }
            let blocks_needed = if filesize == 0 {
                0
            } else {
                (filesize + BLOCK_SIZE - 1) / BLOCK_SIZE
            };
            let next_ptr = match ptr.checked_add((blocks_needed + 1) * BLOCK_SIZE) {
                Some(p) => p,
                None => {
                    return None;
                },
            };
            if next_ptr > data.len() {
                break;
            }
            ptr = next_ptr;
        }
        None
    }

    pub fn files(&self) -> (res: USTarFileIterator)
        ensures
            res.data_view() == self.data_view(),
            res.position() == 0,
    {
        USTarFileIterator { data: self.data, ptr: 0 }
    }
}

} // verus!
