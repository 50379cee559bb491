//! A memory-backed block device with a byte cursor (read, write, seek), and
//! the first steps of mounting an ext2 filesystem on it.
use crate::bytes::{read_le16, read_le32};
use crate::disks::zeros;
use vstd::prelude::*;

verus! {

/// Why a device operation failed.
#[derive(Debug, Clone, Copy)]
pub enum IoError {
    NotFound(&'static str),
}

/// Where a seek is measured from.
#[derive(Debug, Clone, Copy, PartialEq, Eq, Structural)]
pub enum SeekFrom {
    Start(u64),
    End(i64),
    Current(i64),
}

#[derive(Debug)]
pub struct BlockDev {
    data: Vec<u8>,
    pos: usize,
}

/// The device's bytes and cursor.
pub struct BlockDevView {
    pub data: Seq<u8>,
    pub pos: int,
}

impl View for BlockDev {
    type V = BlockDevView;

    closed spec fn view(&self) -> BlockDevView {
        BlockDevView { data: self.data@, pos: self.pos as int }
    }
}

pub open spec fn min(a: int, b: int) -> int {
    if a < b {
        a
    } else {
        b
    }
}

/// The bytes a read into a buffer of `n` bytes copies out.
pub open spec fn read_bytes(v: BlockDevView, n: int) -> Seq<u8> {
    v.data.subrange(v.pos, v.pos + min(n, v.data.len() - v.pos))
}

/// The device after writing `buf` at its cursor.
pub open spec fn after_write(v: BlockDevView, buf: Seq<u8>) -> BlockDevView {
    let n = min(buf.len() as int, v.data.len() - v.pos);
    BlockDevView {
        data: v.data.subrange(0, v.pos) + buf.subrange(0, n) + v.data.subrange(v.pos + n, v.data.len() as int),
        pos: v.pos + n,
    }
}

/// Law: writing a buffer at a position and reading back from that position
/// into a buffer of the same size gives the part of the buffer that fit.
pub proof fn lemma_write_then_read(v: BlockDevView, buf: Seq<u8>)
    requires
        0 <= v.pos <= v.data.len(),
    ensures
        ({
            let w = after_write(v, buf);
            read_bytes(BlockDevView { pos: v.pos, ..w }, buf.len() as int) == buf.take(min(
                buf.len() as int,
                v.data.len() - v.pos,
            ))
        }),
{
    let n = min(buf.len() as int, v.data.len() - v.pos);
    let w = after_write(v, buf);
    assert(w.data.len() == v.data.len());
    assert(read_bytes(BlockDevView { pos: v.pos, ..w }, buf.len() as int) =~= buf.take(n));
}

impl BlockDev {
    /// A device of `size` zero bytes, cursor at the start.
    pub fn new(size: usize) -> (res: BlockDev)
        ensures
            res@.data == Seq::new(size as nat, |k: int| 0u8),
            res@.pos == 0,
    {
        BlockDev { data: zeros(size), pos: 0 }
    }

    /// A device holding `data`, cursor at the start.
    pub fn from_data(data: Vec<u8>) -> (res: Self)
        ensures
            res@.data == data@,
            res@.pos == 0,
    {
        Self { data, pos: 0 }
    }

    /// Copies bytes from the cursor into `buf`, as many as both have, and
    /// moves the cursor past them.
    pub fn read(&mut self, buf: &mut [u8]) -> (res: Result<usize, IoError>)
        requires
            old(self)@.pos <= old(self)@.data.len(),
        ensures
            ({
                let d = old(self)@.data;
                let p = old(self)@.pos;
                let n = min(old(buf)@.len() as int, d.len() - p);
                &&& res == Ok::<usize, IoError>(n as usize)
                &&& final(buf)@ == read_bytes(old(self)@, old(buf)@.len() as int) + old(buf)@.subrange(n, old(buf)@.len() as int)
                &&& final(self)@.data == d
                &&& final(self)@.pos == p + n
            }),
    {
        let available = self.data.len() - self.pos;
        let len = if buf.len() < available {
            buf.len()
        } else {
            available
        };
        if len == 0 {
            assert(buf@ =~= old(self)@.data.subrange(self.pos as int, self.pos as int) + old(buf)@.subrange(0, old(buf)@.len() as int));
            return Ok(0);
        }
        let dlen = self.data.len();
        let mut k: usize = 0;
        while k < len
            invariant
                dlen == self.data@.len(),
                len <= buf@.len(),
                self.pos + len <= self.data@.len(),
                self@ == old(self)@,
                buf@.len() == old(buf)@.len(),
                k <= len,
                forall|j: int| 0 <= j < k ==> buf@[j] == self.data@[self.pos + j],
                forall|j: int| k <= j < buf@.len() ==> buf@[j] == old(buf)@[j],
            decreases len - k,
        {
            buf[k] = self.data[self.pos + k];
            k = k + 1;
        }
        assert(buf@ =~= old(self)@.data.subrange(self.pos as int, self.pos + len) + old(buf)@.subrange(len as int, old(buf)@.len() as int));
        self.pos = self.pos + len;
        Ok(len)
    }

    /// Copies bytes from `buf` over the device from the cursor on, as many
    /// as fit, and moves the cursor past them.
    pub fn write(&mut self, buf: &[u8]) -> (res: Result<usize, IoError>)
        requires
            old(self)@.pos <= old(self)@.data.len(),
        ensures
            ({
                let d = old(self)@.data;
                let p = old(self)@.pos;
                let n = min(buf@.len() as int, d.len() - p);
                &&& res == Ok::<usize, IoError>(n as usize)
                &&& final(self)@ == after_write(old(self)@, buf@)
            }),
    {
        let available = self.data.len() - self.pos;
        let len = if buf.len() < available {
            buf.len()
        } else {
            available
        };
        if len == 0 {
            assert(self.data@ =~= old(self)@.data.subrange(0, self.pos as int) + buf@.subrange(0, 0) + old(self)@.data.subrange(self.pos as int, old(self)@.data.len() as int));
            return Ok(0);
        }
        let pos = self.pos;
        let dlen = self.data.len();
        let mut k: usize = 0;
        while k < len
            invariant
                dlen == self.data@.len(),
                len <= buf@.len(),
                pos + len <= self.data@.len(),
                pos == old(self)@.pos,
                self.pos == pos,
                self.data@.len() == old(self)@.data.len(),
                k <= len,
                forall|j: int| 0 <= j < self.data@.len() ==> self.data@[j] == (if pos <= j < pos + k {
                    buf@[j - pos]
                } else {
                    old(self)@.data[j]
                }),
            decreases len - k,
        {
            self.data.set(pos + k, buf[k]);
            k = k + 1;
        }
        assert(self.data@ =~= old(self)@.data.subrange(0, pos as int) + buf@.subrange(0, len as int) + old(self)@.data.subrange(pos + len, old(self)@.data.len() as int));
        self.pos = pos + len;
        Ok(len)
    }

    pub fn flush(&mut self) -> (res: Result<(), IoError>)
        ensures
            res is Ok,
            final(self)@ == old(self)@,
    {
        Ok(())
    }

    /// Moves the cursor. From the start it may not pass the end; from the
    /// end it may not go before the start (but may go past the end); from
    /// the cursor it must stay within the device. A refused seek leaves the
    /// cursor where it was.
    pub fn seek(&mut self, pos: SeekFrom) -> (res: Result<u64, IoError>)
        requires
            usize::BITS == 64,
            old(self)@.data.len() <= isize::MAX,
            pos is Current ==> old(self)@.pos <= isize::MAX,
            pos matches SeekFrom::End(o) ==> isize::MIN <= old(self)@.data.len() + o <= isize::MAX,
            pos matches SeekFrom::Current(o) ==> isize::MIN <= old(self)@.pos + o <= isize::MAX,
        ensures
            final(self)@.data == old(self)@.data,
            ({
                let len = old(self)@.data.len() as int;
                let target: int = match pos {
                    SeekFrom::Start(o) => o as int,
                    SeekFrom::End(o) => len + o,
                    SeekFrom::Current(o) => old(self)@.pos + o,
                };
                let ok = match pos {
                    SeekFrom::Start(o) => o <= len,
                    SeekFrom::End(o) => target >= 0,
                    SeekFrom::Current(o) => 0 <= target <= len,
                };
                &&& ok ==> res == Ok::<u64, IoError>(target as u64) && final(self)@.pos == target
                &&& !ok ==> final(self)@.pos == old(self)@.pos && res == Err::<u64, IoError>(
                    match pos {
                        SeekFrom::Start(_) => IoError::NotFound("Cannot seek beyond end of file"),
                        SeekFrom::End(_) => IoError::NotFound("Cannot seek before start of file"),
                        SeekFrom::Current(_) => IoError::NotFound("Cannot seek beyond file bounds"),
                    },
                )
            }),
    {
        let len = self.data.len();
        self.pos = match pos {
            SeekFrom::Start(offset) => {
                if offset > len as u64 {
                    return Err(IoError::NotFound("Cannot seek beyond end of file"));
                }
                offset as usize
            },
            SeekFrom::End(offset) => {
                let end_pos = len as isize + offset as isize;
                if end_pos < 0 {
                    return Err(IoError::NotFound("Cannot seek before start of file"));
                }
                end_pos as usize
            },
            SeekFrom::Current(offset) => {
                let current_pos = self.pos as isize + offset as isize;
                if current_pos < 0 || current_pos > len as isize {
                    return Err(IoError::NotFound("Cannot seek beyond file bounds"));
                }
                current_pos as usize
            },
        };
        Ok(self.pos as u64)
    }
}

/// The block size an ext2 superblock states: 1024 shifted left by byte 24.
pub open spec fn ext2_block_size(sb: Seq<u8>) -> usize {
    (1024usize << (sb[24] as usize)) as usize
}

/// Whether the superblock (at byte 1024) carries the ext2 magic 0xEF53 at
/// its byte 56.
pub open spec fn ext2_magic_ok(data: Seq<u8>) -> bool {
    data[1080int] + 256 * data[1081int] == 0xEF53
}

/// The inode-table offset a superblock states: its 32-bit field at 40
/// times the block size.
pub open spec fn ext2_inode_offset(data: Seq<u8>) -> int {
    let sb = data.subrange(1024, 2048);
    (sb[40] + 256 * sb[41] + 65536 * sb[42] + 16777216 * sb[43]) * ext2_block_size(sb)
}

/// Mounts an ext2 filesystem: reads the superblock at byte 1024, checks its
/// magic, then reads one block of the inode table. A device without the
/// magic reports `Not an ext2 filesystem`.
pub fn mount_ext2(mut dev: BlockDev) -> (res: Result<(), IoError>)
    requires
        usize::BITS == 64,
        dev@.data.len() <= isize::MAX,
        dev@.data.len() >= 2048,
        ext2_magic_ok(dev@.data) ==> {
            let sb = dev@.data.subrange(1024, 2048);
            &&& sb[24] < 64
            &&& ext2_inode_offset(dev@.data) <= usize::MAX
            &&& ext2_inode_offset(dev@.data) + ext2_block_size(sb) <= dev@.data.len()
        },
    ensures
        res is Ok <==> ext2_magic_ok(dev@.data),
        res is Err ==> res == Err::<(), IoError>(IoError::NotFound("Not an ext2 filesystem")),
{
    let ghost data = dev@.data;
    let mut superblock = [0u8; 1024];
    let _ = dev.seek(SeekFrom::Start(1024));
    let _ = dev.read(&mut superblock);
    assert(superblock@ =~= data.subrange(1024, 2048));
    let magic = read_le16(&superblock, 56);
    if magic != 0xef53 {
        return Err(IoError::NotFound("Not an ext2 filesystem"));
    }
    let block_size: usize = 1024usize << (superblock[24] as usize);
    let field = read_le32(&superblock, 40);
    let inode_table_offset = field as usize * block_size;
    let _ = dev.seek(SeekFrom::Start(inode_table_offset as u64));
    let mut inodes = zeros(block_size);
    let _ = dev.read(inodes.as_mut_slice());
    Ok(())
}

} // verus!
