//! The header at the start of a kernel image that the boot stage loads: a
//! magic string, a revision number and the offset of the entry-point word.
use crate::bytes::{le16, le64, read_le16, read_le64};
use vstd::prelude::*;

verus! {

/// The packed kernel-image header (16 bytes, little-endian fields).
#[derive(Debug, Clone, Copy)]
pub struct KernelHeader {
    /// Always `kb00t!` in a valid image.
    pub magic: [u8; 6],
    /// The header revision.
    pub revision: u16,
    /// Where the entry-point address lies in the image.
    pub entry_offset: u64,
}

/// The size of the header in bytes.
pub const KERNEL_HEADER_SIZE: usize = 16;

/// The magic string `kb00t!` as bytes.
pub open spec fn kernel_magic() -> Seq<u8> {
    seq![0x6bu8, 0x62u8, 0x30u8, 0x30u8, 0x74u8, 0x21u8]
}

/// The warning given for a header whose revision is not 1.
pub open spec fn revision_warning(revision: u16) -> Seq<char> {
    if revision != 1 {
        "WARNING: Using kernel with a boot revision other than 1. Things may not work!"@
    } else {
        ""@
    }
}

/// Whether the image starts with the kernel magic.
pub fn has_kernel_magic(image: &[u8]) -> (res: bool)
    ensures
        res == (image@.len() >= 6 && image@.subrange(0, 6) == kernel_magic()),
{
    if image.len() < 6 {
        return false;
    }
    let ok = image[0] == 0x6b && image[1] == 0x62 && image[2] == 0x30 && image[3] == 0x30
        && image[4] == 0x74 && image[5] == 0x21;
    proof {
        if ok {
            assert(image@.subrange(0, 6) =~= kernel_magic());
        } else {
            assert(image@.subrange(0, 6) != kernel_magic()) by {
                if image@.subrange(0, 6) == kernel_magic() {
                    assert(image@.subrange(0, 6)[0] == image@[0]);
                    assert(image@.subrange(0, 6)[1] == image@[1]);
                    assert(image@.subrange(0, 6)[2] == image@[2]);
                    assert(image@.subrange(0, 6)[3] == image@[3]);
                    assert(image@.subrange(0, 6)[4] == image@[4]);
                    assert(image@.subrange(0, 6)[5] == image@[5]);
                }
            }
        }
    }
    ok
}

impl KernelHeader {
    /// Reads the header at the start of a kernel image, with a warning for a
    /// revision other than 1 (empty otherwise). The image must start with
    /// the magic string: a loader stops on any other image.
    pub fn from_memory(image: &[u8]) -> (res: (KernelHeader, &'static str))
        requires
            image@.len() >= KERNEL_HEADER_SIZE,
            image@.subrange(0, 6) == kernel_magic(),
        ensures
            res.0.magic@ == kernel_magic(),
            res.0.revision == le16(image@, 6),
            res.0.entry_offset == le64(image@, 8),
            res.1@ == revision_warning(res.0.revision),
    {
        let magic = [image[0], image[1], image[2], image[3], image[4], image[5]];
        let revision = read_le16(image, 6);
        let entry_offset = read_le64(image, 8);
        let header = KernelHeader { magic, revision, entry_offset };
        proof {
            assert(image@.subrange(0, 6)[0] == image@[0]);
            assert(image@.subrange(0, 6)[1] == image@[1]);
            assert(image@.subrange(0, 6)[2] == image@[2]);
            assert(image@.subrange(0, 6)[3] == image@[3]);
            assert(image@.subrange(0, 6)[4] == image@[4]);
            assert(image@.subrange(0, 6)[5] == image@[5]);
            assert(header.magic@ =~= kernel_magic());
        }
        let info = if revision != 1 {
            "WARNING: Using kernel with a boot revision other than 1. Things may not work!"
        } else {
            ""
        };
        (header, info)
    }

    /// The entry-point address stored at `entry_offset` in the image (a
    /// little-endian 64-bit word), which the loader then jumps to.
    pub fn get_entry(&self, kernel_data: &[u8]) -> (res: u64)
        requires
            self.entry_offset + 8 <= kernel_data@.len(),
        ensures
            res == le64(kernel_data@, self.entry_offset as int),
    {
        let n = kernel_data.len();
        assert(self.entry_offset < n);
        let off = self.entry_offset as usize;
        assert(off == self.entry_offset);
        read_le64(kernel_data, off)
    }
}

} // verus!
