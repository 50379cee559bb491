//! ACPI tables the kernel reads: the generic system-description header, and
//! the MCFG table, whose segment-0 entry says where the memory-mapped PCI
//! configuration space (ECAM) lies and how many buses it covers.
use crate::bytes::{le16, le32, le64, read_le16, read_le32, read_le64};
use vstd::prelude::*;

verus! {

/// The header every system description table starts with.
#[derive(Debug, Clone, Copy)]
pub struct SDTHeader {
    pub signature: [u8; 4],
    pub length: u32,
    pub revision: u8,
    pub checksum: u8,
    pub oem_id: [u8; 6],
    pub oem_table_id: [u8; 8],
    pub oem_revision: u32,
    pub creator_id: u32,
    pub creator_revision: u32,
}

/// The size of the MCFG header: the system-description header (36 bytes)
/// and 8 reserved bytes.
pub const MCFG_HEADER_SIZE: usize = 44;

/// The size of one MCFG allocation entry.
pub const MCFG_ENTRY_SIZE: usize = 16;

/// One MCFG allocation entry: the ECAM base of a PCI segment and its bus
/// range.
#[derive(Debug, Clone, Copy, PartialEq, Eq, Structural)]
pub struct McfgEntry {
    pub base_address: u64,
    pub pci_segment_group: u16,
    pub start_bus: u8,
    pub end_bus: u8,
}

/// Why the MCFG table could not be used.
#[derive(Debug, Clone, Copy, PartialEq, Eq, Structural)]
pub enum McfgError {
    /// The table is no longer than its header.
    NoEntries,
    /// The entries' bytes are not a whole number of entries.
    RaggedEntries,
    /// No entry is for segment 0.
    NoSegmentZero,
}

impl McfgError {
    /// The message the kernel reports for the error.
    pub fn message(&self) -> (res: &'static str)
        ensures
            res@ == (match *self {
                McfgError::NoEntries => "MCFG table has no entries"@,
                McfgError::RaggedEntries => "MCFG entries size not multiple of McfgEntry"@,
                McfgError::NoSegmentZero => "No MCFG entry for segment 0"@,
            }),
    {
        match self {
            McfgError::NoEntries => "MCFG table has no entries",
            McfgError::RaggedEntries => "MCFG entries size not multiple of McfgEntry",
            McfgError::NoSegmentZero => "No MCFG entry for segment 0",
        }
    }
}

/// The entry at index `i` of an MCFG table's bytes.
pub open spec fn entry_at(b: Seq<u8>, i: int) -> McfgEntry {
    let p = MCFG_HEADER_SIZE + MCFG_ENTRY_SIZE * i;
    McfgEntry {
        base_address: le64(b, p) as u64,
        pci_segment_group: le16(b, p + 8) as u16,
        start_bus: b[p + 10],
        end_bus: b[p + 11],
    }
}

/// The first index from `i` on whose entry is for segment 0, if any.
pub open spec fn first_segment_zero(b: Seq<u8>, i: int, count: int) -> Option<int>
    decreases count - i,
{
    if i >= count || i < 0 {
        None
    } else if entry_at(b, i).pci_segment_group == 0 {
        Some(i)
    } else {
        first_segment_zero(b, i + 1, count)
    }
}

/// What the MCFG table says: the segment-0 entry, or why there is none. The
/// entry count comes from the length the header declares.
pub open spec fn mcfg_spec(b: Seq<u8>) -> Result<McfgEntry, McfgError> {
    let total = le32(b, 4);
    if total <= MCFG_HEADER_SIZE {
        Err(McfgError::NoEntries)
    } else if (total - MCFG_HEADER_SIZE) % (MCFG_ENTRY_SIZE as int) != 0 {
        Err(McfgError::RaggedEntries)
    } else {
        match first_segment_zero(b, 0, (total - MCFG_HEADER_SIZE) / (MCFG_ENTRY_SIZE as int)) {
            Some(i) => Ok(entry_at(b, i)),
            None => Err(McfgError::NoSegmentZero),
        }
    }
}

/// Finds the segment-0 entry of an MCFG table, given the table's bytes
/// (which must hold as many bytes as its header declares).
pub fn parse_mcfg(table: &[u8]) -> (res: Result<McfgEntry, McfgError>)
    requires
        8 <= table@.len(),
        le32(table@, 4) <= table@.len(),
    ensures
        res == mcfg_spec(table@),
{
    let total = read_le32(table, 4) as usize;
    if total <= MCFG_HEADER_SIZE {
        return Err(McfgError::NoEntries);
    }
    let entries_bytes = total - MCFG_HEADER_SIZE;
    if entries_bytes % MCFG_ENTRY_SIZE != 0 {
        return Err(McfgError::RaggedEntries);
    }
    let count = entries_bytes / MCFG_ENTRY_SIZE;
    let mut i: usize = 0;
    while i < count
        invariant
            count == (total - MCFG_HEADER_SIZE) / (MCFG_ENTRY_SIZE as int),
            total == le32(table@, 4),
            total <= table@.len(),
            MCFG_HEADER_SIZE < total,
            (total - MCFG_HEADER_SIZE) % (MCFG_ENTRY_SIZE as int) == 0,
            i <= count,
            first_segment_zero(table@, 0, count as int) == first_segment_zero(table@, i as int, count as int),
        decreases count - i,
    {
        let p = MCFG_HEADER_SIZE + MCFG_ENTRY_SIZE * i;
        assert(p + 16 <= total) by (nonlinear_arith)
            requires
                p == 44 + 16 * i,
                i < count,
                count == (total - 44) / 16,
                (total - 44) % 16 == 0,
                44 < total,
        ;
        let e = McfgEntry {
            base_address: read_le64(table, p),
            pci_segment_group: read_le16(table, p + 8),
            start_bus: table[p + 10],
            end_bus: table[p + 11],
        };
        assert(e == entry_at(table@, i as int));
        if e.pci_segment_group == 0 {
            return Ok(e);
        }
        i = i + 1;
    }
    Err(McfgError::NoSegmentZero)
}

/// The size of the ECAM region of an entry: 1 MiB per bus from the first
/// to the last (at least one bus).
pub fn ecam_size(e: &McfgEntry) -> (res: usize)
    ensures
        res == (if e.end_bus >= e.start_bus { e.end_bus - e.start_bus + 1 } else { 1 }) * 0x10_0000,
{
    let buses: usize = if e.end_bus >= e.start_bus {
        (e.end_bus - e.start_bus) as usize + 1
    } else {
        1
    };
    buses * 0x10_0000
}

/// The 4 KiB frames an ECAM region of `size` bytes at `phys_base` spans:
/// the first frame's address and how many frames.
pub fn ecam_frames(phys_base: u64, size: u64) -> (res: (u64, u64))
    requires
        1 <= size,
        phys_base + size <= u64::MAX,
    ensures
        res.0 == phys_base / 4096 * 4096,
        res.1 == ((phys_base + size - 1) / 4096 * 4096 - phys_base / 4096 * 4096) / 4096 + 1,
{
    let start = phys_base / 4096 * 4096;
    let end = (phys_base + size - 1) / 4096 * 4096;
    (start, (end - start) / 4096 + 1)
}

} // verus!
