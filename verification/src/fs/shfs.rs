//! On-disk headers of SHFS.
use vstd::prelude::*;

verus! {

pub struct Header {
    /// The name of the partition SHFS is stored on (16 bytes).
    pub name: [u8; 16],
    /// The size of each piece in KB (no less than 8KB).
    pub piece_sz: u32,
    /// The amount of pieces in the FS.
    pub piece_count: u16,
    /// The amount of pieces in the FS which are being used.
    pub used_piece_count: u16,
    /// The size of the reserved area.
    pub reserved_area_sz: u32,
}

pub struct PieceHeader {
    /// The zero-based ID of the piece.
    pub piece_id: u16,
    /// The ID of the next piece.
    pub next_piece: u16,
    /// Non-zero when a file cuts through several pieces.
    pub file_cut_sz: u32,
}

impl Header {
    /// A fresh header with no used pieces; the reserved area holds five units
    /// per piece plus twenty, counted in 32 bits (the piece count plus four
    /// must fit in 16 bits).
    pub fn new(name: [u8; 16], piece_sz: u32, piece_count: u16) -> (res: Self)
        requires
            piece_count + 4 <= u16::MAX,
        ensures
            res.name == name,
            res.piece_sz == piece_sz,
            res.piece_count == piece_count,
            res.used_piece_count == 0,
            res.reserved_area_sz == 5 * (piece_count + 4),
    {
        Self {
            name,
            piece_sz,
            piece_count,
            used_piece_count: 0,
            reserved_area_sz: 5 * ((piece_count + 4) as u32),
        }
    }
}

impl PieceHeader {
    pub fn new(piece_id: u16, next_piece: u16) -> (res: Self)
        ensures
            res.piece_id == piece_id,
            res.next_piece == next_piece,
            res.file_cut_sz == 0,
    {
        Self { piece_id, next_piece, file_cut_sz: 0 }
    }
}

} // verus!
