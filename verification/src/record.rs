//! The unit of output: a file name and the hex rendering of its CRC-32.

use vstd::prelude::*;
use crate::hex::{hex_of, to_hex};
use crate::order::RecView;

verus! {

/// The IEEE CRC-32 (reflected polynomial 0xEDB88320, initial register
/// 0xFFFFFFFF, final XOR 0xFFFFFFFF — the ZIP/gzip variant) of a byte string.
/// A function of the bytes alone; its value is not stated here, only named.
pub uninterp spec fn crc32_of(bytes: Seq<u8>) -> u32;

/// Relies on crc32fast::hash: the IEEE CRC-32 checksum of the bytes, a pure
/// function of the byte slice alone.
#[verifier::external_body]
fn crc32_bytes(data: &Vec<u8>) -> (r: u32)
    ensures
        r == crc32_of(data@),
{
    crc32fast::hash(data.as_slice())
}

/// One row of the output table: the file's short display name as raw bytes,
/// and the minimal-width lowercase hex of its checksum as ASCII bytes.
pub struct FileRecord {
    pub name: Vec<u8>,
    pub crc: Vec<u8>,
}

impl FileRecord {
    /// The record as the contracts see it: the pair of byte strings.
    pub open spec fn view(self) -> RecView {
        (self.name@, self.crc@)
    }

    /// Builds the record for a file with the given display name and byte
    /// contents: the checksum field is the minimal-width lowercase hex
    /// rendering of the CRC-32 of the contents.
    pub fn new(name: Vec<u8>, contents: &Vec<u8>) -> (r: FileRecord)
        ensures
            r@ == (name@, hex_of(crc32_of(contents@) as nat)),
            1 <= r.crc@.len() <= 8,
    {
        let checksum = crc32_bytes(contents);
        let crc = to_hex(checksum);
        FileRecord { name, crc }
    }
}

/// The records as the contracts see them, element-wise.
pub open spec fn views(s: Seq<FileRecord>) -> Seq<RecView> {
    s.map_values(|r: FileRecord| r@)
}

} // verus!
