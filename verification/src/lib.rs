//! Verified core of a directory-checksum tool: building per-file CRC-32
//! records, ordering them, and rendering the two-column CSV table.
//!
//! Walking the tree, reading file bytes and writing the output file are I/O
//! and live in the surrounding binary; this library does everything between:
//! it turns a file's bytes into a record (name, lowercase minimal-width hex
//! of the CRC-32), sorts records by the byte-wise lexicographic order on the
//! pair (name, crc), and serializes them as CSV with the fixed `Name,CRC`
//! header.

pub mod hex;
pub mod laws;
pub mod order;
pub mod pipeline;
pub mod record;
pub mod sort;
pub mod table;
