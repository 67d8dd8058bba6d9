//! The result aggregator: the one shared collection of the scan. Workers
//! publish records in any order; after the scan it is frozen, sorted into
//! the deterministic output order, and serialized.

use vstd::prelude::*;
use vstd::relations::sorted_by;
use crate::order::{record_order, RecView};
use crate::record::{FileRecord, views};
use crate::sort::sort_records;
use crate::table::{csv_table, render_csv};

verus! {

/// The ordered collection of file records destined for the output table.
pub struct ResultTable {
    records: Vec<FileRecord>,
}

impl ResultTable {
    /// The table as the contracts see it: its records' views, in order.
    pub closed spec fn view(self) -> Seq<RecView> {
        views(self.records@)
    }

    /// An empty table, as the scan starts with.
    pub fn new() -> (t: ResultTable)
        ensures
            t@ == Seq::<RecView>::empty(),
    {
        let t = ResultTable { records: Vec::new() };
        proof {
            assert(t@ =~= Seq::<RecView>::empty());
        }
        t
    }

    /// Appends one record. Records may arrive in any order: the output is
    /// fixed only when the table is finalized.
    pub fn publish(&mut self, r: FileRecord)
        ensures
            final(self)@ == old(self)@.push(r@),
    {
        self.records.push(r);
        proof {
            assert(views(self.records@) =~= views(old(self).records@).push(r@));
        }
    }

    /// How many records have been published.
    pub fn len(&self) -> (n: usize)
        ensures
            n == self@.len(),
    {
        self.records.len()
    }

    /// Freezes the scan's outcome: sorts the records ascending by the pair
    /// (name, crc) under byte-wise lexicographic order, into the unique
    /// sorted permutation of what was published.
    pub fn finalize(&mut self)
        ensures
            final(self)@ == old(self)@.sort_by(record_order()),
            sorted_by(final(self)@, record_order()),
            final(self)@.len() == old(self)@.len(),
    {
        sort_records(&mut self.records);
    }

    /// Serializes the records, in their present order, as the output table:
    /// the `Name,CRC` header, then one row per record.
    pub fn output(&self) -> (out: Vec<u8>)
        ensures
            out@ == csv_table(self@),
    {
        render_csv(&self.records)
    }
}

} // verus!
