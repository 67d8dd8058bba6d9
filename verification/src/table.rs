//! Serializing the ordered records as comma-separated values with the fixed
//! `Name,CRC` header: fields holding a comma, a double quote or a line break
//! are wrapped in double quotes, embedded quotes doubled, rows terminated by
//! a line feed.

use vstd::prelude::*;
use crate::order::RecView;
use crate::record::{FileRecord, views};

verus! {

/// A byte that forces its field to be quoted.
pub open spec fn is_special(b: u8) -> bool {
    b == 34 || b == 44 || b == 13 || b == 10
}

/// Whether a field must be wrapped in double quotes.
pub open spec fn needs_quoting(f: Seq<u8>) -> bool {
    exists|k: int| 0 <= k < f.len() && is_special(#[trigger] f[k])
}

/// The body of a quoted field: every byte kept, double quotes doubled.
pub open spec fn quoted_body(f: Seq<u8>) -> Seq<u8>
    decreases f.len(),
{
    if f.len() == 0 {
        Seq::empty()
    } else {
        quoted_body(f.drop_last()) + (if f.last() == 34 {
            seq![34u8, 34u8]
        } else {
            seq![f.last()]
        })
    }
}

/// One serialized field: quoted exactly when it holds a special byte.
pub open spec fn csv_field(f: Seq<u8>) -> Seq<u8> {
    if needs_quoting(f) {
        seq![34u8] + quoted_body(f) + seq![34u8]
    } else {
        f
    }
}

/// One serialized row: name, comma, checksum, line feed.
pub open spec fn csv_row(r: RecView) -> Seq<u8> {
    csv_field(r.0) + seq![44u8] + csv_field(r.1) + seq![10u8]
}

/// The serialized rows of a record sequence, in order.
pub open spec fn csv_rows(recs: Seq<RecView>) -> Seq<u8>
    decreases recs.len(),
{
    if recs.len() == 0 {
        Seq::empty()
    } else {
        csv_rows(recs.drop_last()) + csv_row(recs.last())
    }
}

/// The header row `Name,CRC` with its line feed, as bytes.
pub open spec fn header_row() -> Seq<u8> {
    seq![78u8, 97u8, 109u8, 101u8, 44u8, 67u8, 82u8, 67u8, 10u8]
}

/// The whole output: the header, then one row per record, in order.
pub open spec fn csv_table(recs: Seq<RecView>) -> Seq<u8> {
    header_row() + csv_rows(recs)
}

/// Serializing one more byte extends the quoted body at its end.
pub proof fn lemma_quoted_body_push(s: Seq<u8>, b: u8)
    ensures
        quoted_body(s.push(b)) == quoted_body(s) + (if b == 34 {
            seq![34u8, 34u8]
        } else {
            seq![b]
        }),
{
    assert(s.push(b).drop_last() =~= s);
    assert(s.push(b).last() == b);
}

/// Serializing one more record extends the rows at their end.
pub proof fn lemma_csv_rows_push(recs: Seq<RecView>, r: RecView)
    ensures
        csv_rows(recs.push(r)) == csv_rows(recs) + csv_row(r),
{
    assert(recs.push(r).drop_last() =~= recs);
    assert(recs.push(r).last() == r);
}

/// Whether the field holds a byte that forces quoting, executable form.
fn has_special(f: &Vec<u8>) -> (r: bool)
    ensures
        r == needs_quoting(f@),
{
    let mut i: usize = 0;
    while i < f.len()
        invariant
            i <= f@.len(),
            forall|k: int| 0 <= k < i ==> !is_special(#[trigger] f@[k]),
        decreases f@.len() - i,
    {
        let b = f[i];
        if b == 34 || b == 44 || b == 13 || b == 10 {
            return true;
        }
        i = i + 1;
    }
    false
}

/// Appends one serialized field.
fn push_field(out: &mut Vec<u8>, f: &Vec<u8>)
    ensures
        final(out)@ == old(out)@ + csv_field(f@),
{
    let ghost out0 = out@;
    if !has_special(f) {
        let mut i: usize = 0;
        while i < f.len()
            invariant
                i <= f@.len(),
                out@ == out0 + f@.subrange(0, i as int),
            decreases f@.len() - i,
        {
            let b = f[i];
            out.push(b);
            i = i + 1;
            proof {
                assert(out@ =~= out0 + f@.subrange(0, i as int));
            }
        }
        proof {
            assert(f@.subrange(0, f@.len() as int) =~= f@);
        }
    } else {
        out.push(34);
        let mut i: usize = 0;
        while i < f.len()
            invariant
                i <= f@.len(),
                out@ == out0 + seq![34u8] + quoted_body(f@.subrange(0, i as int)),
            decreases f@.len() - i,
        {
            let b = f[i];
            out.push(b);
            if b == 34 {
                out.push(34);
            }
            proof {
                assert(f@.subrange(0, i + 1 as int) =~= f@.subrange(0, i as int).push(f@[i as int]));
                lemma_quoted_body_push(f@.subrange(0, i as int), f@[i as int]);
                assert(out@ =~= out0 + seq![34u8] + quoted_body(f@.subrange(0, i + 1 as int)));
            }
            i = i + 1;
        }
        out.push(34);
        proof {
            assert(f@.subrange(0, f@.len() as int) =~= f@);
            assert(out@ =~= out0 + (seq![34u8] + quoted_body(f@) + seq![34u8]));
        }
    }
}

/// Appends one serialized row.
fn push_row(out: &mut Vec<u8>, r: &FileRecord)
    ensures
        final(out)@ == old(out)@ + csv_row(r@),
{
    let ghost out0 = out@;
    push_field(out, &r.name);
    out.push(44);
    push_field(out, &r.crc);
    out.push(10);
    proof {
        assert(out@ =~= out0 + csv_row(r@));
    }
}

/// Serializes the records, in their present order, as the output table:
/// the `Name,CRC` header, then one row per record.
pub fn render_csv(recs: &Vec<FileRecord>) -> (out: Vec<u8>)
    ensures
        out@ == csv_table(views(recs@)),
{
    let mut out: Vec<u8> = Vec::new();
    out.push(78);
    out.push(97);
    out.push(109);
    out.push(101);
    out.push(44);
    out.push(67);
    out.push(82);
    out.push(67);
    out.push(10);
    proof {
        assert(out@ =~= header_row());
        assert(views(recs@).subrange(0, 0) =~= Seq::<RecView>::empty());
        assert(out@ =~= header_row() + csv_rows(views(recs@).subrange(0, 0)));
    }
    let mut i: usize = 0;
    while i < recs.len()
        invariant
            i <= recs@.len(),
            out@ == header_row() + csv_rows(views(recs@).subrange(0, i as int)),
        decreases recs@.len() - i,
    {
        let r = &recs[i];
        push_row(&mut out, r);
        proof {
            let vs = views(recs@);
            assert(vs.subrange(0, i + 1 as int) =~= vs.subrange(0, i as int).push(vs[i as int]));
            lemma_csv_rows_push(vs.subrange(0, i as int), vs[i as int]);
            assert(out@ =~= header_row() + csv_rows(vs.subrange(0, i + 1 as int)));
        }
        i = i + 1;
    }
    proof {
        assert(views(recs@).subrange(0, recs@.len() as int) =~= views(recs@));
    }
    out
}

} // verus!
