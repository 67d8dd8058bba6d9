//! The global guarantees of the pipeline, stated once over the specification
//! functions that the executable contracts use.

use vstd::prelude::*;
use vstd::seq_lib::{lemma_sorted_unique, lemma_multiset_commutative};
use crate::order::{record_order, RecView, lemma_record_order_total};
use crate::table::{csv_table, csv_rows, csv_row, csv_field, quoted_body, header_row};

verus! {

/// Law: the output is determined by the collection of records alone.
/// Workers may publish in any order; two aggregations with the same records
/// as a multiset sort to the same sequence and serialize to identical bytes.
pub proof fn lemma_output_deterministic(a: Seq<RecView>, b: Seq<RecView>)
    requires
        a.to_multiset() == b.to_multiset(),
    ensures
        a.sort_by(record_order()) == b.sort_by(record_order()),
        csv_table(a.sort_by(record_order())) == csv_table(b.sort_by(record_order())),
{
    lemma_record_order_total();
    a.lemma_sort_by_ensures(record_order());
    b.lemma_sort_by_ensures(record_order());
    lemma_sorted_unique(a.sort_by(record_order()), b.sort_by(record_order()), record_order());
}

/// A byte string that does not hold a byte has zero of it in its multiset.
proof fn lemma_count_zero(s: Seq<u8>, b: u8)
    requires
        !s.contains(b),
    ensures
        s.to_multiset().count(b) == 0,
{
    s.to_multiset_ensures();
}

/// Quoting a field introduces only double-quote bytes.
proof fn lemma_quoted_body_no_new_bytes(f: Seq<u8>, b: u8)
    requires
        b != 34,
        !f.contains(b),
    ensures
        !quoted_body(f).contains(b),
    decreases f.len(),
{
    if f.len() > 0 {
        assert(!f.drop_last().contains(b)) by {
            assert(forall|i: int|
                0 <= i < f.drop_last().len() ==> f.drop_last()[i] == #[trigger] f[i]);
        }
        lemma_quoted_body_no_new_bytes(f.drop_last(), b);
        let tail = if f.last() == 34 {
            seq![34u8, 34u8]
        } else {
            seq![f.last()]
        };
        assert(!tail.contains(b));
        assert forall|i: int| 0 <= i < quoted_body(f).len() implies #[trigger] quoted_body(f)[i]
            != b by {
            if i < quoted_body(f.drop_last()).len() {
                assert(!quoted_body(f.drop_last()).contains(b));
            } else {
                assert(quoted_body(f)[i] == tail[i - quoted_body(f.drop_last()).len()]);
            }
        }
    }
}

/// A serialized field holds no line feed when the raw field holds none.
proof fn lemma_field_lf_count(f: Seq<u8>)
    requires
        !f.contains(10u8),
    ensures
        csv_field(f).to_multiset().count(10u8) == 0,
{
    broadcast use vstd::multiset::group_multiset_axioms;

    if crate::table::needs_quoting(f) {
        lemma_quoted_body_no_new_bytes(f, 10u8);
        lemma_multiset_commutative(seq![34u8] + quoted_body(f), seq![34u8]);
        lemma_multiset_commutative(seq![34u8], quoted_body(f));
        lemma_count_zero(seq![34u8], 10u8);
        lemma_count_zero(quoted_body(f), 10u8);
    } else {
        lemma_count_zero(f, 10u8);
    }
}

/// A row whose fields hold no line feed ends with its only line feed.
proof fn lemma_row_lf_count(r: RecView)
    requires
        !r.0.contains(10u8),
        !r.1.contains(10u8),
    ensures
        csv_row(r).to_multiset().count(10u8) == 1,
{
    broadcast use vstd::multiset::group_multiset_axioms;

    lemma_field_lf_count(r.0);
    lemma_field_lf_count(r.1);
    lemma_multiset_commutative(csv_field(r.0) + seq![44u8] + csv_field(r.1), seq![10u8]);
    lemma_multiset_commutative(csv_field(r.0) + seq![44u8], csv_field(r.1));
    lemma_multiset_commutative(csv_field(r.0), seq![44u8]);
    lemma_count_zero(seq![44u8], 10u8);
    assert(seq![10u8] =~= Seq::<u8>::empty().push(10u8));
    assert(seq![10u8].to_multiset().count(10u8) == 1) by {
        Seq::<u8>::empty().to_multiset_ensures();
        broadcast use vstd::seq_lib::group_to_multiset_ensures;

    }
}

/// The serialized rows of `n` line-feed-free records hold `n` line feeds.
proof fn lemma_rows_lf_count(recs: Seq<RecView>)
    requires
        forall|i: int|
            0 <= i < recs.len() ==> !(#[trigger] recs[i]).0.contains(10u8) && !recs[i].1.contains(
                10u8,
            ),
    ensures
        csv_rows(recs).to_multiset().count(10u8) == recs.len(),
    decreases recs.len(),
{
    broadcast use vstd::multiset::group_multiset_axioms;

    if recs.len() == 0 {
        assert(csv_rows(recs) == Seq::<u8>::empty());
        Seq::<u8>::empty().to_multiset_ensures();
        assert(!Seq::<u8>::empty().contains(10u8));
        assert(Seq::<u8>::empty().to_multiset().count(10u8) == 0);
    } else {
        assert(forall|i: int|
            0 <= i < recs.drop_last().len() ==> recs.drop_last()[i] == #[trigger] recs[i]);
        lemma_rows_lf_count(recs.drop_last());
        lemma_row_lf_count(recs.last());
        lemma_multiset_commutative(csv_rows(recs.drop_last()), csv_row(recs.last()));
    }
}

/// Law: completeness of the table. For records whose fields hold no line
/// feed (CSV quoting would otherwise let a name span lines), the output is
/// exactly one header line plus one line per record: it holds `n + 1` line
/// feeds for `n` records.
pub proof fn lemma_table_line_count(recs: Seq<RecView>)
    requires
        forall|i: int|
            0 <= i < recs.len() ==> !(#[trigger] recs[i]).0.contains(10u8) && !recs[i].1.contains(
                10u8,
            ),
    ensures
        csv_table(recs).to_multiset().count(10u8) == recs.len() + 1,
{
    broadcast use vstd::multiset::group_multiset_axioms;

    lemma_rows_lf_count(recs);
    lemma_multiset_commutative(header_row(), csv_rows(recs));
    let head = seq![78u8, 97u8, 109u8, 101u8, 44u8, 67u8, 82u8, 67u8];
    assert(header_row() =~= head + seq![10u8]);
    lemma_multiset_commutative(head, seq![10u8]);
    assert(!head.contains(10u8));
    lemma_count_zero(head, 10u8);
    assert(seq![10u8] =~= Seq::<u8>::empty().push(10u8));
    assert(seq![10u8].to_multiset().count(10u8) == 1) by {
        broadcast use vstd::seq_lib::group_to_multiset_ensures;

    }
}

} // verus!
