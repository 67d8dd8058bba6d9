//! Sorting the aggregated records into the deterministic output order.

use vstd::prelude::*;
use vstd::multiset::Multiset;
use vstd::relations::sorted_by;
use vstd::seq_lib::lemma_sorted_unique;
use crate::order::{
    record_le, record_order, RecView, lex_le_bytes, bytes_eq, lemma_record_le_transitive,
    lemma_record_le_connected, lemma_record_order_total,
};
use crate::record::{FileRecord, views};

verus! {

/// Record comparison under the output order, executable form.
pub fn record_le_exec(a: &FileRecord, b: &FileRecord) -> (r: bool)
    ensures
        r == record_le(a@, b@),
{
    if bytes_eq(&a.name, &b.name) {
        lex_le_bytes(&a.crc, &b.crc)
    } else {
        lex_le_bytes(&a.name, &b.name)
    }
}

/// Mapping to views commutes with dropping the last element.
proof fn lemma_views_drop_last(s: Seq<FileRecord>)
    requires
        s.len() > 0,
    ensures
        views(s.subrange(0, s.len() - 1)) == views(s).subrange(0, s.len() - 1),
{
    assert(views(s.subrange(0, s.len() - 1)) =~= views(s).subrange(0, s.len() - 1));
}

/// Mapping to views commutes with insertion.
proof fn lemma_views_insert(s: Seq<FileRecord>, i: int, r: FileRecord)
    requires
        0 <= i <= s.len(),
    ensures
        views(s.insert(i, r)) == views(s).insert(i, r@),
{
    assert(views(s.insert(i, r)) =~= views(s).insert(i, r@));
}

/// Dropping the last element removes exactly it from the multiset.
proof fn lemma_to_multiset_drop_last(s: Seq<RecView>)
    requires
        s.len() > 0,
    ensures
        s.subrange(0, s.len() - 1).to_multiset() == s.to_multiset().remove(s[s.len() - 1]),
{
    broadcast use vstd::seq_lib::group_to_multiset_ensures;
    broadcast use vstd::multiset::group_multiset_axioms;

    assert(s.remove(s.len() - 1) =~= s.subrange(0, s.len() - 1));
}

/// Sorts the records ascending by the pair (name, crc) under byte-wise
/// lexicographic order. The result is exactly the sorted permutation of the
/// input: the same records as a multiset, in the unique sorted order.
pub fn sort_records(v: &mut Vec<FileRecord>)
    ensures
        views(final(v)@) == views(old(v)@).sort_by(record_order()),
        sorted_by(views(final(v)@), record_order()),
        views(final(v)@).to_multiset() == views(old(v)@).to_multiset(),
        final(v)@.len() == old(v)@.len(),
{
    broadcast use vstd::seq_lib::group_to_multiset_ensures;
    broadcast use vstd::multiset::group_multiset_axioms;

    let ghost orig = views(v@);
    let mut out: Vec<FileRecord> = Vec::new();
    proof {
        assert(views(out@).to_multiset().add(views(v@).to_multiset()) =~= orig.to_multiset());
    }
    while v.len() > 0
        invariant
            sorted_by(views(out@), record_order()),
            views(out@).to_multiset().add(views(v@).to_multiset()) == orig.to_multiset(),
            out@.len() + v@.len() == orig.len(),
        decreases v@.len(),
    {
        let ghost v_before = v@;
        let ghost vs_before = views(v@);
        let r = v.pop().unwrap();
        proof {
            lemma_views_drop_last(v_before);
            assert(views(v@) == vs_before.subrange(0, vs_before.len() - 1));
            lemma_to_multiset_drop_last(vs_before);
            assert(vs_before[vs_before.len() - 1] == r@);
        }
        let mut j: usize = 0;
        while j < out.len() && !record_le_exec(&r, &out[j])
            invariant
                j <= out@.len(),
                forall|k: int| 0 <= k < j ==> record_le(#[trigger] views(out@)[k], r@),
            decreases out@.len() - j,
        {
            proof {
                lemma_record_le_connected(r@, out@[j as int]@);
            }
            j = j + 1;
        }
        let ghost m = views(out@);
        out.insert(j, r);
        proof {
            lemma_views_insert(out@.remove(j as int), j as int, r);
            assert(out@.remove(j as int).insert(j as int, r) =~= out@);
            assert(views(out@) == m.insert(j as int, r@));
            let mi = m.insert(j as int, r@);
            assert forall|x: int, y: int| 0 <= x < y < m.len() implies record_le(m[x], m[y]) by {
                assert(record_order()(m[x], m[y]));
            }
            assert forall|p: int, q: int| 0 <= p < q < mi.len() implies #[trigger] record_le(
                mi[p],
                mi[q],
            ) by {
                if q < j {
                    assert(record_le(m[p], m[q]));
                } else if q == j {
                    assert(record_le(m[p], r@));
                } else if p < j {
                    assert(record_le(m[p], m[q - 1]));
                } else if p == j {
                    assert(record_le(r@, m[j as int]));
                    if q - 1 > j {
                        lemma_record_le_transitive(r@, m[j as int], m[q - 1]);
                    }
                } else {
                    assert(record_le(m[p - 1], m[q - 1]));
                }
            }
            assert forall|p: int, q: int| 0 <= p < q < mi.len() implies #[trigger] record_order()(
                mi[p],
                mi[q],
            ) by {
                assert(record_le(mi[p], mi[q]));
            }
            assert(sorted_by(mi, record_order()));
            vstd::seq_lib::to_multiset_insert(m, j as int, r@);
            let m_ms = m.to_multiset();
            let vs_ms = vs_before.to_multiset();
            assert(vs_before.contains(r@)) by {
                assert(vs_before[vs_before.len() - 1] == r@);
            }
            vs_before.to_multiset_ensures();
            assert(vs_ms.count(r@) > 0);
            assert(m_ms.insert(r@).add(vs_ms.remove(r@)) =~= m_ms.add(vs_ms)) by {
                assert forall|x: RecView|
                    m_ms.insert(r@).add(vs_ms.remove(r@)).count(x) == m_ms.add(vs_ms).count(
                        x,
                    ) by {
                    assert(m_ms.insert(r@).count(x) == m_ms.count(x) + if x == r@ {
                        1int
                    } else {
                        0int
                    });
                    assert(vs_ms.remove(r@).count(x) == vs_ms.count(x) - if x == r@ {
                        1int
                    } else {
                        0int
                    });
                }
            }
            assert(views(out@).to_multiset().add(views(v@).to_multiset()) =~= orig.to_multiset());
        }
    }
    proof {
        assert(views(v@) =~= Seq::<RecView>::empty());
        assert(views(v@).to_multiset() =~= Multiset::<RecView>::empty());
        assert(views(out@).to_multiset() =~= orig.to_multiset());
    }
    *v = out;
    proof {
        lemma_record_order_total();
        orig.lemma_sort_by_ensures(record_order());
        lemma_sorted_unique(views(v@), orig.sort_by(record_order()), record_order());
        assert(views(v@) == orig.sort_by(record_order()));
        assert(views(v@).len() == v@.len());
    }
}

} // verus!
