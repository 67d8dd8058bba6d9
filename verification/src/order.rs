//! Byte-wise lexicographic order on byte strings, and the record order:
//! ascending by name, then by the hex checksum compared as bytes (so `"10"`
//! sorts before `"9"`, a quirk of the unpadded hex rendering that the output
//! schema fixes).

use vstd::prelude::*;
use vstd::relations::total_ordering;

verus! {

/// Byte-wise lexicographic `<=` on byte strings.
pub open spec fn lex_le(a: Seq<u8>, b: Seq<u8>) -> bool
    decreases a.len(),
{
    if a.len() == 0 {
        true
    } else if b.len() == 0 {
        false
    } else if a[0] < b[0] {
        true
    } else if a[0] > b[0] {
        false
    } else {
        lex_le(a.drop_first(), b.drop_first())
    }
}

/// A record as the contracts see it: the name bytes and the checksum bytes.
pub type RecView = (Seq<u8>, Seq<u8>);

/// Record order: by name, ties broken by the checksum bytes.
pub open spec fn record_le(a: RecView, b: RecView) -> bool {
    if a.0 == b.0 {
        lex_le(a.1, b.1)
    } else {
        lex_le(a.0, b.0)
    }
}

/// The record order as a relation value, for `sorted_by` and `sort_by`.
pub open spec fn record_order() -> spec_fn(RecView, RecView) -> bool {
    |a: RecView, b: RecView| record_le(a, b)
}

pub proof fn lemma_lex_le_reflexive(a: Seq<u8>)
    ensures
        lex_le(a, a),
    decreases a.len(),
{
    if a.len() > 0 {
        lemma_lex_le_reflexive(a.drop_first());
    }
}

pub proof fn lemma_lex_le_antisymmetric(a: Seq<u8>, b: Seq<u8>)
    requires
        lex_le(a, b),
        lex_le(b, a),
    ensures
        a == b,
    decreases a.len(),
{
    if a.len() == 0 {
        assert(b.len() == 0);
        assert(a =~= b);
    } else {
        lemma_lex_le_antisymmetric(a.drop_first(), b.drop_first());
        assert(a =~= seq![a[0]] + a.drop_first());
        assert(b =~= seq![b[0]] + b.drop_first());
    }
}

pub proof fn lemma_lex_le_transitive(a: Seq<u8>, b: Seq<u8>, c: Seq<u8>)
    requires
        lex_le(a, b),
        lex_le(b, c),
    ensures
        lex_le(a, c),
    decreases a.len(),
{
    if a.len() > 0 && b.len() > 0 && c.len() > 0 && a[0] == b[0] && b[0] == c[0] {
        lemma_lex_le_transitive(a.drop_first(), b.drop_first(), c.drop_first());
    }
}

pub proof fn lemma_lex_le_total(a: Seq<u8>, b: Seq<u8>)
    ensures
        lex_le(a, b) || lex_le(b, a),
    decreases a.len(),
{
    if a.len() > 0 && b.len() > 0 && a[0] == b[0] {
        lemma_lex_le_total(a.drop_first(), b.drop_first());
    }
}

pub proof fn lemma_record_le_reflexive(a: RecView)
    ensures
        record_le(a, a),
{
    lemma_lex_le_reflexive(a.1);
}

pub proof fn lemma_record_le_antisymmetric(a: RecView, b: RecView)
    requires
        record_le(a, b),
        record_le(b, a),
    ensures
        a == b,
{
    if a.0 == b.0 {
        lemma_lex_le_antisymmetric(a.1, b.1);
    } else {
        lemma_lex_le_antisymmetric(a.0, b.0);
    }
}

pub proof fn lemma_record_le_transitive(a: RecView, b: RecView, c: RecView)
    requires
        record_le(a, b),
        record_le(b, c),
    ensures
        record_le(a, c),
{
    if a.0 == b.0 && b.0 == c.0 {
        lemma_lex_le_transitive(a.1, b.1, c.1);
    } else if a.0 == b.0 || b.0 == c.0 {
        // the order is decided by the names, and one pair of names is equal
    } else {
        lemma_lex_le_transitive(a.0, b.0, c.0);
        if a.0 == c.0 {
            lemma_lex_le_antisymmetric(a.0, b.0);
        }
    }
}

pub proof fn lemma_record_le_connected(a: RecView, b: RecView)
    ensures
        record_le(a, b) || record_le(b, a),
{
    if a.0 == b.0 {
        lemma_lex_le_total(a.1, b.1);
    } else {
        lemma_lex_le_total(a.0, b.0);
    }
}

/// The record order is a total order, as `sort_by` and the uniqueness of the
/// sorted permutation require.
pub proof fn lemma_record_order_total()
    ensures
        total_ordering(record_order()),
{
    let leq = record_order();
    assert forall|a: RecView| #[trigger] leq(a, a) by {
        lemma_record_le_reflexive(a);
    }
    assert forall|a: RecView, b: RecView| #[trigger] leq(a, b) && #[trigger] leq(b, a) implies a
        == b by {
        lemma_record_le_antisymmetric(a, b);
    }
    assert forall|a: RecView, b: RecView, c: RecView|
        #[trigger] leq(a, b) && #[trigger] leq(b, c) implies leq(a, c) by {
        lemma_record_le_transitive(a, b, c);
    }
    assert forall|a: RecView, b: RecView| #[trigger] leq(a, b) || #[trigger] leq(b, a) by {
        lemma_record_le_connected(a, b);
    }
}

/// If two byte strings agree on their first `i` bytes, their order is decided
/// by the remainders.
proof fn lemma_lex_le_skip(a: Seq<u8>, b: Seq<u8>, i: int)
    requires
        0 <= i <= a.len(),
        i <= b.len(),
        forall|k: int| 0 <= k < i ==> a[k] == b[k],
    ensures
        lex_le(a, b) == lex_le(a.skip(i), b.skip(i)),
    decreases i,
{
    if i > 0 {
        lemma_lex_le_skip(a.drop_first(), b.drop_first(), i - 1);
        assert(a.drop_first().skip(i - 1) =~= a.skip(i));
        assert(b.drop_first().skip(i - 1) =~= b.skip(i));
    } else {
        assert(a.skip(0) =~= a);
        assert(b.skip(0) =~= b);
    }
}

/// Byte-wise lexicographic comparison, executable form.
pub fn lex_le_bytes(a: &Vec<u8>, b: &Vec<u8>) -> (r: bool)
    ensures
        r == lex_le(a@, b@),
{
    let n: usize = if a.len() < b.len() {
        a.len()
    } else {
        b.len()
    };
    let mut i: usize = 0;
    while i < n
        invariant
            n <= a@.len(),
            n <= b@.len(),
            i <= n,
            forall|k: int| 0 <= k < i ==> a@[k] == b@[k],
        decreases n - i,
    {
        if a[i] < b[i] {
            proof {
                lemma_lex_le_skip(a@, b@, i as int);
            }
            return true;
        }
        if a[i] > b[i] {
            proof {
                lemma_lex_le_skip(a@, b@, i as int);
            }
            return false;
        }
        i = i + 1;
    }
    proof {
        lemma_lex_le_skip(a@, b@, n as int);
        if a@.len() <= b@.len() {
            assert(a@.skip(n as int).len() == 0);
        } else {
            assert(a@.skip(n as int).len() > 0);
            assert(b@.skip(n as int).len() == 0);
        }
    }
    a.len() <= b.len()
}

/// Byte-string equality, executable form.
pub fn bytes_eq(a: &Vec<u8>, b: &Vec<u8>) -> (r: bool)
    ensures
        r == (a@ == b@),
{
    if a.len() != b.len() {
        return false;
    }
    let mut i: usize = 0;
    while i < a.len()
        invariant
            a@.len() == b@.len(),
            i <= a@.len(),
            forall|k: int| 0 <= k < i ==> a@[k] == b@[k],
        decreases a@.len() - i,
    {
        if a[i] != b[i] {
            return false;
        }
        i = i + 1;
    }
    proof {
        assert(a@ =~= b@);
    }
    true
}

} // verus!
