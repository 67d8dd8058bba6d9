//! Minimal-width lowercase hexadecimal rendering of a 32-bit checksum.

use vstd::prelude::*;

verus! {

/// The ASCII byte of one lowercase hexadecimal digit.
pub open spec fn hex_digit(d: nat) -> u8
    recommends
        d < 16,
{
    if d < 10 {
        (48 + d) as u8
    } else {
        (87 + d) as u8
    }
}

/// Minimal-width lowercase hexadecimal rendering of `n` as ASCII bytes:
/// `"0"` for zero, no leading zero padding.
pub open spec fn hex_of(n: nat) -> Seq<u8>
    decreases n,
{
    if n < 16 {
        seq![hex_digit(n)]
    } else {
        hex_of(n / 16).push(hex_digit(n % 16))
    }
}

/// 16 to the power `k`.
pub open spec fn pow16(k: nat) -> nat
    decreases k,
{
    if k == 0 {
        1
    } else {
        16 * pow16((k - 1) as nat)
    }
}

/// A number below `16^k` is rendered in at most `k` hex digits.
pub proof fn lemma_hex_of_len_bound(n: nat, k: nat)
    requires
        1 <= k,
        n < pow16(k),
    ensures
        hex_of(n).len() <= k,
    decreases n,
{
    if n < 16 {
    } else {
        assert(pow16(k) == 16 * pow16((k - 1) as nat));
        assert(k >= 2) by {
            if k == 1 {
                assert(pow16(1) == 16 * pow16(0));
                assert(pow16(0) == 1);
            }
        }
        assert(n / 16 < pow16((k - 1) as nat)) by (nonlinear_arith)
            requires
                n < 16 * pow16((k - 1) as nat),
        ;
        lemma_hex_of_len_bound(n / 16, (k - 1) as nat);
    }
}

/// The rendering of a 32-bit value is between 1 and 8 digits long.
pub proof fn lemma_hex_of_u32_len(n: nat)
    requires
        n < 0x1_0000_0000,
    ensures
        1 <= hex_of(n).len() <= 8,
{
    assert(pow16(8) == 0x1_0000_0000) by {
        reveal_with_fuel(pow16, 9);
    }
    lemma_hex_of_len_bound(n, 8);
}

/// A byte that renders one lowercase hexadecimal digit.
pub open spec fn is_hex_digit_byte(b: u8) -> bool {
    (48 <= b <= 57) || (97 <= b <= 102)
}

/// The rendering is lowercase hexadecimal and of minimal width: every byte
/// is a lowercase hex digit, and only zero itself starts with the digit `0`.
pub proof fn lemma_hex_of_shape(n: nat)
    ensures
        forall|i: int| 0 <= i < hex_of(n).len() ==> is_hex_digit_byte(#[trigger] hex_of(n)[i]),
        n > 0 ==> hex_of(n)[0] != 48,
    decreases n,
{
    if n < 16 {
        assert(hex_of(n)[0] == hex_digit(n));
    } else {
        lemma_hex_of_shape(n / 16);
        assert(n / 16 > 0);
        assert forall|i: int| 0 <= i < hex_of(n).len() implies is_hex_digit_byte(
            #[trigger] hex_of(n)[i],
        ) by {
            if i < hex_of(n / 16).len() {
                assert(hex_of(n)[i] == hex_of(n / 16)[i]);
            } else {
                assert(hex_of(n)[i] == hex_digit(n % 16));
            }
        }
    }
}

/// The ASCII byte of one hex digit, executable form.
fn digit_byte(d: u32) -> (r: u8)
    requires
        d < 16,
    ensures
        r == hex_digit(d as nat),
{
    if d < 10 {
        (48 + d) as u8
    } else {
        (87 + d) as u8
    }
}

/// Renders `n` as minimal-width lowercase hexadecimal ASCII bytes.
pub fn to_hex(n: u32) -> (r: Vec<u8>)
    ensures
        r@ == hex_of(n as nat),
        1 <= r@.len() <= 8,
{
    let mut rev: Vec<u8> = Vec::new();
    let mut m: u32 = n;
    while m >= 16
        invariant
            hex_of(n as nat) == hex_of(m as nat) + rev@.reverse(),
        decreases m,
    {
        let ghost m0 = m as nat;
        let ghost rev0 = rev@;
        let d: u32 = m % 16;
        rev.push(digit_byte(d));
        m = m / 16;
        proof {
            assert(hex_of(m0) == hex_of(m0 / 16).push(hex_digit(m0 % 16)));
            assert(hex_of(m0 / 16).push(hex_digit(m0 % 16)) + rev0.reverse() =~= hex_of(
                m as nat,
            ) + rev0.push(hex_digit(m0 % 16)).reverse());
        }
    }
    rev.push(digit_byte(m));
    proof {
        assert(hex_of(m as nat) == seq![hex_digit(m as nat)]);
        assert(hex_of(n as nat) =~= rev@.reverse());
    }
    let mut r: Vec<u8> = Vec::new();
    let mut i: usize = rev.len();
    while i > 0
        invariant
            i <= rev.len(),
            r@ =~= rev@.subrange(i as int, rev@.len() as int).reverse(),
        decreases i,
    {
        i = i - 1;
        let b = rev[i];
        r.push(b);
        proof {
            assert(r@ =~= rev@.subrange(i as int, rev@.len() as int).reverse());
        }
    }
    proof {
        assert(rev@.subrange(0, rev@.len() as int) =~= rev@);
        assert(r@ =~= hex_of(n as nat));
        lemma_hex_of_u32_len(n as nat);
    }
    r
}

} // verus!
