//! Big-endian byte strings as numbers, and their fixed-width forms.
use vstd::prelude::*;

use crate::compact::{lemma_pow256_positive, pow256};

verus! {

/// The number that the bytes `b` hold, most significant first.
pub open spec fn be_value(b: Seq<u8>) -> nat
    decreases b.len(),
{
    if b.len() == 0 {
        0
    } else {
        be_value(b.drop_last()) * 256 + b.last() as nat
    }
}

/// The `n` least significant bytes of `v`, most significant first: `v`
/// left-padded with zeros to `n` bytes when it fits.
pub open spec fn fixed_be(v: nat, n: nat) -> Seq<u8> {
    Seq::new(n, |i: int| ((v / pow256((n - 1 - i) as nat)) % 256) as u8)
}

pub proof fn lemma_be_value_bound(b: Seq<u8>)
    ensures
        be_value(b) < pow256(b.len()),
    decreases b.len(),
{
    if b.len() > 0 {
        lemma_be_value_bound(b.drop_last());
        let rest = be_value(b.drop_last());
        let p = pow256((b.len() - 1) as nat);
        assert(rest * 256 + b.last() < 256 * p) by (nonlinear_arith)
            requires
                rest + 1 <= p,
                b.last() < 256,
        ;
    }
}

/// Byte `j` from the end of `b` is digit `j` of its value.
proof fn lemma_digit(b: Seq<u8>, j: nat)
    requires
        j < b.len(),
    ensures
        b[b.len() - 1 - j] as nat == (be_value(b) / pow256(j)) % 256,
    decreases b.len(),
{
    let rest = be_value(b.drop_last());
    let v = be_value(b);
    assert(v == rest * 256 + b.last() as nat);
    if j == 0 {
        assert(pow256(0) == 1);
        assert(v % 256 == b.last() as nat) by (nonlinear_arith)
            requires
                v == rest * 256 + b.last() as nat,
                b.last() < 256,
        ;
    } else {
        lemma_digit(b.drop_last(), (j - 1) as nat);
        lemma_pow256_positive((j - 1) as nat);
        assert(v / 256 == rest) by (nonlinear_arith)
            requires
                v == rest * 256 + b.last() as nat,
                b.last() < 256,
        ;
        vstd::arithmetic::div_mod::lemma_div_denominator(v as int, 256, pow256((j - 1) as nat) as int);
        assert(pow256(j) == 256 * pow256((j - 1) as nat));
        assert(b.drop_last()[b.drop_last().len() - 1 - (j - 1)] == b[b.len() - 1 - j]);
    }
}

/// Digits beyond the length of `b` are zero.
proof fn lemma_high_digit(b: Seq<u8>, j: nat)
    requires
        j >= b.len(),
    ensures
        (be_value(b) / pow256(j)) % 256 == 0,
{
    lemma_be_value_bound(b);
    crate::compact::lemma_pow_monotone(b.len(), j);
    lemma_pow256_positive(j);
    vstd::arithmetic::div_mod::lemma_basic_div(be_value(b) as int, pow256(j) as int);
}

/// The `n` least significant bytes of the number that `b` holds, most
/// significant first.
pub fn to_fixed_be(b: &[u8], n: usize) -> (r: Vec<u8>)
    ensures
        r@ == fixed_be(be_value(b@), n as nat),
{
    let len = b.len();
    let mut out: Vec<u8> = Vec::new();
    let mut i: usize = 0;
    while i < n
        invariant
            i <= n,
            len == b@.len(),
            out@.len() == i,
            forall|k: int| 0 <= k < i ==> #[trigger] out@[k] == fixed_be(be_value(b@), n as nat)[k],
        decreases n - i,
    {
        let j = n - 1 - i;
        proof {
            if j < len {
                lemma_digit(b@, j as nat);
            } else {
                lemma_high_digit(b@, j as nat);
            }
        }
        if j < len {
            out.push(b[len - 1 - j]);
        } else {
            out.push(0);
        }
        i += 1;
    }
    proof {
        assert(out@ =~= fixed_be(be_value(b@), n as nat));
    }
    out
}

} // verus!
