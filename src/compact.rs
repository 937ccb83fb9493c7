//! Compact integers: a one-byte marker, then the value in little-endian order.
//! Values below 253 stand alone; 253, 254 and 255 announce 2, 4 and 8 bytes.
use vstd::prelude::*;

verus! {

/// 256 to the power `n`.
pub open spec fn pow256(n: nat) -> nat
    decreases n,
{
    if n == 0 {
        1
    } else {
        256 * pow256((n - 1) as nat)
    }
}

/// The number that the bytes `b` hold, least significant first.
pub open spec fn le_value(b: Seq<u8>) -> nat
    decreases b.len(),
{
    if b.len() == 0 {
        0
    } else {
        b[0] as nat + 256 * le_value(b.drop_first())
    }
}

/// The `n` least significant bytes of `v`, least significant first.
pub open spec fn le_bytes(v: nat, n: nat) -> Seq<u8> {
    Seq::new(n, |i: int| ((v / pow256(i as nat)) % 256) as u8)
}

/// The value and the size of the compact integer that starts at `offset`.
pub open spec fn compact_decode(data: Seq<u8>, offset: int) -> (nat, nat) {
    let m = data[offset];
    if m == 255 {
        (le_value(data.subrange(offset + 1, offset + 9)), 9)
    } else if m == 254 {
        (le_value(data.subrange(offset + 1, offset + 5)), 5)
    } else if m == 253 {
        (le_value(data.subrange(offset + 1, offset + 3)), 3)
    } else {
        (m as nat, 1)
    }
}

/// The bytes that `encode_int` appends for `v`.
pub open spec fn compact_encode(v: nat) -> Seq<u8> {
    if v < 253 {
        seq![v as u8]
    } else if v <= 0xffff {
        seq![253u8] + le_bytes(v, 2)
    } else if v <= 0xffff_ffff {
        seq![254u8] + le_bytes(v, 4)
    } else {
        seq![255u8] + le_bytes(v, 8)
    }
}

/// Whether a whole compact integer starts at `offset` in `data`.
pub open spec fn compact_fits(data: Seq<u8>, offset: int) -> bool {
    &&& 0 <= offset < data.len()
    &&& data[offset] == 255 ==> offset + 9 <= data.len()
    &&& data[offset] == 254 ==> offset + 5 <= data.len()
    &&& data[offset] == 253 ==> offset + 3 <= data.len()
}

pub proof fn lemma_pow256_positive(n: nat)
    ensures
        pow256(n) >= 1,
    decreases n,
{
    if n > 0 {
        lemma_pow256_positive((n - 1) as nat);
    }
}

pub proof fn lemma_le_value_bound(b: Seq<u8>)
    ensures
        le_value(b) < pow256(b.len()),
    decreases b.len(),
{
    if b.len() > 0 {
        lemma_le_value_bound(b.drop_first());
        let rest = le_value(b.drop_first());
        let p = pow256((b.len() - 1) as nat);
        assert(rest + 1 <= p);
        assert(b[0] as nat + 256 * rest < 256 * p) by (nonlinear_arith)
            requires
                rest + 1 <= p,
                b[0] < 256,
        ;
    }
}

proof fn lemma_le_value_step(b: Seq<u8>, lo: int, hi: int)
    requires
        0 <= lo < hi <= b.len(),
    ensures
        le_value(b.subrange(lo, hi)) == b[lo] as nat + 256 * le_value(b.subrange(lo + 1, hi)),
{
    assert(b.subrange(lo, hi).drop_first() =~= b.subrange(lo + 1, hi));
}

/// The number held in `n` bytes of `data` from `start`, least significant first.
pub fn read_le(data: &[u8], start: usize, n: usize) -> (r: u64)
    requires
        n <= 8,
        start + n <= data@.len(),
    ensures
        r as nat == le_value(data@.subrange(start as int, start + n)),
{
    let len = data.len();
    let mut acc: u64 = 0;
    let mut j: usize = n;
    proof {
        assert(data@.subrange(start + n, start + n).len() == 0);
    }
    while j > 0
        invariant
            j <= n <= 8,
            start + n <= data@.len(),
            len == data@.len(),
            acc as nat == le_value(data@.subrange(start + j, start + n)),
        decreases j,
    {
        j -= 1;
        proof {
            lemma_le_value_step(data@, start + j, start + n);
            lemma_le_value_bound(data@.subrange(start + j + 1, start + n));
            lemma_pow256_seven();
            lemma_pow_monotone((n - j - 1) as nat, 7);
        }
        acc = data[start + j] as u64 + 256 * acc;
    }
    acc
}

proof fn lemma_pow256_seven()
    ensures
        pow256(7) == 0x100_0000_0000_0000,
{
    reveal_with_fuel(pow256, 8);
}

/// Powers of 256 grow with the exponent.
pub proof fn lemma_pow_monotone(a: nat, b: nat)
    requires
        a <= b,
    ensures
        pow256(a) <= pow256(b),
    decreases b,
{
    if a < b {
        lemma_pow_monotone(a, (b - 1) as nat);
        lemma_pow256_positive((b - 1) as nat);
    }
}

/// Appends the `n` least significant bytes of `v`, least significant first.
pub fn write_le(v: u64, n: usize, buf: &mut Vec<u8>)
    requires
        n <= 8,
    ensures
        final(buf)@ == old(buf)@ + le_bytes(v as nat, n as nat),
{
    let mut cur: u64 = v;
    let mut i: usize = 0;
    proof {
        assert(pow256(0) == 1);
        assert(buf@ =~= old(buf)@ + le_bytes(v as nat, 0));
    }
    while i < n
        invariant
            i <= n,
            cur as nat == v as nat / pow256(i as nat),
            buf@ == old(buf)@ + le_bytes(v as nat, i as nat),
        decreases n - i,
    {
        proof {
            lemma_pow256_positive(i as nat);
            vstd::arithmetic::div_mod::lemma_div_denominator(v as int, pow256(i as nat) as int, 256);
            assert(pow256((i + 1) as nat) == pow256(i as nat) * 256);
        }
        buf.push((cur % 256) as u8);
        cur = cur / 256;
        i += 1;
        proof {
            assert(buf@ =~= old(buf)@ + le_bytes(v as nat, i as nat));
        }
    }
}

/// Decodes the compact integer that starts at `offset`: its value, and how
/// many bytes it takes.
pub fn decode_int(data: &[u8], offset: usize) -> (r: (u64, usize))
    requires
        compact_fits(data@, offset as int),
    ensures
        (r.0 as nat, r.1 as nat) == compact_decode(data@, offset as int),
{
    let m = data[offset];
    if m == 255 {
        (read_le(data, offset + 1, 8), 9)
    } else if m == 254 {
        (read_le(data, offset + 1, 4), 5)
    } else if m == 253 {
        (read_le(data, offset + 1, 2), 3)
    } else {
        (m as u64, 1)
    }
}

/// Appends the compact encoding of `value` to `buf`.
pub fn encode_int(value: u64, buf: &mut Vec<u8>)
    ensures
        final(buf)@ == old(buf)@ + compact_encode(value as nat),
{
    if value < 253 {
        buf.push(value as u8);
        proof {
            assert(final(buf)@ =~= old(buf)@ + compact_encode(value as nat));
        }
    } else if value <= 0xffff {
        buf.push(253);
        write_le(value, 2, buf);
        proof {
            assert(final(buf)@ =~= old(buf)@ + compact_encode(value as nat));
        }
    } else if value <= 0xffff_ffff {
        buf.push(254);
        write_le(value, 4, buf);
        proof {
            assert(final(buf)@ =~= old(buf)@ + compact_encode(value as nat));
        }
    } else {
        buf.push(255);
        write_le(value, 8, buf);
        proof {
            assert(final(buf)@ =~= old(buf)@ + compact_encode(value as nat));
        }
    }
}

} // verus!
