//! Records of the attribute index: length-prefixed byte strings whose lengths
//! are variable-size integers. A length below 253 is one byte; 254 announces a
//! two-byte length and 255 a four-byte one, least significant byte first.
use vstd::prelude::*;

use crate::compact::{le_bytes, le_value, lemma_pow256_positive, pow256, read_le, write_le};

verus! {

/// Why a record could not be written or read.
#[derive(Debug, PartialEq, Eq, Structural, Clone, Copy)]
pub enum CodecError {
    /// The input ends inside an integer or a byte string.
    Truncated,
    /// A length does not fit in four bytes.
    TooLarge,
}

/// The bytes that `encode_int` appends for `v` (for `v` that fits in four bytes).
pub open spec fn int_encoding(v: nat) -> Seq<u8> {
    if v < 253 {
        seq![v as u8]
    } else if v <= 0xffff {
        seq![254u8] + le_bytes(v, 2)
    } else {
        seq![255u8] + le_bytes(v, 4)
    }
}

/// The value and size of the integer at `pos`, if a whole one is there.
pub open spec fn int_decoding(data: Seq<u8>, pos: int) -> Option<(nat, nat)> {
    if pos < 0 || pos >= data.len() {
        None
    } else if data[pos] == 255 {
        if pos + 5 <= data.len() {
            Some((le_value(data.subrange(pos + 1, pos + 5)), 5))
        } else {
            None
        }
    } else if data[pos] == 254 {
        if pos + 3 <= data.len() {
            Some((le_value(data.subrange(pos + 1, pos + 3)), 3))
        } else {
            None
        }
    } else {
        Some((data[pos] as nat, 1))
    }
}

/// Reads the integer that starts at `pos`: its value and how many bytes it takes.
pub fn decode_int(data: &[u8], pos: usize) -> (r: Result<(usize, usize), CodecError>)
    ensures
        r is Ok <==> int_decoding(data@, pos as int) is Some,
        r matches Ok(v) ==> int_decoding(data@, pos as int) == Some((v.0 as nat, v.1 as nat)),
        r matches Err(e) ==> e == CodecError::Truncated,
{
    let len = data.len();
    if pos >= len {
        return Err(CodecError::Truncated);
    }
    let m = data[pos];
    if m == 255 {
        if len - pos < 5 {
            return Err(CodecError::Truncated);
        }
        let v = read_le(data, pos + 1, 4);
        proof {
            crate::compact::lemma_le_value_bound(data@.subrange(pos + 1, pos + 5));
            assert(crate::compact::pow256(4) == 0x1_0000_0000) by {
                reveal_with_fuel(crate::compact::pow256, 5);
            }
        }
        Ok((v as usize, 5))
    } else if m == 254 {
        if len - pos < 3 {
            return Err(CodecError::Truncated);
        }
        let v = read_le(data, pos + 1, 2);
        proof {
            crate::compact::lemma_le_value_bound(data@.subrange(pos + 1, pos + 3));
            assert(crate::compact::pow256(2) == 0x1_0000) by {
                reveal_with_fuel(crate::compact::pow256, 3);
            }
        }
        Ok((v as usize, 3))
    } else {
        Ok((m as usize, 1))
    }
}

/// Appends the encoding of `value` to `buf`; a value that does not fit in four
/// bytes is refused and `buf` is left as it was.
pub fn encode_int(value: usize, buf: &mut Vec<u8>) -> (r: Result<(), CodecError>)
    ensures
        r is Ok <==> value <= 0xffff_ffff,
        r is Ok ==> final(buf)@ == old(buf)@ + int_encoding(value as nat),
        r matches Err(e) ==> e == CodecError::TooLarge && final(buf)@ == old(buf)@,
{
    if value < 253 {
        buf.push(value as u8);
        proof {
            assert(final(buf)@ =~= old(buf)@ + int_encoding(value as nat));
        }
        Ok(())
    } else if value <= 0xffff {
        buf.push(254);
        write_le(value as u64, 2, buf);
        proof {
            assert(final(buf)@ =~= old(buf)@ + int_encoding(value as nat));
        }
        Ok(())
    } else if value <= 0xffff_ffff {
        buf.push(255);
        write_le(value as u64, 4, buf);
        proof {
            assert(final(buf)@ =~= old(buf)@ + int_encoding(value as nat));
        }
        Ok(())
    } else {
        Err(CodecError::TooLarge)
    }
}

/// The little-endian bytes of a value that fits hold that value.
proof fn lemma_le_round_trip(v: nat, n: nat)
    requires
        v < pow256(n),
    ensures
        le_value(le_bytes(v, n)) == v,
    decreases n,
{
    let b = le_bytes(v, n);
    if n == 0 {
        assert(pow256(0) == 1);
    } else {
        lemma_pow256_positive((n - 1) as nat);
        assert(pow256(n) == 256 * pow256((n - 1) as nat));
        assert(v / 256 < pow256((n - 1) as nat)) by {
            vstd::arithmetic::div_mod::lemma_div_is_ordered(v as int, (256 * pow256((n - 1) as nat) - 1) as int, 256);
            vstd::arithmetic::div_mod::lemma_div_multiples_vanish_fancy(pow256((n - 1) as nat) as int, 255, 256);
            vstd::arithmetic::div_mod::lemma_fundamental_div_mod(v as int, 256);
        }
        lemma_le_round_trip(v / 256, (n - 1) as nat);
        assert forall|i: int| 0 <= i < n - 1 implies #[trigger] b.drop_first()[i] == le_bytes(v / 256, (n - 1) as nat)[i] by {
            lemma_pow256_positive(i as nat);
            vstd::arithmetic::div_mod::lemma_div_denominator(v as int, 256, pow256(i as nat) as int);
            assert(pow256((i + 1) as nat) == 256 * pow256(i as nat));
        }
        assert(b.drop_first() =~= le_bytes(v / 256, (n - 1) as nat));
        assert(pow256(0) == 1);
        assert(v / pow256(0) == v);
        assert(b[0] == ((v % 256) as u8));
        assert(b[0] as nat == v % 256);
        vstd::arithmetic::div_mod::lemma_fundamental_div_mod(v as int, 256);
    }
}

/// An integer written by `encode_int` reads back.
pub proof fn lemma_int_round_trip(head: Seq<u8>, v: nat, tail: Seq<u8>)
    requires
        v <= 0xffff_ffff,
    ensures
        int_decoding(head + int_encoding(v) + tail, head.len() as int) == Some((v, int_encoding(v).len())),
{
    let data = head + int_encoding(v) + tail;
    let p = head.len() as int;
    if v < 253 {
        assert(data[p] == v as u8);
    } else if v <= 0xffff {
        assert(pow256(2) == 0x1_0000) by {
            reveal_with_fuel(pow256, 3);
        }
        lemma_le_round_trip(v, 2);
        assert(data[p] == 254u8);
        assert(data.subrange(p + 1, p + 3) =~= le_bytes(v, 2));
    } else {
        assert(pow256(4) == 0x1_0000_0000) by {
            reveal_with_fuel(pow256, 5);
        }
        lemma_le_round_trip(v, 4);
        assert(data[p] == 255u8);
        assert(data.subrange(p + 1, p + 5) =~= le_bytes(v, 4));
    }
}

/// A byte string with its length in front.
#[verifier::opaque]
pub open spec fn chunk_bytes(b: Seq<u8>) -> Seq<u8> {
    int_encoding(b.len()) + b
}

/// The bytes of one entry: the key, then the value, each with its length.
pub open spec fn entry_bytes(e: (Seq<u8>, Seq<u8>)) -> Seq<u8> {
    chunk_bytes(e.0) + chunk_bytes(e.1)
}

/// The bytes of the entries, one after the other.
pub open spec fn entries_bytes(es: Seq<(Seq<u8>, Seq<u8>)>) -> Seq<u8>
    decreases es.len(),
{
    if es.len() == 0 {
        Seq::empty()
    } else {
        entries_bytes(es.drop_last()) + entry_bytes(es.last())
    }
}

/// The record of a map: the number of entries, then the entries.
pub open spec fn map_bytes(es: Seq<(Seq<u8>, Seq<u8>)>) -> Seq<u8> {
    int_encoding(es.len()) + entries_bytes(es)
}

/// Every length fits in four bytes.
pub open spec fn encodable(es: Seq<(Seq<u8>, Seq<u8>)>) -> bool {
    es.len() <= 0xffff_ffff && forall|i: int|
        0 <= i < es.len() ==> (#[trigger] es[i]).0.len() <= 0xffff_ffff && es[i].1.len() <= 0xffff_ffff
}

/// The length-prefixed byte string at `pos`, and the position after it.
#[verifier::opaque]
pub open spec fn chunk_at(data: Seq<u8>, pos: int) -> Option<(Seq<u8>, int)> {
    match int_decoding(data, pos) {
        Some((n, k)) => if pos + k + n <= data.len() {
            Some((data.subrange(pos + k, pos + k + n), pos + k + n))
        } else {
            None
        },
        None => None,
    }
}

/// `count` entries read from `pos` on, and the position after them.
pub open spec fn entries_at(data: Seq<u8>, pos: int, count: nat) -> Option<(Seq<(Seq<u8>, Seq<u8>)>, int)>
    decreases count,
{
    if count == 0 {
        Some((Seq::empty(), pos))
    } else {
        match entries_at(data, pos, (count - 1) as nat) {
            Some((es, p)) => match chunk_at(data, p) {
                Some((k, p2)) => match chunk_at(data, p2) {
                    Some((v, p3)) => Some((es.push((k, v)), p3)),
                    None => None,
                },
                None => None,
            },
            None => None,
        }
    }
}

/// The entries that a record holds, if it is whole. Bytes after the last
/// entry are ignored.
pub open spec fn parse_map(data: Seq<u8>) -> Option<Seq<(Seq<u8>, Seq<u8>)>> {
    match int_decoding(data, 0) {
        Some((n, k)) => match entries_at(data, k as int, n) {
            Some((es, _)) => Some(es),
            None => None,
        },
        None => None,
    }
}

proof fn lemma_chunk_round_trip(head: Seq<u8>, b: Seq<u8>, tail: Seq<u8>)
    requires
        b.len() <= 0xffff_ffff,
    ensures
        chunk_at(head + chunk_bytes(b) + tail, head.len() as int) == Some((b, (head.len() + chunk_bytes(b).len()) as int)),
{
    reveal(chunk_bytes);
    reveal(chunk_at);
    let data = head + chunk_bytes(b) + tail;
    lemma_int_round_trip(head, b.len(), b + tail);
    assert(head + int_encoding(b.len()) + (b + tail) =~= data);
    let k = int_encoding(b.len()).len();
    assert(data.subrange((head.len() + k) as int, (head.len() + k + b.len()) as int) =~= b);
}

proof fn lemma_encodable_prefix(es: Seq<(Seq<u8>, Seq<u8>)>)
    requires
        encodable(es),
        es.len() > 0,
    ensures
        encodable(es.drop_last()),
        es.last().0.len() <= 0xffff_ffff,
        es.last().1.len() <= 0xffff_ffff,
{
    let pre = es.drop_last();
    assert forall|i: int| 0 <= i < pre.len() implies (#[trigger] pre[i]).0.len() <= 0xffff_ffff && pre[i].1.len() <= 0xffff_ffff by {
        assert(pre[i] == es[i]);
    }
    assert(es.last() == es[es.len() - 1]);
}

#[verifier::rlimit(50)]
proof fn lemma_entries_round_trip(head: Seq<u8>, es: Seq<(Seq<u8>, Seq<u8>)>, tail: Seq<u8>)
    requires
        encodable(es),
    ensures
        entries_at(head + entries_bytes(es) + tail, head.len() as int, es.len()) == Some((
            es,
            (head.len() + entries_bytes(es).len()) as int,
        )),
    decreases es.len(),
{
    if es.len() > 0 {
        let pre = es.drop_last();
        let e = es.last();
        lemma_encodable_prefix(es);
        let data = head + entries_bytes(es) + tail;
        let h1 = head + entries_bytes(pre);
        let h2 = h1 + chunk_bytes(e.0);
        assert(entries_bytes(es) == entries_bytes(pre) + entry_bytes(e));
        assert(head + entries_bytes(pre) + (entry_bytes(e) + tail) == data) by {
            assert(head + entries_bytes(pre) + (entry_bytes(e) + tail) =~= data);
        }
        assert(h1 + chunk_bytes(e.0) + (chunk_bytes(e.1) + tail) == data) by {
            assert(h1 + chunk_bytes(e.0) + (chunk_bytes(e.1) + tail) =~= data);
        }
        assert(h2 + chunk_bytes(e.1) + tail == data) by {
            assert(h2 + chunk_bytes(e.1) + tail =~= data);
        }
        lemma_entries_round_trip(head, pre, entry_bytes(e) + tail);
        lemma_chunk_round_trip(h1, e.0, chunk_bytes(e.1) + tail);
        lemma_chunk_round_trip(h2, e.1, tail);
        assert(pre.push(e) =~= es);
    }
}

/// Reading a record gives back the entries it was written from.
pub proof fn lemma_map_round_trip(es: Seq<(Seq<u8>, Seq<u8>)>)
    requires
        encodable(es),
    ensures
        parse_map(map_bytes(es)) == Some(es),
{
    let data = map_bytes(es);
    lemma_int_round_trip(Seq::empty(), es.len(), entries_bytes(es));
    assert(Seq::<u8>::empty() + int_encoding(es.len()) + entries_bytes(es) =~= data);
    lemma_entries_round_trip(int_encoding(es.len()), es, Seq::empty());
    assert(int_encoding(es.len()) + entries_bytes(es) + Seq::<u8>::empty() =~= data);
}

/// The view of a list of entries.
pub open spec fn entries_view(v: Seq<(Vec<u8>, Vec<u8>)>) -> Seq<(Seq<u8>, Seq<u8>)> {
    v.map_values(|e: (Vec<u8>, Vec<u8>)| (e.0@, e.1@))
}

/// `len` bytes of `data` from `start`.
pub fn copy_bytes(data: &[u8], start: usize, len: usize) -> (r: Vec<u8>)
    requires
        start + len <= data@.len(),
    ensures
        r@ == data@.subrange(start as int, start + len),
{
    let total = data.len();
    let mut out: Vec<u8> = Vec::new();
    let mut i: usize = 0;
    while i < len
        invariant
            total == data@.len(),
            start + len <= data@.len(),
            i <= len,
            out@ == data@.subrange(start as int, start + i),
        decreases len - i,
    {
        out.push(data[start + i]);
        i += 1;
        proof {
            assert(out@ =~= data@.subrange(start as int, start + i));
        }
    }
    out
}

fn read_chunk(data: &[u8], pos: usize) -> (r: Result<(Vec<u8>, usize), CodecError>)
    ensures
        match chunk_at(data@, pos as int) {
            Some((b, p)) => r matches Ok(c) && c.0@ == b && c.1 as int == p,
            None => r == Err::<(Vec<u8>, usize), CodecError>(CodecError::Truncated),
        },
{
    reveal(chunk_at);
    let (n, k) = match decode_int(data, pos) {
        Ok(v) => v,
        Err(e) => {
            return Err(e);
        },
    };
    let len = data.len();
    if n > len - pos - k {
        return Err(CodecError::Truncated);
    }
    let b = copy_bytes(data, pos + k, n);
    Ok((b, pos + k + n))
}

proof fn lemma_entries_none_grows(data: Seq<u8>, pos: int, m: nat, n: nat)
    requires
        m <= n,
        entries_at(data, pos, m) is None,
    ensures
        entries_at(data, pos, n) is None,
    decreases n,
{
    if m < n {
        lemma_entries_none_grows(data, pos, m, (n - 1) as nat);
    }
}

/// A map of byte strings stored as one record of the attribute index.
pub struct RedbHashMap {
    pub entries: Vec<(Vec<u8>, Vec<u8>)>,
}

impl RedbHashMap {
    /// Writes the record of the map. A count or length that does not fit in
    /// four bytes is refused.
    pub fn as_bytes(&self) -> (r: Result<Vec<u8>, CodecError>)
        ensures
            r is Ok <==> encodable(entries_view(self.entries@)),
            r matches Ok(b) ==> b@ == map_bytes(entries_view(self.entries@)),
            r matches Err(e) ==> e == CodecError::TooLarge,
    {
        let ghost es = entries_view(self.entries@);
        let mut buf: Vec<u8> = Vec::new();
        match encode_int(self.entries.len(), &mut buf) {
            Ok(()) => {},
            Err(e) => {
                return Err(e);
            },
        }
        let mut i: usize = 0;
        proof {
            assert(entries_bytes(es.subrange(0, 0)) =~= Seq::<u8>::empty());
            assert(buf@ =~= int_encoding(es.len()) + entries_bytes(es.subrange(0, 0)));
        }
        while i < self.entries.len()
            invariant
                es == entries_view(self.entries@),
                es.len() <= 0xffff_ffff,
                i <= es.len(),
                buf@ == int_encoding(es.len()) + entries_bytes(es.subrange(0, i as int)),
                forall|j: int| 0 <= j < i ==> (#[trigger] es[j]).0.len() <= 0xffff_ffff && es[j].1.len() <= 0xffff_ffff,
            decreases es.len() - i,
        {
            let key = &self.entries[i].0;
            let value = &self.entries[i].1;
            let ghost before = buf@;
            match encode_int(key.len(), &mut buf) {
                Ok(()) => {},
                Err(e) => {
                    proof {
                        assert(es[i as int].0.len() > 0xffff_ffff);
                    }
                    return Err(e);
                },
            }
            buf.extend_from_slice(key.as_slice());
            match encode_int(value.len(), &mut buf) {
                Ok(()) => {},
                Err(e) => {
                    proof {
                        assert(es[i as int].1.len() > 0xffff_ffff);
                    }
                    return Err(e);
                },
            }
            buf.extend_from_slice(value.as_slice());
            proof {
                reveal(chunk_bytes);
                let e = es[i as int];
                assert(es.subrange(0, i + 1).drop_last() =~= es.subrange(0, i as int));
                assert(es.subrange(0, i + 1).last() == e);
                assert(buf@ =~= before + entry_bytes(e));
            }
            i += 1;
        }
        proof {
            assert(es.subrange(0, es.len() as int) =~= es);
        }
        Ok(buf)
    }

    /// Reads a record (see `parse_map`); one that ends early is refused.
    pub fn from_bytes(data: &[u8]) -> (r: Result<RedbHashMap, CodecError>)
        ensures
            r is Ok <==> parse_map(data@) is Some,
            r matches Ok(m) ==> parse_map(data@) == Some(entries_view(m.entries@)),
            r matches Err(e) ==> e == CodecError::Truncated,
    {
        let (n, k) = match decode_int(data, 0) {
            Ok(v) => v,
            Err(e) => {
                return Err(e);
            },
        };
        let mut entries: Vec<(Vec<u8>, Vec<u8>)> = Vec::new();
        let mut pos: usize = k;
        let mut i: usize = 0;
        proof {
            assert(entries_view(entries@) =~= Seq::<(Seq<u8>, Seq<u8>)>::empty());
        }
        while i < n
            invariant
                int_decoding(data@, 0) == Some((n as nat, k as nat)),
                i <= n,
                entries_at(data@, k as int, i as nat) == Some((entries_view(entries@), pos as int)),
            decreases n - i,
        {
            let (key, p2) = match read_chunk(data, pos) {
                Ok(c) => c,
                Err(e) => {
                    proof {
                        lemma_entries_none_grows(data@, k as int, (i + 1) as nat, n as nat);
                    }
                    return Err(e);
                },
            };
            let (value, p3) = match read_chunk(data, p2) {
                Ok(c) => c,
                Err(e) => {
                    proof {
                        lemma_entries_none_grows(data@, k as int, (i + 1) as nat, n as nat);
                    }
                    return Err(e);
                },
            };
            let ghost before = entries_view(entries@);
            entries.push((key, value));
            proof {
                assert(entries_view(entries@) =~= before.push((key@, value@)));
            }
            pos = p3;
            i += 1;
        }
        Ok(RedbHashMap { entries })
    }
}

} // verus!
