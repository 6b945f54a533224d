//! Wire primitives: big-endian integers and length-delimited byte runs,
//! with exact parsing specifications and round-trip lemmas.
//!
//! Every encoder appends to a byte vector; every parser reads at a byte
//! offset and says precisely when it succeeds.

use vstd::prelude::*;

verus! {

/// The two big-endian bytes of `v`.
#[verifier::opaque]
pub open spec fn be16(v: u16) -> Seq<u8> {
    seq![(v >> 8) as u8, v as u8]
}

/// The four big-endian bytes of `v`.
#[verifier::opaque]
pub open spec fn be32(v: u32) -> Seq<u8> {
    seq![(v >> 24) as u8, (v >> 16) as u8, (v >> 8) as u8, v as u8]
}

/// The eight big-endian bytes of `v`.
#[verifier::opaque]
pub open spec fn be64(v: u64) -> Seq<u8> {
    seq![
        (v >> 56) as u8,
        (v >> 48) as u8,
        (v >> 40) as u8,
        (v >> 32) as u8,
        (v >> 24) as u8,
        (v >> 16) as u8,
        (v >> 8) as u8,
        v as u8,
    ]
}

/// Parses a big-endian `u16` at `off`: the value and the offset after
/// it, or nothing if fewer than two bytes remain.
#[verifier::opaque]
pub open spec fn dec_u16(b: Seq<u8>, off: int) -> Option<(u16, int)> {
    if 0 <= off && off + 2 <= b.len() {
        Some((((b[off] as u16) << 8 | (b[off + 1] as u16)), off + 2))
    } else {
        None
    }
}

/// Parses a big-endian `u32` at `off`.
#[verifier::opaque]
pub open spec fn dec_u32(b: Seq<u8>, off: int) -> Option<(u32, int)> {
    if 0 <= off && off + 4 <= b.len() {
        let b3 = b[off + 3];
        Some(
            (
                ((b[off] as u32) << 24 | (b[off + 1] as u32) << 16 | (b[off + 2] as u32) << 8 | (
                b3 as u32)),
                off + 4,
            ),
        )
    } else {
        None
    }
}

/// Parses a big-endian `u64` at `off`.
#[verifier::opaque]
pub open spec fn dec_u64(b: Seq<u8>, off: int) -> Option<(u64, int)> {
    if 0 <= off && off + 8 <= b.len() {
        Some(
            (
                ((b[off] as u64) << 56 | (b[off + 1] as u64) << 48 | (b[off + 2] as u64) << 40 | (
                b[off + 3] as u64) << 32 | (b[off + 4] as u64) << 24 | (b[off + 5] as u64) << 16 | (
                b[off + 6] as u64) << 8 | (b[off + 7] as u64)),
                off + 8,
            ),
        )
    } else {
        None
    }
}

/// Parses `n` raw bytes at `off`.
#[verifier::opaque]
pub open spec fn dec_bytes(b: Seq<u8>, off: int, n: int) -> Option<(Seq<u8>, int)> {
    if 0 <= off && 0 <= n && off + n <= b.len() {
        Some((b.subrange(off, off + n), off + n))
    } else {
        None
    }
}

/// An encoded `u16` takes two bytes.
pub broadcast proof fn lemma_be16_len(v: u16)
    ensures
        (#[trigger] be16(v)).len() == 2,
{
    reveal(be16);
}

/// An encoded `u32` takes four bytes.
pub broadcast proof fn lemma_be32_len(v: u32)
    ensures
        (#[trigger] be32(v)).len() == 4,
{
    reveal(be32);
}

/// An encoded `u64` takes eight bytes.
pub broadcast proof fn lemma_be64_len(v: u64)
    ensures
        (#[trigger] be64(v)).len() == 8,
{
    reveal(be64);
}

/// Splitting a `u16` into its big-endian bytes and reassembling them
/// gives the value back.
proof fn lemma_be16_roundtrip(v: u16)
    ensures
        ((((v >> 8) as u8) as u16) << 8 | ((v as u8) as u16)) == v,
{
    assert(((((v >> 8) as u8) as u16) << 8 | ((v as u8) as u16)) == v) by (bit_vector);
}

proof fn lemma_be32_roundtrip(v: u32)
    ensures
        ((((v >> 24) as u8) as u32) << 24 | (((v >> 16) as u8) as u32) << 16 | (((v
            >> 8) as u8) as u32) << 8 | ((v as u8) as u32)) == v,
{
    assert(((((v >> 24) as u8) as u32) << 24 | (((v >> 16) as u8) as u32) << 16 | (((v
        >> 8) as u8) as u32) << 8 | ((v as u8) as u32)) == v) by (bit_vector);
}

proof fn lemma_be64_roundtrip(v: u64)
    ensures
        ((((v >> 56) as u8) as u64) << 56 | (((v >> 48) as u8) as u64) << 48 | (((v
            >> 40) as u8) as u64) << 40 | (((v >> 32) as u8) as u64) << 32 | (((v
            >> 24) as u8) as u64) << 24 | (((v >> 16) as u8) as u64) << 16 | (((v
            >> 8) as u8) as u64) << 8 | ((v as u8) as u64)) == v,
{
    assert(((((v >> 56) as u8) as u64) << 56 | (((v >> 48) as u8) as u64) << 48 | (((v
        >> 40) as u8) as u64) << 40 | (((v >> 32) as u8) as u64) << 32 | (((v
        >> 24) as u8) as u64) << 24 | (((v >> 16) as u8) as u64) << 16 | (((v
        >> 8) as u8) as u64) << 8 | ((v as u8) as u64)) == v) by (bit_vector);
}

/// Parsing at the start of an encoded `u16` yields the encoded value.
pub proof fn lemma_dec_u16_at(pre: Seq<u8>, v: u16, rest: Seq<u8>)
    ensures
        dec_u16(pre + be16(v) + rest, pre.len() as int) == Some((v, pre.len() as int + 2)),
{
    reveal(be16);
    reveal(dec_u16);
    let b = pre + be16(v) + rest;
    assert forall|i: int| 0 <= i < 2 implies b[pre.len() + i] == be16(v)[i] by {}
    lemma_be16_roundtrip(v);
}

/// Parsing at the start of an encoded `u32` yields the encoded value.
pub proof fn lemma_dec_u32_at(pre: Seq<u8>, v: u32, rest: Seq<u8>)
    ensures
        dec_u32(pre + be32(v) + rest, pre.len() as int) == Some((v, pre.len() as int + 4)),
{
    reveal(be32);
    reveal(dec_u32);
    let b = pre + be32(v) + rest;
    assert forall|i: int| 0 <= i < 4 implies b[pre.len() + i] == be32(v)[i] by {}
    lemma_be32_roundtrip(v);
}

/// Parsing at the start of an encoded `u64` yields the encoded value.
pub proof fn lemma_dec_u64_at(pre: Seq<u8>, v: u64, rest: Seq<u8>)
    ensures
        dec_u64(pre + be64(v) + rest, pre.len() as int) == Some((v, pre.len() as int + 8)),
{
    reveal(be64);
    reveal(dec_u64);
    let b = pre + be64(v) + rest;
    assert forall|i: int| 0 <= i < 8 implies b[pre.len() + i] == be64(v)[i] by {}
    lemma_be64_roundtrip(v);
}

/// Parsing `data.len()` raw bytes at the start of `data` yields `data`.
pub proof fn lemma_dec_bytes_at(pre: Seq<u8>, data: Seq<u8>, rest: Seq<u8>)
    ensures
        dec_bytes(pre + data + rest, pre.len() as int, data.len() as int) == Some(
            (data, pre.len() as int + data.len() as int),
        ),
{
    reveal(dec_bytes);
    let b = pre + data + rest;
    assert(b.subrange(pre.len() as int, pre.len() as int + data.len() as int) =~= data);
}

/// Raw bytes cannot be parsed past the end of the buffer.
pub proof fn lemma_dec_bytes_none(b: Seq<u8>, off: int, n: int)
    requires
        off + n > b.len(),
    ensures
        dec_bytes(b, off, n) is None,
{
    reveal(dec_bytes);
}

/// Appends the big-endian bytes of `v`.
pub fn push_be16(out: &mut Vec<u8>, v: u16)
    ensures
        final(out)@ == old(out)@ + be16(v),
{
    out.push((v >> 8) as u8);
    out.push(v as u8);
    proof {
        reveal(be16);
        assert(out@ =~= old(out)@ + be16(v));
    }
}

/// Appends the big-endian bytes of `v`.
pub fn push_be32(out: &mut Vec<u8>, v: u32)
    ensures
        final(out)@ == old(out)@ + be32(v),
{
    out.push((v >> 24) as u8);
    out.push((v >> 16) as u8);
    out.push((v >> 8) as u8);
    out.push(v as u8);
    proof {
        reveal(be32);
        assert(out@ =~= old(out)@ + be32(v));
    }
}

/// Appends the big-endian bytes of `v`.
pub fn push_be64(out: &mut Vec<u8>, v: u64)
    ensures
        final(out)@ == old(out)@ + be64(v),
{
    out.push((v >> 56) as u8);
    out.push((v >> 48) as u8);
    out.push((v >> 40) as u8);
    out.push((v >> 32) as u8);
    out.push((v >> 24) as u8);
    out.push((v >> 16) as u8);
    out.push((v >> 8) as u8);
    out.push(v as u8);
    proof {
        reveal(be64);
        assert(out@ =~= old(out)@ + be64(v));
    }
}

/// Reads a big-endian `u16` at `off`, exactly as `dec_u16` says.
pub fn parse_u16(b: &[u8], off: usize) -> (r: Option<(u16, usize)>)
    ensures
        match r {
            Some((v, o2)) => dec_u16(b@, off as int) == Some((v, o2 as int)),
            None => dec_u16(b@, off as int) is None,
        },
{
    proof {
        reveal(dec_u16);
    }
    if b.len() >= 2 && off <= b.len() - 2 {
        let v = (b[off] as u16) << 8 | (b[off + 1] as u16);
        Some((v, off + 2))
    } else {
        None
    }
}

/// Reads a big-endian `u32` at `off`, exactly as `dec_u32` says.
pub fn parse_u32(b: &[u8], off: usize) -> (r: Option<(u32, usize)>)
    ensures
        match r {
            Some((v, o2)) => dec_u32(b@, off as int) == Some((v, o2 as int)),
            None => dec_u32(b@, off as int) is None,
        },
{
    proof {
        reveal(dec_u32);
    }
    if b.len() >= 4 && off <= b.len() - 4 {
        let v = (b[off] as u32) << 24 | (b[off + 1] as u32) << 16 | (b[off + 2] as u32) << 8 | (
        b[off + 3] as u32);
        Some((v, off + 4))
    } else {
        None
    }
}

/// Reads a big-endian `u64` at `off`, exactly as `dec_u64` says.
pub fn parse_u64(b: &[u8], off: usize) -> (r: Option<(u64, usize)>)
    ensures
        match r {
            Some((v, o2)) => dec_u64(b@, off as int) == Some((v, o2 as int)),
            None => dec_u64(b@, off as int) is None,
        },
{
    proof {
        reveal(dec_u64);
    }
    if b.len() >= 8 && off <= b.len() - 8 {
        let v = (b[off] as u64) << 56 | (b[off + 1] as u64) << 48 | (b[off + 2] as u64) << 40 | (
        b[off + 3] as u64) << 32 | (b[off + 4] as u64) << 24 | (b[off + 5] as u64) << 16 | (b[off
            + 6] as u64) << 8 | (b[off + 7] as u64);
        Some((v, off + 8))
    } else {
        None
    }
}

/// Copies `n` raw bytes at `off` into a fresh vector, exactly as
/// `dec_bytes` says.
pub fn parse_bytes(b: &[u8], off: usize, n: usize) -> (r: Option<(Vec<u8>, usize)>)
    ensures
        match r {
            Some((v, o2)) => dec_bytes(b@, off as int, n as int) == Some((v@, o2 as int))
                && v@.len() == n as int,
            None => dec_bytes(b@, off as int, n as int) is None,
        },
{
    proof {
        reveal(dec_bytes);
    }
    if n <= b.len() && off <= b.len() - n {
        let mut v: Vec<u8> = Vec::new();
        let mut i: usize = 0;
        while i < n
            invariant
                off + n <= b@.len(),
                b@.len() <= usize::MAX,
                i <= n,
                v@ == b@.subrange(off as int, off + i),
            decreases n - i,
        {
            v.push(b[off + i]);
            proof {
                assert(b@.subrange(off as int, off + i).push(b@[off + i]) =~= b@.subrange(
                    off as int,
                    off + i + 1,
                ));
            }
            i = i + 1;
        }
        Some((v, off + n))
    } else {
        None
    }
}

/// A fresh buffer with the same bytes.
pub fn clone_bytes(src: &Vec<u8>) -> (out: Vec<u8>)
    ensures
        out@ == src@,
{
    let mut out: Vec<u8> = Vec::new();
    let mut i: usize = 0;
    while i < src.len()
        invariant
            i <= src@.len(),
            out@ == src@.take(i as int),
        decreases src@.len() - i,
    {
        out.push(src[i]);
        proof {
            assert(src@.take(i as int).push(src@[i as int]) =~= src@.take(i as int + 1));
        }
        i = i + 1;
    }
    proof {
        assert(src@.take(src@.len() as int) =~= src@);
    }
    out
}

/// Appends the bytes of `src`.
pub fn push_bytes(out: &mut Vec<u8>, src: &Vec<u8>)
    ensures
        final(out)@ == old(out)@ + src@,
{
    let mut i: usize = 0;
    while i < src.len()
        invariant
            i <= src@.len(),
            out@ == old(out)@ + src@.take(i as int),
        decreases src@.len() - i,
    {
        out.push(src[i]);
        proof {
            assert(old(out)@ + src@.take(i as int) + seq![src@[i as int]] =~= old(out)@
                + src@.take(i as int + 1));
        }
        i = i + 1;
    }
    proof {
        assert(old(out)@ + src@.take(src@.len() as int) =~= old(out)@ + src@);
    }
}

/// Concatenation of sequences associates.
pub proof fn seq_assoc<A>(a: Seq<A>, b: Seq<A>, c: Seq<A>)
    ensures
        (a + b) + c == a + (b + c),
{
    assert((a + b) + c =~= a + (b + c));
}

/// The empty sequence is a left unit of concatenation.
pub proof fn seq_empty_left<A>(a: Seq<A>)
    ensures
        Seq::<A>::empty() + a == a,
{
    assert(Seq::<A>::empty() + a =~= a);
}

} // verus!
